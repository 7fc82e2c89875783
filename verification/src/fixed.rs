use vstd::prelude::*;
use vstd::arithmetic::div_mod::lemma_fundamental_div_mod;

verus! {

/// Fixed-point scale: a coordinate is stored as an integer count of 1/SCALE units.
pub const SCALE: i64 = 16777216;

/// Largest coordinate magnitude the evaluator accepts (16.0 in fixed point).
pub const COORD_BOUND: i64 = 268435456;

/// Bound kept on the orbit values of the evaluator (32.0 in fixed point).
pub const ORBIT_BOUND: i64 = 536870912;

/// A fixed-point coordinate lies within the range the evaluator is specified for.
pub open spec fn in_coord_range(v: int) -> bool {
    -COORD_BOUND <= v <= COORD_BOUND
}

/// A fixed-point value lies within the range the evaluator keeps its orbit in.
pub open spec fn in_orbit_range(v: int) -> bool {
    -ORBIT_BOUND <= v <= ORBIT_BOUND
}

pub open spec fn abs_val(p: int) -> int {
    if p < 0 {
        -p
    } else {
        p
    }
}

/// Fixed-point product: the integer product scaled back down by SCALE,
/// rounded toward zero.
pub open spec fn fx_mul(p: int, q: int) -> int {
    let m = (abs_val(p) * abs_val(q)) / (SCALE as int);
    if (p < 0) != (q < 0) {
        -m
    } else {
        m
    }
}

/// Tests whether a fixed-point coordinate lies within the accepted range.
pub fn coord_in_range(v: i64) -> (r: bool)
    ensures
        r == in_coord_range(v as int),
{
    -COORD_BOUND <= v && v <= COORD_BOUND
}

/// Fixed-point product of two in-range values, truncated toward zero.
pub fn fx_mul_exec(p: i64, q: i64) -> (r: i64)
    requires
        in_orbit_range(p as int),
        in_orbit_range(q as int),
    ensures
        r as int == fx_mul(p as int, q as int),
        abs_val(r as int) * (SCALE as int) <= abs_val(p as int) * abs_val(q as int),
{
    let pm: u64 = if p < 0 {
        (-p) as u64
    } else {
        p as u64
    };
    let qm: u64 = if q < 0 {
        (-q) as u64
    } else {
        q as u64
    };
    proof {
        assert(pm as int == abs_val(p as int));
        assert(qm as int == abs_val(q as int));
        assert((pm as int) * (qm as int) <= 0x20000000 * 0x20000000 && (pm as int) * (qm as int)
            >= 0) by (nonlinear_arith)
            requires
                0 <= pm as int <= 0x20000000,
                0 <= qm as int <= 0x20000000,
        ;
    }
    let prod: u64 = pm * qm;
    let m: u64 = prod / 16777216u64;
    proof {
        lemma_fundamental_div_mod(prod as int, 16777216);
    }
    let mi: i64 = m as i64;
    if (p < 0) != (q < 0) {
        -mi
    } else {
        mi
    }
}

} // verus!
