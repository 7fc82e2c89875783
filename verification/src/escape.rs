use vstd::prelude::*;
use crate::fixed::{in_coord_range, in_orbit_range, abs_val, fx_mul, fx_mul_exec};

verus! {

/// Squared escape radius in fixed point: (2 * SCALE) * (2 * SCALE).
pub const ESCAPE_SQ: i64 = 1125899906842624;

/// A point has left the escape radius: its squared magnitude is at least 4.
pub open spec fn escaped(a: int, b: int) -> bool {
    a * a + b * b >= ESCAPE_SQ as int
}

/// Real part of one step of the orbit map z <- z * z + c.
pub open spec fn step_re(a: int, b: int, x: int) -> int {
    fx_mul(a, a) - fx_mul(b, b) + x
}

/// Imaginary part of one step of the orbit map z <- z * z + c.
pub open spec fn step_im(a: int, b: int, y: int) -> int {
    2 * fx_mul(a, b) + y
}

/// Number of orbit steps taken from z = (a, b) under c = (x, y) before the
/// orbit leaves the escape radius, capped at fuel.
pub open spec fn escape_count(a: int, b: int, x: int, y: int, fuel: nat) -> nat
    decreases fuel,
{
    if escaped(a, b) {
        0
    } else if fuel == 0 {
        0
    } else {
        1 + escape_count(step_re(a, b, x), step_im(a, b, y), x, y, (fuel - 1) as nat)
    }
}

/// Escape time of the point c = (x, y): the orbit starts at z = c, and the
/// count is capped at max_iter for points that never escape.
pub open spec fn escape_iters(x: int, y: int, max_iter: nat) -> nat {
    escape_count(x, y, x, y, max_iter)
}

/// The origin never escapes: its orbit stays at zero, so the count is the cap.
pub proof fn lemma_origin_never_escapes(max_iter: nat)
    ensures
        escape_iters(0, 0, max_iter) == max_iter,
    decreases max_iter,
{
    lemma_origin_count(max_iter);
}

proof fn lemma_origin_count(fuel: nat)
    ensures
        escape_count(0, 0, 0, 0, fuel) == fuel,
    decreases fuel,
{
    assert(!escaped(0, 0));
    if fuel > 0 {
        assert(fx_mul(0, 0) == 0);
        assert(step_re(0, 0, 0) == 0);
        assert(step_im(0, 0, 0) == 0);
        lemma_origin_count((fuel - 1) as nat);
    }
}

/// A point already outside the escape radius has escape time zero, whatever
/// the iteration cap.
pub proof fn lemma_outside_radius_escapes(x: int, y: int, max_iter: nat)
    requires
        x * x + y * y >= ESCAPE_SQ as int,
    ensures
        escape_iters(x, y, max_iter) == 0,
{
    assert(escaped(x, y));
}

/// Escape time of the point c = (x, y) in fixed point, capped at max_iter.
pub fn escape_iterations(x: i64, y: i64, max_iter: u32) -> (r: u32)
    requires
        in_coord_range(x as int),
        in_coord_range(y as int),
    ensures
        r as nat == escape_iters(x as int, y as int, max_iter as nat),
        r <= max_iter,
{
    let mut a: i64 = x;
    let mut b: i64 = y;
    let mut i: u32 = 0;
    loop
        invariant
            i <= max_iter,
            in_coord_range(x as int),
            in_coord_range(y as int),
            in_orbit_range(a as int),
            in_orbit_range(b as int),
            escape_iters(x as int, y as int, max_iter as nat) == i + escape_count(
                a as int,
                b as int,
                x as int,
                y as int,
                (max_iter - i) as nat,
            ),
        decreases max_iter - i,
    {
        proof {
            assert(0 <= (a as int) * (a as int) <= 0x20000000 * 0x20000000 && 0 <= (b as int) * (
            b as int) <= 0x20000000 * 0x20000000) by (nonlinear_arith)
                requires
                    -0x20000000 <= a as int <= 0x20000000,
                    -0x20000000 <= b as int <= 0x20000000,
            ;
        }
        let aa: i64 = a * a;
        let bb: i64 = b * b;
        if aa + bb >= ESCAPE_SQ {
            proof {
                assert(escaped(a as int, b as int));
            }
            return i;
        }
        if i == max_iter {
            return i;
        }
        proof {
            assert(0 <= abs_val(a as int) < 0x2000000 && 0 <= abs_val(b as int)
                < 0x2000000) by (nonlinear_arith)
                requires
                    (a as int) * (a as int) + (b as int) * (b as int) < 0x4000000000000,
                    abs_val(a as int) == (if (a as int) < 0 {
                        -(a as int)
                    } else {
                        a as int
                    }),
                    abs_val(b as int) == (if (b as int) < 0 {
                        -(b as int)
                    } else {
                        b as int
                    }),
            ;
            assert(abs_val(a as int) * abs_val(a as int) < ESCAPE_SQ as int && abs_val(a as int)
                * abs_val(b as int) < ESCAPE_SQ as int && abs_val(b as int) * abs_val(b as int)
                < ESCAPE_SQ as int) by (nonlinear_arith)
                requires
                    0 <= abs_val(a as int) < 0x2000000,
                    0 <= abs_val(b as int) < 0x2000000,
                    ESCAPE_SQ as int == 0x4000000000000,
            ;
        }
        let fa: i64 = fx_mul_exec(a, a);
        let fb: i64 = fx_mul_exec(b, b);
        let fab: i64 = fx_mul_exec(a, b);
        let na: i64 = fa - fb + x;
        let nb: i64 = 2 * fab + y;
        proof {
            assert(na as int == step_re(a as int, b as int, x as int));
            assert(nb as int == step_im(a as int, b as int, y as int));
            assert(escape_count(a as int, b as int, x as int, y as int, (max_iter - i) as nat)
                == 1 + escape_count(na as int, nb as int, x as int, y as int, (max_iter - i
                - 1) as nat));
        }
        a = na;
        b = nb;
        i = i + 1;
    }
}

} // verus!
