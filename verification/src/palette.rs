use vstd::prelude::*;
use vstd::arithmetic::div_mod::lemma_add_mod_noop;

verus! {

/// Value of one colour channel at palette entry i, for a channel step:
/// the channels start at zero and advance by the step modulo 255.
pub open spec fn palette_channel(step: int, i: int) -> int {
    (i * step) % 255
}

/// Byte j of the flattened palette: entries are RGB triples, so byte j
/// belongs to entry j / 3 and channel j % 3.
pub open spec fn palette_at(rs: int, gs: int, bs: int, j: int) -> int {
    if j % 3 == 0 {
        palette_channel(rs, j / 3)
    } else if j % 3 == 1 {
        palette_channel(gs, j / 3)
    } else {
        palette_channel(bs, j / 3)
    }
}

/// The flattened palette holds exactly 256 RGB triples generated from the
/// three channel steps.
pub open spec fn palette_ok(p: Seq<u8>, rs: int, gs: int, bs: int) -> bool {
    &&& p.len() == 768
    &&& forall|j: int| 0 <= j < p.len() ==> p[j] as int == palette_at(rs, gs, bs, j)
}

/// Every well-formed palette has exactly 256 RGB triples (768 bytes) and
/// every channel byte lies in [0, 254].
pub proof fn lemma_palette_bounds(p: Seq<u8>, rs: int, gs: int, bs: int)
    requires
        palette_ok(p, rs, gs, bs),
        0 <= rs,
        0 <= gs,
        0 <= bs,
    ensures
        p.len() == 768,
        forall|j: int| 0 <= j < p.len() ==> p[j] <= 254,
{
    assert forall|j: int| 0 <= j < p.len() implies p[j] <= 254 by {
        assert(0 <= j / 3);
        assert((j / 3) * rs >= 0 && (j / 3) * gs >= 0 && (j / 3) * bs >= 0) by (nonlinear_arith)
            requires
                0 <= j / 3,
                0 <= rs,
                0 <= gs,
                0 <= bs,
        ;
        assert(p[j] as int == palette_at(rs, gs, bs, j));
    }
}

/// Builds the 256-entry palette for the given channel steps: each channel
/// starts at zero and advances by its step modulo 255 from entry to entry.
pub fn gen_palette(rs: u8, gs: u8, bs: u8) -> (p: Vec<u8>)
    requires
        rs < 20,
        gs < 20,
        bs < 20,
    ensures
        palette_ok(p@, rs as int, gs as int, bs as int),
{
    let mut v: Vec<u8> = Vec::new();
    let mut r: u16 = 0;
    let mut g: u16 = 0;
    let mut b: u16 = 0;
    let mut i: usize = 0;
    while i < 256
        invariant
            i <= 256,
            rs < 20,
            gs < 20,
            bs < 20,
            v@.len() == 3 * i,
            r as int == palette_channel(rs as int, i as int),
            g as int == palette_channel(gs as int, i as int),
            b as int == palette_channel(bs as int, i as int),
            forall|j: int|
                0 <= j < v@.len() ==> v@[j] as int == palette_at(
                    rs as int,
                    gs as int,
                    bs as int,
                    j,
                ),
        decreases 256 - i,
    {
        proof {
            assert(0 <= (i as int) * (rs as int) && 0 <= (i as int) * (gs as int) && 0 <= (
            i as int) * (bs as int)) by (nonlinear_arith)
                requires
                    0 <= i as int,
                    0 <= rs as int,
                    0 <= gs as int,
                    0 <= bs as int,
            ;
            assert(r < 255 && g < 255 && b < 255);
        }
        v.push(r as u8);
        v.push(g as u8);
        v.push(b as u8);
        proof {
            assert(3 * (i as int) % 3 == 0 && 3 * (i as int) / 3 == i as int);
            assert((3 * (i as int) + 1) % 3 == 1 && (3 * (i as int) + 1) / 3 == i as int);
            assert((3 * (i as int) + 2) % 3 == 2 && (3 * (i as int) + 2) / 3 == i as int);
            lemma_step_advance(rs as int, i as int);
            lemma_step_advance(gs as int, i as int);
            lemma_step_advance(bs as int, i as int);
        }
        r = (r + rs as u16) % 255;
        g = (g + gs as u16) % 255;
        b = (b + bs as u16) % 255;
        i = i + 1;
    }
    v
}

/// Advancing a channel by its step modulo 255 moves it from entry i to
/// entry i + 1 of the channel sequence.
proof fn lemma_step_advance(step: int, i: int)
    requires
        0 <= step < 255,
        0 <= i,
    ensures
        (palette_channel(step, i) + step) % 255 == palette_channel(step, i + 1),
{
    assert(0 <= i * step) by (nonlinear_arith)
        requires
            0 <= i,
            0 <= step,
    ;
    lemma_add_mod_noop(i * step, step, 255);
    assert(step % 255 == step);
    assert((i * step % 255 + step % 255) % 255 == (i * step + step) % 255);
    assert(i * step + step == (i + 1) * step) by (nonlinear_arith);
}

/// Relies on rand::random_range: the result lies in the given half-open
/// range, here 0..20.
#[verifier::external_body]
fn random_step() -> (r: u8)
    ensures
        r < 20,
{
    rand::random_range(0u8..20u8)
}

/// Builds a palette from three channel steps drawn at random, each in [0, 20).
pub fn gen_palette_random() -> (p: Vec<u8>)
    ensures
        exists|rs: int, gs: int, bs: int|
            0 <= rs < 20 && 0 <= gs < 20 && 0 <= bs < 20 && palette_ok(p@, rs, gs, bs),
{
    let rs: u8 = random_step();
    let gs: u8 = random_step();
    let bs: u8 = random_step();
    let p: Vec<u8> = gen_palette(rs, gs, bs);
    proof {
        assert(0 <= (rs as int) < 20 && 0 <= (gs as int) < 20 && 0 <= (bs as int) < 20 && palette_ok(
            p@,
            rs as int,
            gs as int,
            bs as int,
        ));
    }
    p
}

} // verus!
