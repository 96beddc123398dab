use vstd::prelude::*;
use rand::Rng;
use rand::rngs::ThreadRng;
use crate::fixed::MAG_LIMIT;
use crate::fixed::SCALE;
use crate::fixed::lemma_tdiv_bound;
use crate::fixed::tdiv;
use crate::fixed::tdiv64;

verus! {

/// Declares rand's ThreadRng so the engine can own its noise source; the
/// type is opaque, and nothing is assumed about the values it yields.
#[verifier::external_type_specification]
#[verifier::external_body]
pub struct ExThreadRng(ThreadRng);

/// Relies on rand::rng: a handle to the thread-local generator, the single
/// process-lifetime noise source.
#[verifier::external_body]
pub(crate) fn fresh_rng() -> ThreadRng {
    rand::rng()
}

/// Relies on Rng::random_range over 0..1_000_000: a draw from that half-open
/// range; the range is never empty, so the call cannot panic. Nothing more
/// is assumed of which value comes out.
#[verifier::external_body]
pub(crate) fn draw_unit_micro(rng: &mut ThreadRng) -> (r: i64)
    ensures
        0 <= r < 1_000_000,
{
    rng.random_range(0..1_000_000i64)
}

/// What one draw `u` from [0, 1) adds at a noise level of `level` percent:
/// the draw carried to [-1, 1) and scaled by `level / 100`.
pub open spec fn noise_term(u: int, level: int) -> int {
    tdiv((2 * u - SCALE) * level, 100)
}

/// Add one draw of noise to a sample. The draw is mapped from [0, 1) to
/// [-1, 1), scaled by the level in percent, and added; a level of 0 adds
/// exactly nothing, though the draw is still consumed upstream.
pub fn apply_noise(sample: i64, draw: i64, level: i32) -> (r: i64)
    requires
        -SCALE <= sample <= SCALE,
        0 <= draw < SCALE,
    ensures
        r as int == sample + noise_term(draw as int, level as int),
        level == 0 ==> r == sample,
        -MAG_LIMIT <= r <= MAG_LIMIT,
{
    let unit: i64 = 2 * draw - SCALE;
    proof {
        assert(unit * (level as int) <= 3_000_000_000_000_000
            && unit * (level as int) >= -3_000_000_000_000_000) by (nonlinear_arith)
            requires
                -1_000_000 <= unit <= 1_000_000,
                -2_200_000_000 <= level <= 2_200_000_000,
        ;
    }
    let scaled: i64 = unit * (level as i64);
    proof {
        lemma_tdiv_bound(scaled as int, 100, 30_000_000_000_000);
    }
    let term: i64 = tdiv64(scaled, 100);
    sample + term
}

} // verus!
