use vstd::prelude::*;
use vstd::arithmetic::div_mod::lemma_div_is_ordered;
use vstd::arithmetic::div_mod::lemma_div_multiples_vanish;
use vstd::arithmetic::div_mod::lemma_div_pos_is_pos;

verus! {

/// One signal unit, as a count of fixed-point steps: the engine holds every
/// sample, coefficient and intermediate value in millionths of a unit.
pub const SCALE: i64 = 1_000_000;

/// Magnitude bound kept by every filter accumulator and every pipeline
/// value: a thousand million signal units, far beyond any honest transient.
pub const MAG_LIMIT: i64 = 1_000_000_000_000_000;

/// Largest accepted filter coefficient: a million signal units.
pub const COEFF_LIMIT: i64 = 1_000_000_000_000;

/// Every raw sample the loader accepts stays strictly inside this bound,
/// a million million signal units.
pub const RAW_LIMIT: i64 = 1_000_000_000_000_000_000;

/// The fixed damping of both filter stages, about 0.771 of a signal unit:
/// a critically damped response.
pub const DAMPING_MICRO: i64 = 771_000;

/// Division that rounds toward zero, the rounding of every fixed-point
/// product in the pipeline; meaningful for positive `d`.
pub open spec fn tdiv(n: int, d: int) -> int {
    if n >= 0 {
        n / d
    } else {
        -((-n) / d)
    }
}

/// Division rounded to the nearest integer, halves away from zero;
/// meaningful for positive even `d`.
pub open spec fn rdiv(n: int, d: int) -> int {
    if n >= 0 {
        (n + d / 2) / d
    } else {
        -((-n + d / 2) / d)
    }
}

/// `tdiv` stays within any multiple of the divisor that bounds the numerator.
pub proof fn lemma_tdiv_bound(n: int, d: int, b: int)
    requires
        0 < d,
        0 <= b,
        -(b * d) <= n <= b * d,
    ensures
        -b <= tdiv(n, d) <= b,
{
    if n >= 0 {
        lemma_div_pos_is_pos(n, d);
        lemma_div_is_ordered(n, b * d, d);
        lemma_div_multiples_vanish(b, d);
        assert(b * d == d * b) by (nonlinear_arith);
    } else {
        lemma_div_pos_is_pos(-n, d);
        lemma_div_is_ordered(-n, b * d, d);
        lemma_div_multiples_vanish(b, d);
        assert(b * d == d * b) by (nonlinear_arith);
    }
}

/// `tdiv` of an exact multiple recovers the factor.
pub proof fn lemma_tdiv_exact(k: int, d: int)
    requires
        0 < d,
    ensures
        tdiv(k * d, d) == k,
{
    lemma_div_multiples_vanish(k, d);
    lemma_div_multiples_vanish(-k, d);
    assert(k * d == d * k && -(k * d) == d * (-k)) by (nonlinear_arith);
}

/// Truncating division on wide intermediates.
pub fn tdiv128(n: i128, d: i128) -> (r: i128)
    requires
        0 < d,
        i128::MIN < n,
    ensures
        r == tdiv(n as int, d as int),
{
    if n >= 0 {
        n / d
    } else {
        -((-n) / d)
    }
}

/// Truncating division on machine words.
pub fn tdiv64(n: i64, d: i64) -> (r: i64)
    requires
        0 < d,
        i64::MIN < n,
    ensures
        r == tdiv(n as int, d as int),
{
    if n >= 0 {
        n / d
    } else {
        -((-n) / d)
    }
}

/// The quantizer's value: a [-1, 1] signal mapped onto the integer range
/// 0..1000, rounded to the nearest integer with halves away from zero.
/// Values outside [-1, 1] map outside 0..1000: no clamping anywhere.
pub open spec fn quant_spec(x: int) -> int {
    rdiv((x + SCALE) * 500, SCALE as int)
}

/// Quantize one pipeline value.
pub fn quantize(x: i64) -> (r: i64)
    requires
        -MAG_LIMIT <= x <= MAG_LIMIT,
    ensures
        r as int == quant_spec(x as int),
{
    let num: i64 = (x + SCALE) * 500;
    if num >= 0 {
        (num + SCALE / 2) / SCALE
    } else {
        -((-num + SCALE / 2) / SCALE)
    }
}

} // verus!
