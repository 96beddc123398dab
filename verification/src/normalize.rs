use vstd::prelude::*;
use crate::errors::SignalError;
use crate::fixed::RAW_LIMIT;
use crate::fixed::SCALE;
use crate::fixed::tdiv;
use crate::fixed::tdiv128;
use crate::fixed::lemma_tdiv_exact;
use vstd::arithmetic::div_mod::lemma_div_by_self;
use vstd::arithmetic::div_mod::lemma_div_is_ordered;
use vstd::arithmetic::div_mod::lemma_div_multiples_vanish;
use vstd::arithmetic::div_mod::lemma_div_of0;
use vstd::arithmetic::div_mod::lemma_div_pos_is_pos;
use vstd::arithmetic::div_mod::lemma_fundamental_div_mod;
use vstd::arithmetic::div_mod::lemma_mod_division_less_than_divisor;

verus! {

/// The smallest sample of a non-empty buffer.
pub open spec fn seq_min(s: Seq<i64>) -> int
    decreases s.len(),
{
    if s.len() <= 1 {
        if s.len() == 0 {
            0
        } else {
            s[0] as int
        }
    } else {
        let m = seq_min(s.drop_last());
        if s.last() < m {
            s.last() as int
        } else {
            m
        }
    }
}

/// The largest sample of a non-empty buffer.
pub open spec fn seq_max(s: Seq<i64>) -> int
    decreases s.len(),
{
    if s.len() <= 1 {
        if s.len() == 0 {
            0
        } else {
            s[0] as int
        }
    } else {
        let m = seq_max(s.drop_last());
        if s.last() > m {
            s.last() as int
        } else {
            m
        }
    }
}

/// The affine rescale of the loader: a raw sample `x` with the buffer's
/// extremes `mn < mx` is carried to `(x - mn) * 2 / (mx - mn) - 1` in signal
/// units, the quotient rounded toward zero.
pub open spec fn norm_spec(x: int, mn: int, mx: int) -> int {
    tdiv((x - mn) * (2 * (SCALE as int)), mx - mn) - SCALE
}

/// The extremes of a non-empty buffer bound every sample and are attained.
pub proof fn lemma_seq_extremes(s: Seq<i64>)
    requires
        s.len() > 0,
    ensures
        forall|i: int| 0 <= i < s.len() ==> seq_min(s) <= #[trigger] s[i] <= seq_max(s),
        exists|i: int| 0 <= i < s.len() && s[i] == seq_min(s),
        exists|i: int| 0 <= i < s.len() && s[i] == seq_max(s),
    decreases s.len(),
{
    if s.len() > 1 {
        lemma_seq_extremes(s.drop_last());
        assert(forall|i: int| 0 <= i < s.len() - 1 ==> s.drop_last()[i] == #[trigger] s[i]);
        let j = choose|i: int| 0 <= i < s.len() - 1 && s.drop_last()[i] == seq_min(s.drop_last());
        let h = choose|i: int| 0 <= i < s.len() - 1 && s.drop_last()[i] == seq_max(s.drop_last());
        if s.last() < seq_min(s.drop_last()) {
            assert(s[s.len() - 1] == seq_min(s));
        } else {
            assert(s[j] == seq_min(s));
        }
        if s.last() > seq_max(s.drop_last()) {
            assert(s[s.len() - 1] == seq_max(s));
        } else {
            assert(s[h] == seq_max(s));
        }
    } else {
        assert(s[0] == seq_min(s));
        assert(s[0] == seq_max(s));
    }
}

/// Within the raw extremes, a normalized sample lies in [-1, 1].
pub proof fn lemma_norm_bounds(x: int, mn: int, mx: int)
    requires
        mn <= x <= mx,
        mn < mx,
    ensures
        -(SCALE as int) <= norm_spec(x, mn, mx) <= SCALE,
{
    let d = mx - mn;
    let s2 = 2 * (SCALE as int);
    let num = (x - mn) * s2;
    assert(0 <= num <= d * s2) by (nonlinear_arith)
        requires
            0 <= x - mn <= d,
            s2 >= 1,
            num == (x - mn) * s2,
    ;
    lemma_div_pos_is_pos(num, d);
    lemma_div_is_ordered(num, d * s2, d);
    lemma_div_multiples_vanish(s2, d);
    assert(d * s2 == s2 * d) by (nonlinear_arith);
}

/// The smallest raw sample is carried exactly to -1.
pub proof fn lemma_norm_min(mn: int, mx: int)
    requires
        mn < mx,
    ensures
        norm_spec(mn, mn, mx) == -(SCALE as int),
{
    lemma_div_of0(mx - mn);
}

/// The largest raw sample is carried exactly to 1.
pub proof fn lemma_norm_max(mn: int, mx: int)
    requires
        mn < mx,
    ensures
        norm_spec(mx, mn, mx) == SCALE,
{
    let d = mx - mn;
    assert((mx - mn) * (2 * (SCALE as int)) == (2 * (SCALE as int)) * d);
    lemma_tdiv_exact(2 * (SCALE as int), d);
    assert((2 * (SCALE as int)) * d == d * (2 * (SCALE as int))) by (nonlinear_arith);
    lemma_div_multiples_vanish(2 * (SCALE as int), d);
}

/// Only the largest raw sample reaches 1: anything below it normalizes
/// strictly lower.
pub proof fn lemma_norm_below_max(x: int, mn: int, mx: int)
    requires
        mn <= x < mx,
    ensures
        norm_spec(x, mn, mx) < SCALE,
{
    let d = mx - mn;
    let s2 = 2 * (SCALE as int);
    let num = (x - mn) * s2;
    let q = num / d;
    assert(0 <= num && num <= (d - 1) * s2) by (nonlinear_arith)
        requires
            0 <= x - mn <= d - 1,
            s2 > 0,
            num == (x - mn) * s2,
    ;
    lemma_fundamental_div_mod(num, d);
    lemma_mod_division_less_than_divisor(num, d);
    lemma_div_pos_is_pos(num, d);
    if q >= s2 {
        assert(d * q >= d * s2) by (nonlinear_arith)
            requires d > 0, q >= s2;
        assert((d - 1) * s2 < d * s2) by (nonlinear_arith)
            requires d > 0, s2 > 0;
    }
}

/// A raw sample far enough above the smallest one normalizes strictly above
/// -1; the margin is forced by the fixed-point rounding.
pub proof fn lemma_norm_above_min(x: int, mn: int, mx: int)
    requires
        mn < x <= mx,
        (x - mn) * (2 * (SCALE as int)) >= mx - mn,
    ensures
        norm_spec(x, mn, mx) > -(SCALE as int),
{
    let d = mx - mn;
    let s2 = 2 * (SCALE as int);
    let num = (x - mn) * s2;
    assert(num >= 0) by (nonlinear_arith)
        requires
            x - mn > 0,
            s2 > 0,
            num == (x - mn) * s2,
    ;
    lemma_div_is_ordered(d, num, d);
    lemma_div_by_self(d);
}

/// Normalizing with the extremes -1 and 1 changes nothing: a second pass of
/// the loader's rescale over its own output is the identity.
pub proof fn lemma_normalize_identity(x: int)
    ensures
        norm_spec(x, -(SCALE as int), SCALE as int) == x,
{
    let d = 2 * (SCALE as int);
    assert((x - (-(SCALE as int))) * (2 * (SCALE as int)) == (x + SCALE) * d);
    lemma_tdiv_exact(x + SCALE, d);
}

/// A normalized buffer lies in [-1, 1]; a sample reaches 1 exactly when it
/// was the raw maximum, so the top extreme is hit exactly as often as the
/// raw maximum is attained; every raw minimum lands on -1; and both
/// extremes are attained.
pub proof fn lemma_normalized_extremes(s: Seq<i64>, w: Seq<i64>)
    requires
        s.len() > 0,
        seq_min(s) < seq_max(s),
        w.len() == s.len(),
        forall|i: int|
            0 <= i < s.len() ==> #[trigger] w[i] as int == norm_spec(
                s[i] as int,
                seq_min(s),
                seq_max(s),
            ),
    ensures
        forall|i: int| 0 <= i < w.len() ==> -SCALE <= #[trigger] w[i] <= SCALE,
        forall|i: int| 0 <= i < w.len() ==> (#[trigger] w[i] == SCALE <==> s[i] == seq_max(s)),
        forall|i: int| 0 <= i < w.len() && s[i] == seq_min(s) ==> #[trigger] w[i] == -SCALE,
        exists|i: int| 0 <= i < w.len() && w[i] == SCALE,
        exists|i: int| 0 <= i < w.len() && #[trigger] w[i] == -SCALE,
{
    lemma_seq_extremes(s);
    let mn = seq_min(s);
    let mx = seq_max(s);
    assert forall|i: int| 0 <= i < w.len() implies -SCALE <= #[trigger] w[i] <= SCALE && (w[i]
        == SCALE <==> s[i] == mx) && (s[i] == mn ==> w[i] == -SCALE) by {
        lemma_norm_bounds(s[i] as int, mn, mx);
        if s[i] as int == mx {
            lemma_norm_max(mn, mx);
        } else {
            lemma_norm_below_max(s[i] as int, mn, mx);
        }
        if s[i] as int == mn {
            lemma_norm_min(mn, mx);
        }
    }
    let jmax = choose|i: int| 0 <= i < s.len() && s[i] == seq_max(s);
    assert(w[jmax] == SCALE);
    let jmin = choose|i: int| 0 <= i < s.len() && s[i] == seq_min(s);
    assert(w[jmin] == -SCALE);
}

/// Normalization is idempotent: a normalized buffer has -1 and 1 as its own
/// extremes, and rescaling it against them leaves every sample unchanged.
pub proof fn lemma_normalize_idempotent(s: Seq<i64>, w: Seq<i64>)
    requires
        s.len() > 0,
        seq_min(s) < seq_max(s),
        w.len() == s.len(),
        forall|i: int|
            0 <= i < s.len() ==> #[trigger] w[i] as int == norm_spec(
                s[i] as int,
                seq_min(s),
                seq_max(s),
            ),
    ensures
        seq_min(w) == -(SCALE as int),
        seq_max(w) == SCALE,
        forall|i: int|
            0 <= i < w.len() ==> norm_spec(#[trigger] w[i] as int, seq_min(w), seq_max(w)) == w[i] as int,
{
    lemma_normalized_extremes(s, w);
    lemma_seq_extremes(w);
    let a = choose|i: int| 0 <= i < w.len() && w[i] == SCALE;
    let b = choose|i: int| 0 <= i < w.len() && #[trigger] w[i] == -SCALE;
    assert(seq_min(w) <= w[b] as int);
    assert(seq_max(w) >= w[a] as int);
    let jn = choose|i: int| 0 <= i < w.len() && w[i] as int == seq_min(w);
    let jx = choose|i: int| 0 <= i < w.len() && w[i] as int == seq_max(w);
    assert(seq_min(w) == -(SCALE as int));
    assert(seq_max(w) == SCALE);
    assert forall|i: int|
        0 <= i < w.len() implies norm_spec(#[trigger] w[i] as int, seq_min(w), seq_max(w)) == w[i] as int by {
        lemma_normalize_identity(w[i] as int);
    }
}

/// Compute the smallest sample.
pub fn min_sample(v: &Vec<i64>) -> (m: i64)
    requires
        v.len() > 0,
    ensures
        m as int == seq_min(v@),
{
    let mut m = v[0];
    let mut i: usize = 1;
    while i < v.len()
        invariant
            1 <= i <= v@.len(),
            m as int == seq_min(v@.take(i as int)),
        decreases v@.len() - i,
    {
        proof {
            assert(v@.take(i + 1).drop_last() =~= v@.take(i as int));
            assert(v@.take(i + 1).last() == v@[i as int]);
        }
        if v[i] < m {
            m = v[i];
        }
        i = i + 1;
    }
    proof {
        assert(v@.take(v@.len() as int) =~= v@);
    }
    m
}

/// Compute the largest sample.
pub fn max_sample(v: &Vec<i64>) -> (m: i64)
    requires
        v.len() > 0,
    ensures
        m as int == seq_max(v@),
{
    let mut m = v[0];
    let mut i: usize = 1;
    while i < v.len()
        invariant
            1 <= i <= v@.len(),
            m as int == seq_max(v@.take(i as int)),
        decreases v@.len() - i,
    {
        proof {
            assert(v@.take(i + 1).drop_last() =~= v@.take(i as int));
            assert(v@.take(i + 1).last() == v@[i as int]);
        }
        if v[i] > m {
            m = v[i];
        }
        i = i + 1;
    }
    proof {
        assert(v@.take(v@.len() as int) =~= v@);
    }
    m
}

/// Rescale a raw buffer so that its extremes land exactly on -1 and 1.
/// An empty buffer and a constant buffer are refused, each with its own
/// error; everything else succeeds.
pub fn normalize_samples(raw: &Vec<i64>) -> (r: Result<Vec<i64>, SignalError>)
    requires
        forall|i: int| 0 <= i < raw@.len() ==> -RAW_LIMIT <= #[trigger] raw@[i] <= RAW_LIMIT,
    ensures
        r is Ok <==> raw@.len() > 0 && seq_min(raw@) < seq_max(raw@),
        raw@.len() == 0 ==> r == Err::<Vec<i64>, SignalError>(SignalError::EmptyInput),
        raw@.len() > 0 && seq_min(raw@) == seq_max(raw@) ==> r == Err::<Vec<i64>, SignalError>(
            SignalError::DegenerateRange,
        ),
        r matches Ok(w) ==> {
            &&& w@.len() == raw@.len()
            &&& forall|i: int|
                0 <= i < raw@.len() ==> #[trigger] w@[i] as int == norm_spec(
                    raw@[i] as int,
                    seq_min(raw@),
                    seq_max(raw@),
                )
            &&& forall|i: int| 0 <= i < w@.len() ==> -SCALE <= #[trigger] w@[i] <= SCALE
        },
{
    if raw.len() == 0 {
        return Err(SignalError::EmptyInput);
    }
    let mn = min_sample(raw);
    let mx = max_sample(raw);
    proof {
        lemma_seq_extremes(raw@);
    }
    if mn == mx {
        return Err(SignalError::DegenerateRange);
    }
    let mut w: Vec<i64> = Vec::new();
    let mut i: usize = 0;
    while i < raw.len()
        invariant
            0 <= i <= raw@.len(),
            mn as int == seq_min(raw@),
            mx as int == seq_max(raw@),
            mn < mx,
            -RAW_LIMIT <= mn <= mx <= RAW_LIMIT,
            forall|j: int| 0 <= j < raw@.len() ==> -RAW_LIMIT <= #[trigger] raw@[j] <= RAW_LIMIT,
            forall|j: int| 0 <= j < raw@.len() ==> mn as int <= #[trigger] raw@[j] as int <= mx as int,
            w@.len() == i,
            forall|j: int|
                0 <= j < i ==> #[trigger] w@[j] as int == norm_spec(
                    raw@[j] as int,
                    mn as int,
                    mx as int,
                ),
            forall|j: int| 0 <= j < i ==> -SCALE <= #[trigger] w@[j] <= SCALE,
        decreases raw@.len() - i,
    {
        let x = raw[i];
        let diff: i128 = x as i128 - mn as i128;
        let num: i128 = diff * 2_000_000;
        let d: i128 = mx as i128 - mn as i128;
        proof {
            lemma_norm_bounds(x as int, mn as int, mx as int);
        }
        let q = tdiv128(num, d);
        let y: i64 = (q - SCALE as i128) as i64;
        w.push(y);
        i = i + 1;
    }
    Ok(w)
}

} // verus!
