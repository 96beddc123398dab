use vstd::prelude::*;
use vstd::arithmetic::div_mod::lemma_add_mod_noop;
use vstd::arithmetic::div_mod::lemma_mod_division_less_than_divisor;
use vstd::arithmetic::div_mod::lemma_mod_twice;
use vstd::arithmetic::mul::lemma_mul_is_distributive_add_other_way;

verus! {

/// Where the playback cursor stands after one tick: it moves by one plus
/// the decimation count and wraps at the end of the buffer.
pub open spec fn advance_index(i: int, skip: int, len: int) -> int {
    (i + 1 + skip) % len
}

/// Where the cursor stands after `t` ticks from the start of the buffer.
pub open spec fn index_after_ticks(t: nat, skip: int, len: int) -> int
    decreases t,
{
    if t == 0 {
        0
    } else {
        advance_index(index_after_ticks((t - 1) as nat, skip, len), skip, len)
    }
}

/// Over `t` ticks from index 0 with decimation count `skip`, the cursor
/// visits exactly the indices `(t * (1 + skip)) % len`: skipped samples are
/// never touched, and playback wraps around the buffer.
pub proof fn lemma_visited_indices(t: nat, skip: int, len: int)
    requires
        len >= 1,
        skip >= 0,
    ensures
        index_after_ticks(t, skip, len) == (t * (1 + skip)) % len,
    decreases t,
{
    if t == 0 {
        assert(0 * (1 + skip) == 0);
        lemma_mod_division_less_than_divisor(0, len);
        assert((0int) % len == 0);
    } else {
        let p = ((t - 1) as nat) * (1 + skip);
        lemma_visited_indices((t - 1) as nat, skip, len);
        lemma_mod_twice(p, len);
        lemma_add_mod_noop(p % len, 1 + skip, len);
        lemma_add_mod_noop(p, 1 + skip, len);
        assert((p % len + (1 + skip)) % len == (p + (1 + skip)) % len) by {
            assert((p % len % len + (1 + skip) % len) % len == (p % len + (1 + skip)) % len);
            assert((p % len + (1 + skip) % len) % len == (p + (1 + skip)) % len);
        }
        lemma_mul_is_distributive_add_other_way(1 + skip, (t - 1) as int, 1);
        assert(t * (1 + skip) == p + (1 + skip)) by (nonlinear_arith)
            requires p == ((t - 1) as nat) * (1 + skip), t >= 1;
    }
}

/// Advance the cursor one tick.
pub fn advance(idx: usize, skip: usize, len: usize) -> (r: usize)
    requires
        0 < len,
        idx < len,
    ensures
        r as int == advance_index(idx as int, skip as int, len as int),
        r < len,
{
    let next: u128 = (idx as u128 + 1 + skip as u128) % (len as u128);
    proof {
        lemma_mod_division_less_than_divisor((idx as u128 + 1 + skip as u128) as int, len as int);
    }
    next as usize
}

} // verus!
