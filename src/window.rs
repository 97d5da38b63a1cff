use vstd::prelude::*;

verus! {

/// Number of one-second slots in a key's sliding window.
pub const WINDOW_LEN: usize = 60;

/// Sum of the values, accumulated left to right in 64-bit arithmetic
/// that wraps on overflow.
pub open spec fn wrapping_sum(s: Seq<u64>) -> u64
    decreases s.len(),
{
    if s.len() == 0 {
        0
    } else {
        wrapping_sum(s.drop_last()).wrapping_add(s.last())
    }
}

/// Exact mathematical sum of the values.
pub open spec fn exact_sum(s: Seq<u64>) -> int
    decreases s.len(),
{
    if s.len() == 0 {
        0
    } else {
        exact_sum(s.drop_last()) + s.last()
    }
}

/// When the exact sum fits in 64 bits, the wrapping sum is the exact sum.
pub proof fn lemma_wrapping_sum_exact(s: Seq<u64>)
    requires
        exact_sum(s) <= u64::MAX,
    ensures
        wrapping_sum(s) == exact_sum(s),
    decreases s.len(),
{
    if s.len() > 0 {
        lemma_exact_sum_nonneg(s.drop_last());
        lemma_wrapping_sum_exact(s.drop_last());
    }
}

pub proof fn lemma_exact_sum_nonneg(s: Seq<u64>)
    ensures
        exact_sum(s) >= 0,
    decreases s.len(),
{
    if s.len() > 0 {
        lemma_exact_sum_nonneg(s.drop_last());
    }
}

/// A window holding the same value in every slot sums to that value times
/// the number of slots.
pub proof fn lemma_exact_sum_constant(s: Seq<u64>, r: u64)
    requires
        forall|i: int| 0 <= i < s.len() ==> s[i] == r,
    ensures
        exact_sum(s) == s.len() * r,
    decreases s.len(),
{
    if s.len() > 0 {
        lemma_exact_sum_constant(s.drop_last(), r);
        assert(exact_sum(s) == (s.len() - 1) * r + r);
        assert((s.len() - 1) * r + r == s.len() * r) by (nonlinear_arith);
    }
}

/// A fresh window: every slot zero.
pub fn zero_window() -> (w: Vec<u64>)
    ensures
        w@ == Seq::new(WINDOW_LEN as nat, |_i: int| 0u64),
{
    let mut w: Vec<u64> = Vec::new();
    let mut i: usize = 0;
    while i < WINDOW_LEN
        invariant
            i <= WINDOW_LEN,
            w@ == Seq::new(i as nat, |_j: int| 0u64),
        decreases WINDOW_LEN - i,
    {
        w.push(0);
        i = i + 1;
    }
    w
}

/// A copy of `w` in which slot `slot` holds `value`.
pub fn window_with(w: &Vec<u64>, slot: usize, value: u64) -> (r: Vec<u64>)
    requires
        slot < w@.len(),
    ensures
        r@ == w@.update(slot as int, value),
{
    let mut r: Vec<u64> = Vec::new();
    let mut i: usize = 0;
    while i < w.len()
        invariant
            i <= w@.len(),
            slot < w@.len(),
            r@ == w@.update(slot as int, value).subrange(0, i as int),
        decreases w@.len() - i,
    {
        if i == slot {
            r.push(value);
        } else {
            r.push(w[i]);
        }
        i = i + 1;
    }
    assert(r@ == w@.update(slot as int, value));
    r
}

/// Wrapping sum of all slots of a window.
pub fn sum_window(w: &Vec<u64>) -> (r: u64)
    ensures
        r == wrapping_sum(w@),
{
    let mut total: u64 = 0;
    let mut i: usize = 0;
    while i < w.len()
        invariant
            i <= w@.len(),
            total == wrapping_sum(w@.subrange(0, i as int)),
        decreases w@.len() - i,
    {
        assert(w@.subrange(0, i as int + 1).drop_last() == w@.subrange(0, i as int));
        total = total.wrapping_add(w[i]);
        i = i + 1;
    }
    assert(w@.subrange(0, w@.len() as int) == w@);
    total
}

} // verus!
