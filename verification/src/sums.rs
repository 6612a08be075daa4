//! Finite sums of integers, and their residues modulo `q`.
use vstd::prelude::*;

use crate::zq::{lemma_modq_add, modq};

verus! {

/// `f(lo) + f(lo + 1) + ... + f(hi - 1)`.
pub open spec fn sum(f: spec_fn(int) -> int, lo: int, hi: int) -> int
    decreases hi - lo,
{
    if hi <= lo {
        0
    } else {
        sum(f, lo, hi - 1) + f(hi - 1)
    }
}

/// Sums of pointwise equal terms are equal.
pub proof fn lemma_sum_same(f: spec_fn(int) -> int, g: spec_fn(int) -> int, lo: int, hi: int)
    requires
        forall|i: int| lo <= i < hi ==> #[trigger] f(i) == g(i),
    ensures
        sum(f, lo, hi) == sum(g, lo, hi),
    decreases hi - lo,
{
    if hi > lo {
        lemma_sum_same(f, g, lo, hi - 1);
    }
}

/// Sums of pointwise congruent terms are congruent.
pub proof fn lemma_sum_congruent(f: spec_fn(int) -> int, g: spec_fn(int) -> int, lo: int, hi: int)
    requires
        forall|i: int| lo <= i < hi ==> modq(#[trigger] f(i)) == modq(g(i)),
    ensures
        modq(sum(f, lo, hi)) == modq(sum(g, lo, hi)),
    decreases hi - lo,
{
    if hi > lo {
        lemma_sum_congruent(f, g, lo, hi - 1);
        lemma_modq_add(sum(f, lo, hi - 1), f(hi - 1));
        lemma_modq_add(sum(g, lo, hi - 1), g(hi - 1));
    }
}

/// A sum of sums of two terms splits.
pub proof fn lemma_sum_plus(f: spec_fn(int) -> int, g: spec_fn(int) -> int, lo: int, hi: int)
    ensures
        sum(|i: int| f(i) + g(i), lo, hi) == sum(f, lo, hi) + sum(g, lo, hi),
    decreases hi - lo,
{
    if hi > lo {
        lemma_sum_plus(f, g, lo, hi - 1);
    }
}

/// A common factor moves out of a sum.
pub proof fn lemma_sum_scale(c: int, f: spec_fn(int) -> int, lo: int, hi: int)
    ensures
        sum(|i: int| c * f(i), lo, hi) == c * sum(f, lo, hi),
    decreases hi - lo,
{
    if hi > lo {
        lemma_sum_scale(c, f, lo, hi - 1);
        assert(c * (sum(f, lo, hi - 1) + f(hi - 1)) == c * sum(f, lo, hi - 1) + c * f(hi - 1))
            by (nonlinear_arith);
    } else {
        assert(c * 0 == 0);
    }
}

/// The first term of a sum can be taken out.
pub proof fn lemma_sum_first(f: spec_fn(int) -> int, lo: int, hi: int)
    requires
        lo < hi,
    ensures
        sum(f, lo, hi) == f(lo) + sum(f, lo + 1, hi),
    decreases hi - lo,
{
    if hi > lo + 1 {
        lemma_sum_first(f, lo, hi - 1);
    } else {
        assert(sum(f, lo, lo) == 0);
        assert(sum(f, lo + 1, lo + 1) == 0);
    }
}

/// A range of summation splits at any point inside it.
pub proof fn lemma_sum_split(f: spec_fn(int) -> int, lo: int, mid: int, hi: int)
    requires
        lo <= mid <= hi,
    ensures
        sum(f, lo, hi) == sum(f, lo, mid) + sum(f, mid, hi),
    decreases hi - mid,
{
    if hi > mid {
        lemma_sum_split(f, lo, mid, hi - 1);
    }
}

/// Shifting the range of summation.
pub proof fn lemma_sum_shift(f: spec_fn(int) -> int, s: int, lo: int, hi: int)
    ensures
        sum(|i: int| f(i + s), lo, hi) == sum(f, lo + s, hi + s),
    decreases hi - lo,
{
    if hi > lo {
        lemma_sum_shift(f, s, lo, hi - 1);
    }
}

/// Summing in the opposite order.
pub proof fn lemma_sum_reverse(f: spec_fn(int) -> int, lo: int, hi: int)
    ensures
        sum(|i: int| f(lo + hi - 1 - i), lo, hi) == sum(f, lo, hi),
    decreases hi - lo,
{
    if hi > lo {
        let g = |i: int| f(lo + hi - 1 - i);
        // g(lo) is the last term of f, and the rest of g reverses the rest of f.
        lemma_sum_first(g, lo, hi);
        lemma_sum_reverse(f, lo, hi - 1);
        let h = |i: int| f(lo + (hi - 1) - 1 - i);
        lemma_sum_shift(g, 1, lo, hi - 1);
        lemma_sum_same(h, |i: int| g(i + 1), lo, hi - 1);
    }
}

/// The order of two summations can be exchanged.
pub proof fn lemma_sum_swap(f: spec_fn(int, int) -> int, n: int, m: int)
    ensures
        sum(|i: int| sum(|j: int| f(i, j), 0, m), 0, n) == sum(
            |j: int| sum(|i: int| f(i, j), 0, n),
            0,
            m,
        ),
    decreases n,
{
    let cols = |k: int| (|j: int| sum(|i: int| f(i, j), 0, k));
    if n > 0 {
        lemma_sum_swap(f, n - 1, m);
        let row = |j: int| f(n - 1, j);
        lemma_sum_plus(cols(n - 1), row, 0, m);
        lemma_sum_same(|j: int| cols(n - 1)(j) + row(j), |j: int| sum(|i: int| f(i, j), 0, n), 0, m);
        lemma_sum_same(cols(n - 1), |j: int| sum(|i: int| f(i, j), 0, n - 1), 0, m);
    } else {
        lemma_sum_zero(|j: int| sum(|i: int| f(i, j), 0, n), 0, m);
    }
}

/// A sum of zeros is zero.
pub proof fn lemma_sum_zero(f: spec_fn(int) -> int, lo: int, hi: int)
    requires
        forall|i: int| lo <= i < hi ==> #[trigger] f(i) == 0,
    ensures
        sum(f, lo, hi) == 0,
    decreases hi - lo,
{
    if hi > lo {
        lemma_sum_zero(f, lo, hi - 1);
    }
}

/// The sum of a function of period 64 over 64 consecutive places does not depend on where
/// they start.
pub proof fn lemma_sum_window(f: spec_fn(int) -> int, lo: int)
    requires
        forall|i: int| #[trigger] f(i + 64) == f(i),
    ensures
        sum(f, lo, lo + 64) == sum(f, 0, 64),
    decreases (if lo >= 0 { lo } else { -lo }),
{
    if lo > 0 {
        lemma_sum_window(f, lo - 1);
        lemma_sum_first(f, lo - 1, lo + 63);
        assert(f(lo - 1 + 64) == f(lo - 1));
        assert(sum(f, lo, lo + 64) == sum(f, lo, lo + 63) + f(lo + 63));
    } else if lo < 0 {
        lemma_sum_window(f, lo + 1);
        lemma_sum_first(f, lo, lo + 64);
        assert(f(lo + 64) == f(lo));
        assert(sum(f, lo + 1, lo + 65) == sum(f, lo + 1, lo + 64) + f(lo + 64));
    }
}

} // verus!
