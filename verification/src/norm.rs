//! The squared norm by which witnesses are bounded.
use vstd::prelude::*;

use crate::poly::{rqs, PolyRing};
use crate::rq::{Rq, DEGREE};
use crate::sums::{lemma_sum_same, lemma_sum_shift, lemma_sum_split, sum};
use crate::zq::{lemma_modq_small, modq, q, Zq, MODULUS};

verus! {

/// The largest size of a coefficient, `q / 2`.
pub const HALF_MODULUS: u64 = 0x1dc4_0000_7b80_0000;

/// The size of a coefficient: the absolute value of its representative that is closest to zero.
pub open spec fn magnitude(v: int) -> int {
    if v <= q() - v {
        v
    } else {
        q() - v
    }
}

/// The square of a coefficient's size.
pub open spec fn magnitude_sq(v: int) -> int {
    magnitude(v) * magnitude(v)
}

/// The squared L2 norm of an element: the sum of the squared sizes of its coefficients.
pub open spec fn poly_norm_sq(p: Rq) -> int {
    sum(|k: int| magnitude_sq(p[k]), 0, 64)
}

/// The squared L2 norm of a vector: the sum of the squared norms of its elements.
pub open spec fn vec_norm_sq(z: Seq<Rq>) -> int {
    sum(|i: int| poly_norm_sq(z[i]), 0, z.len() as int)
}

proof fn lemma_sum_nonnegative(f: spec_fn(int) -> int, lo: int, hi: int)
    requires
        forall|i: int| lo <= i < hi ==> #[trigger] f(i) >= 0,
    ensures
        sum(f, lo, hi) >= 0,
    decreases hi - lo,
{
    if lo < hi {
        lemma_sum_nonnegative(f, lo, hi - 1);
    }
}

proof fn lemma_poly_norm_nonnegative(p: Rq)
    ensures
        poly_norm_sq(p) >= 0,
{
    assert forall|k: int| 0 <= k < 64 implies #[trigger] magnitude_sq(p[k]) >= 0 by {
        let m = magnitude(p[k]);
        assert(m * m >= 0) by (nonlinear_arith);
    }
    lemma_sum_nonnegative(|k: int| magnitude_sq(p[k]), 0, 64);
}

/// The size of the residue of an integer that is closer to zero than to any other multiple of `q`
/// is its absolute value, and an element and its negative have the same size.
pub proof fn magnitude_is_absolute_value(d: int)
    requires
        -q() < 2 * d < q(),
    ensures
        magnitude(modq(d)) == (if d >= 0 {
            d
        } else {
            -d
        }),
        magnitude(modq(-d)) == magnitude(modq(d)),
        magnitude_sq(modq(d)) == d * d,
{
    vstd::arithmetic::div_mod::lemma_mod_add_multiples_vanish(d, q());
    vstd::arithmetic::div_mod::lemma_mod_add_multiples_vanish(-d, q());
    if d > 0 {
        lemma_modq_small(d);
        lemma_modq_small(q() - d);
    } else if d < 0 {
        lemma_modq_small(-d);
        lemma_modq_small(q() + d);
        assert((-d) * (-d) == d * d) by (nonlinear_arith);
    } else {
        lemma_modq_small(0);
    }
}

/// The size of a coefficient.
pub fn coefficient_magnitude(c: Zq) -> (r: u64)
    ensures
        r == magnitude(c@),
        r <= HALF_MODULUS,
{
    let v: u64 = c.value();
    let neg: u64 = MODULUS - v;
    if v <= neg {
        v
    } else {
        neg
    }
}

/// The squared norm of one element.
fn single_norm_sq(p: &PolyRing) -> (r: u128)
    ensures
        r == poly_norm_sq(p@),
{
    let ghost f = |k: int| magnitude_sq(p@[k]);
    let mut total: u128 = 0;
    for k in 0..DEGREE
        invariant
            f == (|k: int| magnitude_sq(p@[k])),
            total == sum(f, 0, k as int),
            total <= k * (HALF_MODULUS * HALF_MODULUS),
    {
        let m: u128 = coefficient_magnitude(p.coefficient(k)) as u128;
        proof {
            assert(m * m == magnitude_sq(p@[k as int]));
            assert(0 <= m * m <= HALF_MODULUS * HALF_MODULUS) by (nonlinear_arith)
                requires
                    0 <= m <= HALF_MODULUS,
            ;
            assert(k * (HALF_MODULUS * HALF_MODULUS) + HALF_MODULUS * HALF_MODULUS == (k + 1) * (
            HALF_MODULUS * HALF_MODULUS)) by (nonlinear_arith);
            assert((k + 1) * (HALF_MODULUS * HALF_MODULUS) <= u128::MAX) by (nonlinear_arith)
                requires
                    k < 64,
            ;
        }
        let sq: u128 = m * m;
        total = total + sq;
    }
    total
}

/// The squared norm of a vector; `None` if it does not fit in 128 bits.
pub fn poly_vec_norm_sq(z: &[PolyRing]) -> (r: Option<u128>)
    ensures
        r is Some == (vec_norm_sq(rqs(z@)) <= u128::MAX),
        r matches Some(n) ==> n == vec_norm_sq(rqs(z@)),
{
    let ghost f = |i: int| poly_norm_sq(rqs(z@)[i]);
    let mut total: u128 = 0;
    for i in 0..z.len()
        invariant
            f == (|i: int| poly_norm_sq(rqs(z@)[i])),
            total == sum(f, 0, i as int),
    {
        let n = single_norm_sq(&z[i]);
        match total.checked_add(n) {
            Some(t) => {
                total = t;
            },
            None => {
                proof {
                    assert forall|j: int| i + 1 <= j < z@.len() implies #[trigger] f(j) >= 0 by {
                        lemma_poly_norm_nonnegative(rqs(z@)[j]);
                    }
                    lemma_sum_split(f, 0, i + 1, z@.len() as int);
                    lemma_sum_nonnegative(f, i + 1, z@.len() as int);
                }
                return None;
            },
        }
    }
    Some(total)
}

/// Whether the squared norm of a vector is at most `bound`.
pub fn within_norm(z: &[PolyRing], bound: u128) -> (r: bool)
    ensures
        r == (vec_norm_sq(rqs(z@)) <= bound),
        r ==> forall|i: int, k: int|
            0 <= i < z@.len() && 0 <= k < 64 ==> magnitude_sq(#[trigger] z@[i]@[k]) <= bound,
{
    proof {
        assert forall|i: int, k: int| 0 <= i < z@.len() && 0 <= k < 64 implies magnitude_sq(
            #[trigger] z@[i]@[k],
        ) <= vec_norm_sq(rqs(z@)) by {
            lemma_coefficient_counts(rqs(z@), i, k);
        }
    }
    match poly_vec_norm_sq(z) {
        Some(n) => n <= bound,
        None => false,
    }
}

/// The norm of a vector of one element is the sum of the squares of its coefficients, each taken
/// by its representative closest to zero.
pub proof fn norm_of_one(e: Rq)
    ensures
        vec_norm_sq(seq![e]) == sum(
            |k: int|
                if 2 * e[k] <= q() {
                    e[k] * e[k]
                } else {
                    (e[k] - q()) * (e[k] - q())
                },
            0,
            64,
        ),
{
    let z = seq![e];
    let f = |i: int| poly_norm_sq(z[i]);
    assert(sum(f, 0, 1) == sum(f, 0, 0) + f(0));
    let g = |k: int|
        if 2 * e[k] <= q() {
            e[k] * e[k]
        } else {
            (e[k] - q()) * (e[k] - q())
        };
    let h = |k: int| magnitude_sq(e[k]);
    assert forall|k: int| 0 <= k < 64 implies #[trigger] h(k) == g(k) by {
        let d = q() - e[k];
        assert((-d) * (-d) == d * d) by (nonlinear_arith);
    }
    lemma_sum_same(h, g, 0, 64);
}

/// The norm is additive: every element of a vector counts, whatever stands before or after it.
pub proof fn norm_is_additive(a: Seq<Rq>, b: Seq<Rq>)
    ensures
        vec_norm_sq(a + b) == vec_norm_sq(a) + vec_norm_sq(b),
{
    let (n, m) = (a.len() as int, b.len() as int);
    let f = |i: int| poly_norm_sq((a + b)[i]);
    lemma_sum_split(f, 0, n, n + m);
    lemma_sum_same(f, |i: int| poly_norm_sq(a[i]), 0, n);
    lemma_sum_shift(f, n, 0, m);
    lemma_sum_same(|i: int| f(i + n), |i: int| poly_norm_sq(b[i]), 0, m);
}

/// The norm of a vector is at least that of any of its elements, so no coefficient of a vector
/// within a bound has a larger square than the bound.
pub proof fn norm_bounds_every_coefficient(z: Seq<Rq>, i: int, k: int)
    requires
        0 <= i < z.len(),
        0 <= k < 64,
    ensures
        vec_norm_sq(seq![z[i]]) <= vec_norm_sq(z),
        z[i][k] * z[i][k] <= vec_norm_sq(z) || (q() - z[i][k]) * (q() - z[i][k]) <= vec_norm_sq(z),
{
    lemma_coefficient_counts(z, i, k);
}

/// The square of a coefficient's size is at most the norm of its element, which is at most that of
/// the vector.
pub proof fn lemma_coefficient_counts(z: Seq<Rq>, i: int, k: int)
    requires
        0 <= i < z.len(),
        0 <= k < 64,
    ensures
        vec_norm_sq(seq![z[i]]) <= vec_norm_sq(z),
        magnitude_sq(z[i][k]) <= vec_norm_sq(z),
{
    let e = z[i];
    let (a, b, c) = (z.take(i), seq![e], z.skip(i + 1));
    assert(z =~= a + b + c);
    norm_is_additive(a + b, c);
    norm_is_additive(a, b);
    lemma_vec_norm_nonnegative(a);
    lemma_vec_norm_nonnegative(c);
    let f = |l: int| magnitude_sq(e[l]);
    assert forall|l: int| 0 <= l < 64 implies #[trigger] f(l) >= 0 by {
        let m = magnitude(e[l]);
        assert(m * m >= 0) by (nonlinear_arith);
    }
    lemma_sum_split(f, 0, k, 64);
    lemma_sum_split(f, k, k + 1, 64);
    lemma_sum_nonnegative(f, 0, k);
    lemma_sum_nonnegative(f, k + 1, 64);
    assert(sum(f, k, k + 1) == sum(f, k, k) + f(k));
    let g = |j: int| poly_norm_sq(b[j]);
    assert(sum(g, 0, 1) == sum(g, 0, 0) + g(0));
    assert(poly_norm_sq(e) == sum(f, 0, 64));
}

proof fn lemma_vec_norm_nonnegative(z: Seq<Rq>)
    ensures
        vec_norm_sq(z) >= 0,
{
    let f = |i: int| poly_norm_sq(z[i]);
    assert forall|i: int| 0 <= i < z.len() implies #[trigger] f(i) >= 0 by {
        lemma_poly_norm_nonnegative(z[i]);
    }
    lemma_sum_nonnegative(f, 0, z.len() as int);
}

} // verus!
