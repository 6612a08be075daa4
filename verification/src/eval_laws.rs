//! Laws of evaluation: powers, values of polynomials, and the weights of their parts.
use vstd::arithmetic::power::{lemma_pow0, lemma_pow1, lemma_pow_adds, pow};
use vstd::prelude::*;

use crate::commit::chunk;
use crate::eval::{
    column_weights, conjugate, entry_weights, lemma_pow_add, lemma_rq_sum_coefficient, poly_value,
    sigma, weighted_chunks,
};
use crate::linalg::lemma_flat_index;
use crate::params::GreyhoundTranscriptParams;
use crate::rq::{rq_const, rq_scale, Rq};
use crate::sums::{
    lemma_sum_congruent, lemma_sum_same, lemma_sum_scale, lemma_sum_shift, lemma_sum_split, sum,
};
use crate::zq::{
    lemma_modq_add, lemma_modq_mul, lemma_modq_range, lemma_modq_small, modq, q, zq_pow,
};

verus! {

/// Powers modulo `q` are the residues of powers.
pub proof fn power_is_reduced_power(x: int, e: nat)
    ensures
        zq_pow(x, e) == pow(x, e) % q(),
    decreases e,
{
    if e == 0 {
        lemma_pow0(x);
        lemma_modq_small(1);
    } else {
        let d = (e - 1) as nat;
        power_is_reduced_power(x, d);
        lemma_pow_adds(x, d, 1);
        lemma_pow1(x);
        lemma_modq_mul(pow(x, d), x);
    }
}

/// The value of joined lists of coefficients is that of the first plus that of the second, raised
/// by as many powers of `x` as the first is long. A single coefficient is its own value.
pub proof fn values_of_joined_coefficients(a: Seq<u32>, b: Seq<u32>, x: int, c: u32)
    ensures
        poly_value(a + b, x) == (poly_value(a, x) + zq_pow(x, a.len()) * poly_value(b, x)) % q(),
        poly_value(seq![c], x) == c,
        poly_value(Seq::<u32>::empty(), x) == 0,
{
    let (n, m) = (a.len() as int, b.len() as int);
    let ab = a + b;
    let f = |l: int| ab[l] * zq_pow(x, l as nat);
    let fa = |l: int| a[l] * zq_pow(x, l as nat);
    let fb = |l: int| b[l] * zq_pow(x, l as nat);
    let p = zq_pow(x, a.len());
    lemma_sum_split(f, 0, n, n + m);
    lemma_sum_same(f, fa, 0, n);
    lemma_sum_shift(f, n, 0, m);
    let moved = |l: int| f(l + n);
    let scaled = |l: int| p * fb(l);
    assert forall|l: int| 0 <= l < m implies modq(#[trigger] moved(l)) == modq(scaled(l)) by {
        assert(ab[l + n] == b[l]);
        let (c, pl) = (b[l] as int, zq_pow(x, l as nat));
        lemma_pow_add(x, a.len(), l as nat);
        assert((l + n) as nat == a.len() + l as nat);
        lemma_modq_mul(c, p * pl);
        assert(c * (p * pl) == p * (c * pl)) by (nonlinear_arith);
    }
    lemma_sum_congruent(moved, scaled, 0, m);
    lemma_sum_scale(p, fb, 0, m);
    let (sa, sb) = (sum(fa, 0, n), sum(fb, 0, m));
    let rest = sum(f, n, n + m);
    assert(modq(rest) == modq(p * sb));
    lemma_modq_add(sa, rest);
    lemma_modq_mul(p, sb);
    lemma_modq_add(sa, p * sb);
    lemma_modq_add(modq(sa), p * modq(sb));
    assert(poly_value(ab, x) == modq(sa + rest));
    assert(modq(modq(sa) + modq(p * modq(sb))) == modq(modq(sa) + p * modq(sb)));
    let one = |l: int| seq![c][l] * zq_pow(x, l as nat);
    assert(sum(one, 0, 1) == sum(one, 0, 0) + one(0));
    assert(c * 1 == c);
    lemma_modq_small(c as int);
    lemma_modq_small(0);
}

/// Coefficient `k` of the weighted chunks collects the coefficients at the places `64 i + k`,
/// each with the weight of its chunk.
pub proof fn coefficients_of_weighted_chunks(raw: Seq<u32>, x: int, n: int, k: int)
    requires
        0 <= n,
        64 * n <= raw.len(),
        0 <= k < 64,
    ensures
        weighted_chunks(raw, x, n)[k] == sum(
            |i: int| raw[64 * i + k] * zq_pow(x, (64 * i) as nat),
            0,
            n,
        ) % q(),
{
    let term = |i: int| rq_scale(chunk(raw, i), zq_pow(x, (64 * i) as nat));
    lemma_rq_sum_coefficient(term, n, k);
    let (f, g) = (
        |i: int| term(i)[k],
        |i: int| raw[64 * i + k] * zq_pow(x, (64 * i) as nat),
    );
    assert forall|i: int| 0 <= i < n implies modq(#[trigger] f(i)) == modq(g(i)) by {
        assert(chunk(raw, i)[k] == raw[64 * i + k]);
        lemma_modq_range(g(i));
    }
    lemma_sum_congruent(f, g, 0, n);
}

/// The weight of digit `k` of entry `j` is the constant `x^(64 j) base^k`, and that of column `i`
/// is the constant `x^(64 m i)`.
pub proof fn weights_at_their_places(p: GreyhoundTranscriptParams, x: int, j: int, k: int, i: int)
    requires
        0 <= j < p.m,
        0 <= k < p.delta0,
        0 <= i < p.r,
    ensures
        entry_weights(p, x).len() == p.m * p.delta0,
        entry_weights(p, x)[k * p.m + j] == rq_const(
            zq_pow(x, (64 * j) as nat) * zq_pow(
                vstd::arithmetic::power2::pow2(p.b0 as nat) as int,
                k as nat,
            ),
        ),
        column_weights(p, x).len() == p.r,
        column_weights(p, x)[i] == rq_const(zq_pow(x, (64 * (p.m * i)) as nat)),
{
    lemma_flat_index(k, j, p.delta0 as int, p.m as int);
    assert(p.delta0 * p.m == p.m * p.delta0) by (nonlinear_arith);
}

/// `sigma(x)` holds the powers of `x` backwards: its constant term is one, and the coefficient of
/// `X^j` is minus the power number `64 - j`.
pub proof fn coefficients_of_sigma(x: int, j: int)
    requires
        0 < j < 64,
    ensures
        sigma(x).len() == 64,
        sigma(x)[0] == 1,
        sigma(x)[j] == (-zq_pow(x, (64 - j) as nat)) % q(),
{
}

/// Conjugating twice gives the element back.
pub proof fn conjugating_twice(a: Rq)
    requires
        crate::rq::is_rq(a),
    ensures
        conjugate(conjugate(a)) == a,
{
    let b = conjugate(a);
    assert forall|j: int| 0 <= j < 64 implies #[trigger] conjugate(b)[j] == a[j] by {
        if j > 0 {
            let v = a[j];
            assert(b[64 - j] == modq(-v));
            lemma_modq_add(0, -v);
            assert(modq(0 - modq(-v)) == modq(0 - (-v)));
            lemma_modq_small(v);
        }
    }
    assert(conjugate(b) =~= a);
}

} // verus!
