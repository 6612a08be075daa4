//! Honest witnesses are short.
use vstd::prelude::*;

use crate::challenge::l1_norm;
use crate::commit::{CommitReturn, PublicParams};
use crate::completeness::{honest_proof_is_accepted, is_commitment};
use crate::error::GreyhoundError;
use crate::eval::{lemma_rq_sum_coefficient, sigma_denominator};
use crate::eval_check::recovered_seed;
use crate::labrador::LabradorCRS;
use crate::linalg::{fold_rows, is_decomposition, lemma_flat_index};
use crate::norm::{magnitude, magnitude_sq, poly_norm_sq, vec_norm_sq};
use crate::params::{norm_bound_sq, GreyhoundTranscriptParams, CHALLENGE_L1};
use crate::poly::rqs;
use crate::prover::{
    full_chunks, is_committed, is_proof, is_start, relation_witness, EvalCommitted, EvalStart,
    ProverProof,
};
use crate::rq::{coeff, conv, is_rq, lemma_modq_neg, rq_mul, Rq};
use crate::sums::{lemma_sum_congruent, lemma_sum_same, lemma_sum_scale, lemma_sum_split, sum};
use crate::tamper::accepted;
use crate::zq::{is_unit, lemma_modq_mul, lemma_modq_range, lemma_modq_small, modq, q};

verus! {

/// The representative of a residue that is closest to zero.
pub open spec fn centered(v: int) -> int {
    if v <= q() / 2 {
        v
    } else {
        v - q()
    }
}

/// All coefficients by their representatives closest to zero.
pub open spec fn centered_rq(a: Rq) -> Seq<int> {
    Seq::new(64, |k: int| centered(a[k]))
}

/// No coefficient is larger than `bound`.
pub open spec fn coefficients_within(a: Rq, bound: int) -> bool {
    is_rq(a) && forall|k: int| 0 <= k < 64 ==> magnitude(#[trigger] a[k]) <= bound
}

spec fn abs(a: int) -> int {
    if a >= 0 {
        a
    } else {
        -a
    }
}

proof fn lemma_centered(v: int)
    ensures
        modq(centered(v)) == modq(v),
        0 <= v < q() ==> abs(centered(v)) == magnitude(v),
{
    vstd::arithmetic::div_mod::lemma_mod_sub_multiples_vanish(v, q());
}

/// A product may be computed with the representatives closest to zero.
proof fn lemma_centered_conv(a: Rq, b: Rq, n: int)
    ensures
        modq(conv(a, b, n)) == modq(conv(centered_rq(a), centered_rq(b), n)),
{
    let (ca, cb) = (centered_rq(a), centered_rq(b));
    let f = |i: int| coeff(a, i) * coeff(b, n - i);
    let g = |i: int| coeff(ca, i) * coeff(cb, n - i);
    assert forall|i: int| 0 <= i < 64 implies modq(#[trigger] f(i)) == modq(g(i)) by {
        lemma_centered_coeff(a, i);
        lemma_centered_coeff(b, n - i);
        let (x, y) = (coeff(a, i), coeff(b, n - i));
        let (cx, cy) = (coeff(ca, i), coeff(cb, n - i));
        lemma_modq_mul(x, y);
        lemma_modq_mul(cx, cy);
    }
    lemma_sum_congruent(f, g, 0, 64);
}

proof fn lemma_centered_coeff(a: Rq, n: int)
    ensures
        modq(coeff(centered_rq(a), n)) == modq(coeff(a, n)),
{
    let k = n % 64;
    lemma_centered(a[k]);
    lemma_modq_neg(centered(a[k]), a[k]);
}

/// A sum of small terms is small.
proof fn lemma_sum_abs(f: spec_fn(int) -> int, g: spec_fn(int) -> int, lo: int, hi: int)
    requires
        forall|i: int| lo <= i < hi ==> abs(#[trigger] f(i)) <= g(i),
    ensures
        abs(sum(f, lo, hi)) <= sum(g, lo, hi),
    decreases hi - lo,
{
    if lo < hi {
        lemma_sum_abs(f, g, lo, hi - 1);
    }
}

/// A coefficient of a product is at most the L1 norm of one factor times the largest coefficient
/// of the other.
proof fn lemma_product_bound(c: Rq, s: Rq, bound: int, n: int)
    requires
        is_rq(c),
        coefficients_within(s, bound),
        0 <= bound,
    ensures
        abs(conv(centered_rq(c), centered_rq(s), n)) <= bound * l1_norm(c),
{
    let (cc, cs) = (centered_rq(c), centered_rq(s));
    let f = |i: int| coeff(cc, i) * coeff(cs, n - i);
    let size = |k: int| magnitude(c[k]);
    let g = |i: int| bound * size(i);
    assert forall|i: int| 0 <= i < 64 implies abs(#[trigger] f(i)) <= g(i) by {
        crate::rq::lemma_coeff_stored(cc, i);
        lemma_centered(c[i]);
        let k = (n - i) % 64;
        lemma_centered(s[k]);
        assert(magnitude(s[k]) <= bound);
        let (x, y) = (coeff(cc, i), coeff(cs, n - i));
        assert(abs(y) <= bound);
        assert(abs(x) == size(i));
        assert(abs(x * y) <= bound * abs(x)) by (nonlinear_arith)
            requires
                -bound <= y <= bound,
                abs(x * y) == (if x * y >= 0 {
                    x * y
                } else {
                    -(x * y)
                }),
                abs(x) == (if x >= 0 {
                    x
                } else {
                    -x
                }),
        ;
    }
    lemma_sum_abs(f, g, 0, 64);
    lemma_sum_scale(bound, size, 0, 64);
}

/// The size of a residue is at most that of any representative.
proof fn lemma_least_magnitude(v: int, x: int)
    requires
        v == modq(x),
    ensures
        0 <= magnitude(v) <= abs(x),
{
    lemma_modq_range(x);
    if x >= 0 {
        if x < q() {
            lemma_modq_small(x);
        }
    } else if x > -q() {
        vstd::arithmetic::div_mod::lemma_mod_add_multiples_vanish(x, q());
        lemma_modq_small(x + q());
        assert(v == q() + x);
    }
}

/// The squared size of a residue is at most that of any representative.
proof fn lemma_least_square(v: int, x: int, bound: int)
    requires
        v == modq(x),
        abs(x) <= bound,
    ensures
        magnitude_sq(v) <= bound * bound,
{
    lemma_least_magnitude(v, x);
    let m = magnitude(v);
    assert(m * m <= bound * bound) by (nonlinear_arith)
        requires
            0 <= m <= bound,
    ;
}

/// An element with small coefficients has a small norm.
proof fn lemma_poly_norm(p: Rq, sq: int)
    requires
        forall|k: int| 0 <= k < 64 ==> magnitude_sq(#[trigger] p[k]) <= sq,
    ensures
        poly_norm_sq(p) <= 64 * sq,
{
    let f = |k: int| magnitude_sq(p[k]);
    let g = |k: int| sq;
    lemma_sum_below(f, sq, 0, 64);
}

proof fn lemma_sum_below(f: spec_fn(int) -> int, c: int, lo: int, hi: int)
    requires
        lo <= hi,
        forall|i: int| lo <= i < hi ==> #[trigger] f(i) <= c,
    ensures
        sum(f, lo, hi) <= (hi - lo) * c,
    decreases hi - lo,
{
    if lo < hi {
        lemma_sum_below(f, c, lo, hi - 1);
        assert((hi - 1 - lo) * c + c == (hi - lo) * c) by (nonlinear_arith);
    } else {
        assert((hi - lo) * c == 0) by (nonlinear_arith)
            requires
                lo == hi,
        ;
    }
}

/// The squared norm is the sum of the squares of the representatives closest to zero.
pub proof fn norm_is_euclidean(a: Rq)
    requires
        is_rq(a),
    ensures
        poly_norm_sq(a) == sum(|k: int| centered(a[k]) * centered(a[k]), 0, 64),
{
    let f = |k: int| magnitude_sq(a[k]);
    let g = |k: int| centered(a[k]) * centered(a[k]);
    assert forall|k: int| 0 <= k < 64 implies #[trigger] f(k) == g(k) by {
        lemma_centered(a[k]);
        let c = centered(a[k]);
        assert((-c) * (-c) == c * c) by (nonlinear_arith);
    }
    lemma_sum_same(f, g, 0, 64);
}

/// The norm of a vector is at most the sum of bounds on its parts.
proof fn lemma_vec_norm(z: Seq<Rq>, split: int, low: int, high: int)
    requires
        0 <= split <= z.len(),
        forall|i: int| 0 <= i < split ==> poly_norm_sq(#[trigger] z[i]) <= low,
        forall|i: int| split <= i < z.len() ==> poly_norm_sq(#[trigger] z[i]) <= high,
    ensures
        vec_norm_sq(z) <= split * low + (z.len() - split) * high,
{
    let f = |i: int| poly_norm_sq(z[i]);
    let n = z.len() as int;
    lemma_sum_split(f, 0, split, n);
    lemma_sum_below(f, low, 0, split);
    lemma_sum_below(f, high, split, n);
}

/// A coefficient of a folded column is at most the number of columns times the L1 norm of a
/// challenge times the largest coefficient of a column.
proof fn lemma_folded_coefficient(
    c: Seq<Rq>,
    s: Seq<Rq>,
    w: int,
    bound: int,
    j: int,
    k: int,
)
    requires
        0 <= j < w,
        0 <= k < 64,
        0 <= bound,
        s.len() == c.len() * w,
        forall|i: int| 0 <= i < c.len() ==> is_rq(#[trigger] c[i]) && l1_norm(c[i]) <= CHALLENGE_L1,
        forall|l: int| 0 <= l < s.len() ==> coefficients_within(#[trigger] s[l], bound),
    ensures
        ({
            let total = c.len() * CHALLENGE_L1 * bound;
            magnitude_sq(fold_rows(c, s, w)[j][k]) <= total * total
        }),
{
    let r = c.len() as int;
    let term = |i: int| rq_mul(c[i], s[i * w + j]);
    lemma_rq_sum_coefficient(term, r, k);
    let residue = |i: int| term(i)[k];
    let exact = |i: int| conv(centered_rq(c[i]), centered_rq(s[i * w + j]), k);
    let cap = bound * CHALLENGE_L1;
    let caps = |i: int| cap;
    assert forall|i: int| 0 <= i < r implies modq(#[trigger] residue(i)) == modq(exact(i)) by {
        lemma_centered_conv(c[i], s[i * w + j], k);
        lemma_modq_range(conv(c[i], s[i * w + j], k));
    }
    lemma_sum_congruent(residue, exact, 0, r);
    assert forall|i: int| 0 <= i < r implies abs(#[trigger] exact(i)) <= caps(i) by {
        lemma_flat_index(i, j, r, w);
        lemma_product_bound(c[i], s[i * w + j], bound, k);
        let l1 = l1_norm(c[i]);
        assert(bound * l1 <= bound * CHALLENGE_L1) by (nonlinear_arith)
            requires
                0 <= bound,
                l1 <= CHALLENGE_L1,
        ;
    }
    lemma_sum_abs(exact, caps, 0, r);
    lemma_sum_below(caps, cap, 0, r);
    assert((r - 0) * cap == r * CHALLENGE_L1 * bound) by (nonlinear_arith)
        requires
            cap == bound * CHALLENGE_L1,
    ;
    lemma_least_square(fold_rows(c, s, w)[j][k], sum(exact, 0, r), r * CHALLENGE_L1 * bound);
}

/// An honest witness is within the norm bound: the digits are no larger than their bases, and
/// the L1 norm of each challenge entry is at most 51.
pub proof fn honest_witness_is_short(
    p: GreyhoundTranscriptParams,
    w_hat: Seq<Rq>,
    t_hat: Seq<Rq>,
    s: Seq<Rq>,
    c: Seq<Rq>,
)
    requires
        p.supported(),
        w_hat.len() == p.d_width(),
        t_hat.len() == p.b_width(),
        s.len() == p.r * p.a_width(),
        c.len() == p.r,
        forall|l: int| 0 <= l < w_hat.len() ==> coefficients_within(#[trigger] w_hat[l], p.base1()),
        forall|l: int| 0 <= l < t_hat.len() ==> coefficients_within(#[trigger] t_hat[l], p.base1()),
        forall|l: int| 0 <= l < s.len() ==> coefficients_within(#[trigger] s[l], p.base0()),
        forall|i: int| 0 <= i < c.len() ==> is_rq(#[trigger] c[i]) && l1_norm(c[i]) <= CHALLENGE_L1,
    ensures
        vec_norm_sq(relation_witness(p, w_hat, t_hat, s, c)) <= norm_bound_sq(p),
{
    let z = relation_witness(p, w_hat, t_hat, s, c);
    let b1 = p.base1();
    let fold = p.r * CHALLENGE_L1 * p.base0();
    let split = p.d_width() + p.b_width();
    let folded = fold_rows(c, s, p.a_width());
    p.lemma_widths();
    assert forall|i: int| 0 <= i < split implies poly_norm_sq(#[trigger] z[i]) <= 64 * (b1 * b1) by {
        let e = z[i];
        if i < w_hat.len() {
            assert(e == w_hat[i]);
        } else {
            assert(e == t_hat[i - w_hat.len()]);
        }
        assert(coefficients_within(e, b1));
        assert forall|k: int| 0 <= k < 64 implies magnitude_sq(#[trigger] e[k]) <= b1 * b1 by {
            lemma_centered(e[k]);
            lemma_modq_small(e[k]);
            lemma_least_square(e[k], centered(e[k]), b1);
        }
        lemma_poly_norm(e, b1 * b1);
    }
    assert forall|i: int| split <= i < z.len() implies poly_norm_sq(#[trigger] z[i]) <= 64 * (fold
        * fold) by {
        let j = i - split;
        assert(z[i] == folded[j]);
        assert forall|k: int| 0 <= k < 64 implies magnitude_sq(#[trigger] z[i][k]) <= fold * fold by {
            lemma_folded_coefficient(c, s, p.a_width(), p.base0(), j, k);
        }
        lemma_poly_norm(z[i], fold * fold);
    }
    lemma_vec_norm(z, split, 64 * (b1 * b1), 64 * (fold * fold));
    assert(split * (64 * (b1 * b1)) == b1 * b1 * (p.nrows + 1) * p.delta * p.r * 64)
        by (nonlinear_arith)
        requires
            split == p.delta * p.r + p.nrows * p.delta * p.r,
    ;
    assert(p.a_width() * (64 * (fold * fold)) == fold * fold * p.delta0 * p.m * 64)
        by (nonlinear_arith)
        requires
            p.a_width() == p.delta0 * p.m,
    ;
}

/// The scheme is complete: a proof made honestly is accepted whenever the digits are no larger
/// than their bases, each challenge entry has an L1 norm of at most 51, and `1 + x^64` is a
/// unit. Nothing need be known of the witness's norm.
pub proof fn honest_short_proof_is_accepted(
    p: GreyhoundTranscriptParams,
    pp: PublicParams,
    raw: Seq<u32>,
    x: int,
    s_digits: Seq<Rq>,
    t_digits: Seq<Rq>,
    commit: CommitReturn,
    start: EvalStart,
    w_hat: Seq<Rq>,
    step: EvalCommitted,
    c: Seq<Rq>,
    lab_crs: LabradorCRS,
    proof: ProverProof,
)
    requires
        p.supported(),
        pp.shaped(p),
        raw.len() == 64 * full_chunks(p),
        is_unit(sigma_denominator(x)),
        is_commitment(p, pp, raw, s_digits, t_digits, commit),
        is_start(start, p, raw, rqs(commit.s@), x),
        is_decomposition(w_hat, rqs(start.w@), p.delta as int, p.base1()),
        is_committed(step, start, p, pp, rqs(commit.u@), x, w_hat),
        forall|l: int| 0 <= l < w_hat.len() ==> coefficients_within(#[trigger] w_hat[l], p.base1()),
        forall|l: int|
            0 <= l < commit.t_hat_concat@.len() ==> coefficients_within(
                #[trigger] rqs(commit.t_hat_concat@)[l],
                p.base1(),
            ),
        forall|l: int|
            0 <= l < commit.s@.len() ==> coefficients_within(
                #[trigger] rqs(commit.s@)[l],
                p.base0(),
            ),
        c.len() == p.r,
        forall|i: int| 0 <= i < c.len() ==> is_rq(#[trigger] c[i]) && l1_norm(c[i]) <= CHALLENGE_L1,
        lab_crs.b == p.base1(),
        lab_crs.norm_bound_sq == norm_bound_sq(p),
        is_proof(
            proof,
            step,
            relation_witness(p, w_hat, rqs(commit.t_hat_concat@), rqs(commit.s@), c),
        ),
    ensures
        recovered_seed(p, rqs(commit.u@), x, proof) == Ok::<Seq<u8>, GreyhoundError>(step.seed@),
        accepted(p, pp, rqs(commit.u@), x, proof, c, lab_crs),
{
    let (s, t_hat) = (rqs(commit.s@), rqs(commit.t_hat_concat@));
    assert(1 * p.r == p.r);
    assert(p.r * p.delta == p.d_width()) by (nonlinear_arith)
        requires
            p.d_width() == p.delta * p.r,
    ;
    assert(p.r * (p.delta * p.nrows) == p.b_width()) by (nonlinear_arith)
        requires
            p.b_width() == p.nrows * p.delta * p.r,
    ;
    p.lemma_widths();
    assert(s.len() == p.r * p.a_width());
    assert(t_hat.len() == p.b_width());
    honest_witness_is_short(p, w_hat, t_hat, s, c);
    honest_proof_is_accepted(
        p,
        pp,
        raw,
        x,
        s_digits,
        t_digits,
        commit,
        start,
        w_hat,
        step,
        c,
        lab_crs,
        proof,
    );
}

} // verus!
