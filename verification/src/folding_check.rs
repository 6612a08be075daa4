//! The verifier of the row-folding round.
use vstd::prelude::*;
use vstd::slice::slice_subrange;

use crate::bytes::{polys_bytes, scalars_bytes, to_bytes, zqs_to_bytes};
use crate::challenge::{drawn_challenges, generate_labrador_challenges};
use crate::error::GreyhoundError;
use crate::folding::{exchange, vectors_fit, weights_fit};
use crate::labrador::{
    lemma_rqs_subrange, pair_count, ConstraintSystem, LabradorCRS, LabradorProof, Relation,
};
use crate::layout::{
    lemma_lower_count, lemma_upper_count, lower_count, pack_scalars, packed, upper_count,
};
use crate::linalg::{
    device_ntt_matmul, dot_product_host, dot_range, fold_rows, lemma_flat_index, mat_vec,
    matmul_fits, matmul_fold, recompose, recompose_digit_major, recomposed, vec_add, vec_add_host,
};
use crate::norm::{coefficient_magnitude, magnitude_sq, HALF_MODULUS};
use crate::poly::{add_poly, mul_poly, poly_equal, poly_vecs_equal, rqs, zqs, PolyRing};
use crate::rq::{rq_add, rq_dot, rq_mul, rq_sum, Rq};
use crate::sponge::{heard, Transcript, VerifierState, MAX_CHALLENGES};
use crate::zq::Zq;

verus! {

/// The summand for `x` of an unordered pair of positions: twice the product unless the positions
/// are the same.
pub open spec fn pair_term(ci: Rq, cj: Rq, x: Rq, same: bool) -> Rq {
    let t = rq_mul(rq_mul(ci, cj), x);
    if same {
        t
    } else {
        rq_add(t, t)
    }
}

/// The sum of `c_i c_j g(i, j)` over all ordered pairs, where `g` lists `g(i, j)` for `i <= j`.
pub open spec fn upper_form(c: Seq<Rq>, g: Seq<Rq>, r: int) -> Rq {
    rq_sum(|i: int| upper_row_form(c, g, r, i, r - i), r)
}

/// The part of that sum for `i` and the first `n` values of `j`.
pub open spec fn upper_row_form(c: Seq<Rq>, g: Seq<Rq>, r: int, i: int, n: int) -> Rq {
    rq_sum(upper_terms(c, g, r, i), n)
}

/// The summands for `i`, by `j - i`.
pub open spec fn upper_terms(c: Seq<Rq>, g: Seq<Rq>, r: int, i: int) -> spec_fn(int) -> Rq {
    |d: int| pair_term(c[i], c[i + d], g[upper_count(r, i) + d], d == 0)
}

/// The sum of `c_i c_j h(i, j)` over all ordered pairs, where `h` lists `h(i, j)` for `j <= i`.
pub open spec fn lower_form(c: Seq<Rq>, h: Seq<Rq>, r: int) -> Rq {
    rq_sum(|i: int| lower_row_form(c, h, i, i + 1), r)
}

/// The part of that sum for `i` and the first `n` values of `j`.
pub open spec fn lower_row_form(c: Seq<Rq>, h: Seq<Rq>, i: int, n: int) -> Rq {
    rq_sum(lower_terms(c, h, i), n)
}

/// The summands for `i`, by `j`.
pub open spec fn lower_terms(c: Seq<Rq>, h: Seq<Rq>, i: int) -> spec_fn(int) -> Rq {
    |j: int| pair_term(c[i], c[j], h[lower_count(i) + j], j == i)
}

/// The inner commitments that `t_flat` holds digits of: `k` of them for each of `r` vectors.
pub open spec fn recomposed_commitments(crs: LabradorCRS, t_flat: Seq<Rq>) -> Seq<Rq> {
    let (k, w) = (crs.k as int, crs.k * crs.t1);
    Seq::new(
        (crs.r * crs.k) as nat,
        |x: int|
            recomposed(
                t_flat.subrange((x / k) * w, (x / k) * w + w),
                k,
                crs.t1 as int,
                crs.b1 as int,
                x % k,
            ),
    )
}

/// The first block of checks: both outer commitments, the inner commitments of the folded
/// vector, the gadget relation and the quadratic garbage terms.
pub open spec fn opening_checks(
    crs: LabradorCRS,
    proof: LabradorProof,
    constraint: Relation,
    c: Seq<Rq>,
) -> Result<bool, GreyhoundError> {
    let (t, g, h) = (rqs(proof.t_flat@), rqs(proof.G_flat@), rqs(proof.H_flat@));
    let z = rqs(proof.z_folded@);
    let (k1, k2) = (crs.k1 as int, crs.k2 as int);
    let offset = constraint.n_w + constraint.n_t;
    if !matmul_fits(crs.B@.len() as int, k1, crs.b_width(), t.len() as int) || !matmul_fits(
        crs.C@.len() as int,
        k2,
        crs.c_width(),
        g.len() as int,
    ) || k1 != k2 {
        Err(GreyhoundError::InvalidDimensions)
    } else if vec_add(
        mat_vec(rqs(crs.B@), k1, crs.b_width(), t),
        mat_vec(rqs(crs.C@), k2, crs.c_width(), g),
    ) != rqs(proof.u_1@) {
        Ok(false)
    } else if !matmul_fits(crs.D_mat@.len() as int, k1, crs.d_width(), h.len() as int) {
        Err(GreyhoundError::InvalidDimensions)
    } else if mat_vec(rqs(crs.D_mat@), k1, crs.d_width(), h) != rqs(proof.u_2@) {
        Ok(false)
    } else if !matmul_fits(
        constraint.A_ajtai.len() as int,
        crs.k as int,
        constraint.n_s,
        z.len() - offset,
    ) {
        Err(GreyhoundError::InvalidDimensions)
    } else if !inner_commitments_match(crs, proof, constraint, c) {
        Ok(false)
    } else if constraint.a_eval.len() > constraint.n_s {
        Err(GreyhoundError::InvalidDimensions)
    } else {
        Ok(
            gadget_matches(crs, proof, constraint) && rq_dot(z, z) == upper_form(
                c,
                recompose(g, crs.pairs(), crs.t2 as int, crs.b2 as int),
                crs.r as int,
            ),
        )
    }
}

/// The folded inner commitments commit to the last part of the folded vector.
pub open spec fn inner_commitments_match(
    crs: LabradorCRS,
    proof: LabradorProof,
    constraint: Relation,
    c: Seq<Rq>,
) -> bool {
    mat_vec(
        constraint.A_ajtai,
        crs.k as int,
        constraint.n_s,
        constraint.s_part(rqs(proof.z_folded@)),
    ) == fold_rows(c, recomposed_commitments(crs, rqs(proof.t_flat@)), crs.k as int)
}

/// The first part of the folded vector holds the digits of the weighted last part.
pub open spec fn gadget_matches(
    crs: LabradorCRS,
    proof: LabradorProof,
    constraint: Relation,
) -> bool {
    let z = rqs(proof.z_folded@);
    recomposed(constraint.w_part(z), 1, constraint.n_w, crs.b as int, 0) == rq_sum(
        |j: int| rq_mul(constraint.a_eval[j], constraint.s_part(z)[j]),
        constraint.a_eval.len() as int,
    )
}

/// The second block of checks, with the sampled weights and vectors: the aggregated terms and
/// the linear garbage terms.
pub open spec fn sampled_checks(
    crs: LabradorCRS,
    proof: LabradorProof,
    constraint: Relation,
    c: Seq<Rq>,
    g: Seq<Rq>,
    psi: Seq<int>,
    phi: Seq<int>,
) -> Result<bool, GreyhoundError> {
    let z = rqs(proof.z_folded@);
    let n = constraint.witness_len();
    if !weights_fit(psi.len() as int, crs.num_aggregs as int, g.len() as int) {
        Err(GreyhoundError::InvalidDimensions)
    } else if mat_vec(packed(psi), crs.num_aggregs as int, g.len() as int, g) != rqs(proof.b_agg@) {
        Ok(false)
    } else if proof.H_flat@.len() != crs.d_width() || z.len() != n || c.len() != crs.r || c.len()
        == 0 || n == 0 || !vectors_fit(phi.len() as int, crs.r as int, n) {
        Err(GreyhoundError::InvalidDimensions)
    } else {
        let dot = rq_dot(fold_rows(c, packed(phi), n), z);
        Ok(
            rq_add(dot, dot) == lower_form(
                c,
                recompose(rqs(proof.H_flat@), crs.pairs(), crs.t1 as int, crs.b1 as int),
                crs.r as int,
            ),
        )
    }
}

/// The summand for an unordered pair of positions.
fn add_pair(acc: &PolyRing, ci: &PolyRing, cj: &PolyRing, x: &PolyRing, same: bool) -> (r: PolyRing)
    ensures
        r@ == rq_add(acc@, pair_term(ci@, cj@, x@, same)),
{
    let ci_cj = mul_poly(ci, cj);
    let t = mul_poly(&ci_cj, x);
    if same {
        add_poly(acc, &t)
    } else {
        let twice = add_poly(&t, &t);
        add_poly(acc, &twice)
    }
}

/// The sum of `c_i c_j g(i, j)`, where `g` lists the values for `i <= j`.
pub fn upper_quadratic_form(c: &[PolyRing], g: &[PolyRing]) -> (res: PolyRing)
    requires
        g.len() == upper_count(c.len() as int, c.len() as int),
    ensures
        res@ == upper_form(rqs(c@), rqs(g@), c.len() as int),
{
    let r: usize = c.len();
    let ghost rows = |i: int| upper_row_form(rqs(c@), rqs(g@), r as int, i, r - i);
    let mut total = PolyRing::zero();
    let mut at: usize = 0;
    for i in 0..r
        invariant
            r == c.len(),
            g.len() == upper_count(r as int, r as int),
            at == upper_count(r as int, i as int),
            rows == (|i: int| upper_row_form(rqs(c@), rqs(g@), r as int, i, r - i)),
            total@ == rq_sum(rows, i as int),
    {
        proof {
            lemma_upper_rest(r as int, i + 1, r as int);
        }
        let ghost start = at;
        let ghost row = upper_terms(rqs(c@), rqs(g@), r as int, i as int);
        let mut acc = PolyRing::zero();
        for j in i..r
            invariant
                i < r,
                r == c.len(),
                start == upper_count(r as int, i as int),
                start + (r - i) <= g.len(),
                at == start + (j - i),
                row == upper_terms(rqs(c@), rqs(g@), r as int, i as int),
                acc@ == rq_sum(row, j - i),
        {
            acc = add_pair(&acc, &c[i], &c[j], &g[at], i == j);
            at = at + 1;
        }
        total = add_poly(&total, &acc);
    }
    total
}

proof fn lemma_upper_rest(r: int, i: int, n: int)
    requires
        0 <= i <= n <= r,
    ensures
        upper_count(r, i) <= upper_count(r, n),
    decreases n - i,
{
    if i < n {
        lemma_upper_rest(r, i, n - 1);
    }
}

proof fn lemma_lower_rest(i: int, n: int)
    requires
        0 <= i <= n,
    ensures
        lower_count(i) <= lower_count(n),
    decreases n - i,
{
    if i < n {
        lemma_lower_rest(i, n - 1);
    }
}

/// The sum of `c_i c_j h(i, j)`, where `h` lists the values for `j <= i`.
pub fn lower_quadratic_form(c: &[PolyRing], h: &[PolyRing]) -> (res: PolyRing)
    requires
        h.len() == lower_count(c.len() as int),
    ensures
        res@ == lower_form(rqs(c@), rqs(h@), c.len() as int),
{
    let r: usize = c.len();
    let ghost rows = |i: int| lower_row_form(rqs(c@), rqs(h@), i, i + 1);
    let mut total = PolyRing::zero();
    let mut at: usize = 0;
    for i in 0..r
        invariant
            r == c.len(),
            h.len() == lower_count(r as int),
            at == lower_count(i as int),
            rows == (|i: int| lower_row_form(rqs(c@), rqs(h@), i, i + 1)),
            total@ == rq_sum(rows, i as int),
    {
        proof {
            lemma_lower_rest(i + 1, r as int);
        }
        let ghost start = at;
        let ghost row = lower_terms(rqs(c@), rqs(h@), i as int);
        let mut acc = PolyRing::zero();
        for j in 0..(i + 1)
            invariant
                i < r,
                r == c.len(),
                start == lower_count(i as int),
                start + i + 1 <= h.len(),
                at == start + j,
                row == lower_terms(rqs(c@), rqs(h@), i as int),
                acc@ == rq_sum(row, j as int),
        {
            acc = add_pair(&acc, &c[i], &c[j], &h[at], i == j);
            at = at + 1;
        }
        total = add_poly(&total, &acc);
    }
    total
}

/// The inner commitments that `t_flat` holds digits of.
fn recompose_commitments(crs: &LabradorCRS, t_flat: &[PolyRing]) -> (res: Vec<PolyRing>)
    requires
        crs.countable(),
        t_flat.len() == crs.b_width(),
    ensures
        res@.len() == crs.r * crs.k,
        rqs(res@) == recomposed_commitments(*crs, rqs(t_flat@)),
{
    let width: usize = crs.k * crs.t1;
    let ghost (k, w) = (crs.k as int, crs.k * crs.t1);
    let ghost value = |x: int|
        recomposed(
            rqs(t_flat@).subrange((x / k) * w, (x / k) * w + w),
            k,
            crs.t1 as int,
            crs.b1 as int,
            x % k,
        );
    proof {
        assert(crs.r * w == crs.b_width()) by (nonlinear_arith)
            requires
                w == crs.k * crs.t1,
                crs.b_width() == crs.t1 * crs.r * crs.k,
        ;
    }
    let mut out: Vec<PolyRing> = Vec::new();
    assert(0 * k == 0);
    for i in 0..crs.r
        invariant
            width == w,
            k == crs.k,
            w == crs.k * crs.t1,
            crs.r * w == t_flat.len(),
            value == (|x: int|
                recomposed(
                    rqs(t_flat@).subrange((x / k) * w, (x / k) * w + w),
                    k,
                    crs.t1 as int,
                    crs.b1 as int,
                    x % k,
                )),
            out@.len() == i * k,
            forall|x: int| 0 <= x < i * k ==> (#[trigger] out@[x])@ == value(x),
    {
        proof {
            assert(0 <= i * w && i * w + w <= crs.r * w) by (nonlinear_arith)
                requires
                    0 <= i < crs.r,
                    0 <= w,
            ;
            lemma_rqs_subrange(t_flat@, i * w, i * w + w);
        }
        let start: usize = i * width;
        let block = slice_subrange(t_flat, start, start + width);
        let mut t_i = recompose_digit_major(block, crs.k, crs.t1, crs.b1);
        let ghost before = out@;
        let ghost piece = t_i@;
        out.append(&mut t_i);
        proof {
            assert(i * k + k == (i + 1) * k) by (nonlinear_arith);
            assert forall|x: int| 0 <= x < (i + 1) * k implies (#[trigger] out@[x])@ == value(
                x,
            ) by {
                if x < i * k {
                    assert(out@[x] == before[x]);
                } else {
                    let j = x - i * k;
                    lemma_flat_index(i as int, j, crs.r as int, k);
                    assert(out@[x] == piece[j]);
                    assert(rqs(piece)[j] == piece[j]@);
                }
            }
        }
    }
    assert(rqs(out@) =~= recomposed_commitments(*crs, rqs(t_flat@)));
    out
}

/// The quadratic garbage terms that `g_flat` holds digits of.
fn recompose_terms(crs: &LabradorCRS, g_flat: &[PolyRing]) -> (res: Vec<PolyRing>)
    requires
        crs.countable(),
        g_flat.len() == crs.c_width(),
    ensures
        res@.len() == crs.pairs(),
        rqs(res@) == recompose(rqs(g_flat@), crs.pairs(), crs.t2 as int, crs.b2 as int),
{
    let pairs: usize = pair_count(crs.r);
    proof {
        assert(pairs * crs.t2 == crs.c_width()) by (nonlinear_arith)
            requires
                pairs == crs.pairs(),
                crs.c_width() == crs.t2 * crs.pairs(),
        ;
    }
    recompose_digit_major(g_flat, pairs, crs.t2, crs.b2)
}

/// The first block of checks.
fn check_openings(
    crs: &LabradorCRS,
    proof: &LabradorProof,
    constraint: &ConstraintSystem,
    c: &[PolyRing],
) -> (res: Result<bool, GreyhoundError>)
    requires
        crs.countable(),
        c.len() == crs.r,
    ensures
        res == opening_checks(*crs, *proof, constraint@, rqs(c@)),
        res == Ok::<bool, GreyhoundError>(true) ==> proof.G_flat@.len() == crs.c_width(),
{
    let part1 = match device_ntt_matmul(
        crs.B.as_slice(),
        crs.k1,
        crs.b_cols(),
        proof.t_flat.as_slice(),
    ) {
        Ok(out) => out,
        Err(e) => {
            return Err(e);
        },
    };
    let part2 = match device_ntt_matmul(
        crs.C.as_slice(),
        crs.k2,
        crs.c_cols(),
        proof.G_flat.as_slice(),
    ) {
        Ok(out) => out,
        Err(e) => {
            return Err(e);
        },
    };
    if crs.k1 != crs.k2 {
        return Err(GreyhoundError::InvalidDimensions);
    }
    let u_1 = vec_add_host(part1.as_slice(), part2.as_slice());
    if !poly_vecs_equal(u_1.as_slice(), proof.u_1.as_slice()) {
        return Ok(false);
    }
    let u_2 = match device_ntt_matmul(
        crs.D_mat.as_slice(),
        crs.k1,
        crs.d_cols(),
        proof.H_flat.as_slice(),
    ) {
        Ok(out) => out,
        Err(e) => {
            return Err(e);
        },
    };
    if !poly_vecs_equal(u_2.as_slice(), proof.u_2.as_slice()) {
        return Ok(false);
    }
    let z = proof.z_folded.as_slice();
    let offset: usize = match constraint.n_w.checked_add(constraint.n_t) {
        Some(offset) => offset,
        None => {
            assert(z.len() <= usize::MAX);
            return Err(GreyhoundError::InvalidDimensions);
        },
    };
    if z.len() < offset {
        return Err(GreyhoundError::InvalidDimensions);
    }
    let z_s = slice_subrange(z, offset, z.len());
    let az = match device_ntt_matmul(
        constraint.A_ajtai.as_slice(),
        crs.k,
        constraint.n_s,
        z_s,
    ) {
        Ok(out) => out,
        Err(e) => {
            return Err(e);
        },
    };
    proof {
        lemma_rqs_subrange(z@, offset as int, z@.len() as int);
        lemma_rqs_subrange(z@, 0, constraint.n_w as int);
        lemma_positive_factors(crs.t1 as int, crs.r as int, crs.k as int);
    }
    let t = recompose_commitments(crs, proof.t_flat.as_slice());
    let sum_ct = match matmul_fold(c, t.as_slice(), crs.k) {
        Ok(out) => out,
        Err(e) => {
            return Err(e);
        },
    };
    if !poly_vecs_equal(az.as_slice(), sum_ct.as_slice()) {
        return Ok(false);
    }
    if constraint.a_eval.len() > constraint.n_s {
        return Err(GreyhoundError::InvalidDimensions);
    }
    let z_w = slice_subrange(z, 0, constraint.n_w);
    let w_recomp = recompose_digit_major(z_w, 1, constraint.n_w, crs.b);
    let a_len: usize = constraint.a_eval.len();
    let a_dot_zs = dot_range(constraint.a_eval.as_slice(), 0, z_s, 0, a_len);
    proof {
        assert(rqs(w_recomp@)[0] == w_recomp@[0]@);
        crate::rq::lemma_rq_sum_same(
            |j: int| rq_mul(rqs(constraint.a_eval@)[0usize + j], rqs(z_s@)[0usize + j]),
            |j: int|
                rq_mul(constraint@.a_eval[j], constraint@.s_part(rqs(proof.z_folded@))[j]),
            a_len as int,
        );
    }
    if !poly_equal(&w_recomp[0], &a_dot_zs) {
        return Ok(false);
    }
    let g = recompose_terms(crs, proof.G_flat.as_slice());
    proof {
        lemma_upper_count(crs.r as int);
        lemma_lower_count(crs.r as int);
    }
    let z_dot_z = dot_product_host(z, z);
    let sum_cc_g = upper_quadratic_form(c, g.as_slice());
    Ok(poly_equal(&z_dot_z, &sum_cc_g))
}

proof fn lemma_positive_factors(a: int, b: int, c: int)
    requires
        0 <= a,
        0 <= b,
        0 <= c,
        a * b * c > 0,
    ensures
        b > 0,
        c > 0,
{
    assert(b > 0 && c > 0) by (nonlinear_arith)
        requires
            0 <= a,
            0 <= b,
            0 <= c,
            a * b * c > 0,
    ;
}

/// What the verifier of a folding round still has to be given: coefficients of weights, sampled
/// with one seed, and of vectors, sampled with the other.
pub struct FoldCheck {
    /// Seed of the weights.
    pub psi_seed: [u8; 32],
    /// Seed of the vectors.
    pub phi_seed: [u8; 32],
    /// Challenge.
    pub c: Vec<PolyRing>,
    /// Quadratic garbage terms.
    pub g: Vec<PolyRing>,
}

/// What the first step of a verifier comes to: a verdict, or a request for samples.
pub enum RoundDecision {
    /// The proof is accepted or rejected.
    Decided(bool),
    /// Weights and vectors are to be sampled.
    Sample { psi_seed: Seq<u8>, phi_seed: Seq<u8>, c: Seq<Rq>, g: Seq<Rq> },
}

/// What the first step of a verifier comes to, and how far it has read the transcript.
pub struct RoundReading {
    /// The decision.
    pub decision: Result<RoundDecision, GreyhoundError>,
    /// The transcript at that point.
    pub transcript: Transcript,
    /// The bytes that have been read.
    pub read: int,
}

/// Some projection is not below the norm bound.
pub open spec fn projection_too_large(crs: LabradorCRS, p: Seq<int>) -> bool {
    exists|i: int| 0 <= i < p.len() && #[trigger] magnitude_sq(p[i]) >= crs.norm_bound_sq
}

/// The four messages of a folding round.
pub open spec fn fold_messages(proof: LabradorProof) -> (Seq<u8>, Seq<u8>, Seq<u8>, Seq<u8>) {
    (
        polys_bytes(rqs(proof.u_1@)),
        scalars_bytes(zqs(proof.p@)),
        polys_bytes(rqs(proof.b_agg@)),
        polys_bytes(rqs(proof.u_2@)),
    )
}

/// What it comes to that a message cannot be read: other bytes in its place are a rejection, and
/// a transcript that ends early is an error.
pub open spec fn unheard(e: GreyhoundError) -> Result<RoundDecision, GreyhoundError> {
    if e == GreyhoundError::TranscriptMismatch {
        Ok(RoundDecision::Decided(false))
    } else {
        Err(e)
    }
}

/// The first step of the verifier of a folding round: the four messages are read out of the
/// transcript, and a challenge is drawn after each.
pub open spec fn fold_reading(
    crs: LabradorCRS,
    proof: LabradorProof,
    constraint: Relation,
    t: Transcript,
    unread: Seq<u8>,
) -> RoundReading {
    let (m1, m2, m3, m4) = fold_messages(proof);
    let e1 = m1.len() as int;
    let e2 = e1 + m2.len();
    let e3 = e2 + m3.len();
    let e4 = e3 + m4.len();
    let t1 = exchange(t, m1);
    let a2 = t1.absorb(m2);
    let t2 = a2.draw();
    let a3 = t2.absorb(m3);
    let t3 = a3.draw();
    let a4 = t3.absorb(m4);
    match heard(unread, m1) {
        Err(e) => RoundReading { decision: unheard(e), transcript: t, read: 0 },
        Ok(()) => match heard(unread.skip(e1), m2) {
            Err(e) => RoundReading { decision: unheard(e), transcript: t1, read: e1 },
            Ok(()) => if projection_too_large(crs, zqs(proof.p@)) {
                RoundReading {
                    decision: Ok(RoundDecision::Decided(false)),
                    transcript: a2,
                    read: e2,
                }
            } else {
                match heard(unread.skip(e2), m3) {
                    Err(e) => RoundReading { decision: unheard(e), transcript: t2, read: e2 },
                    Ok(()) => match heard(unread.skip(e3), m4) {
                        Err(e) => RoundReading { decision: unheard(e), transcript: t3, read: e3 },
                        Ok(()) => RoundReading {
                            decision: fold_decision(
                                crs,
                                proof,
                                constraint,
                                a2.challenge(),
                                a3.challenge(),
                                a4.challenge(),
                            ),
                            transcript: a4.draw(),
                            read: e4,
                        },
                    },
                }
            },
        },
    }
}

/// The decision of the first step once the challenges are known.
pub open spec fn fold_decision(
    crs: LabradorCRS,
    proof: LabradorProof,
    constraint: Relation,
    psi_seed: Seq<u8>,
    phi_seed: Seq<u8>,
    c_seed: Seq<u8>,
) -> Result<RoundDecision, GreyhoundError> {
    let c = drawn_challenges(c_seed, crs.r as int).0;
    match opening_checks(crs, proof, constraint, c) {
        Err(e) => Err(e),
        Ok(false) => Ok(RoundDecision::Decided(false)),
        Ok(true) => Ok(
            RoundDecision::Sample {
                psi_seed,
                phi_seed,
                c,
                g: recompose(rqs(proof.G_flat@), crs.pairs(), crs.t2 as int, crs.b2 as int),
            },
        ),
    }
}

/// What the first step of a verifier returns.
pub enum VerifyRound {
    /// The proof is accepted or rejected.
    Decided(bool),
    /// Weights and vectors are to be sampled.
    Sample(FoldCheck),
}

impl View for VerifyRound {
    type V = RoundDecision;

    open spec fn view(&self) -> RoundDecision {
        match *self {
            VerifyRound::Decided(b) => RoundDecision::Decided(b),
            VerifyRound::Sample(f) => RoundDecision::Sample {
                psi_seed: f.psi_seed@,
                phi_seed: f.phi_seed@,
                c: rqs(f.c@),
                g: rqs(f.g@),
            },
        }
    }
}

/// The result of a verifier's step, with what it decided.
pub open spec fn decision_of(res: Result<VerifyRound, GreyhoundError>) -> Result<
    RoundDecision,
    GreyhoundError,
> {
    match res {
        Ok(round) => Ok(round@),
        Err(e) => Err(e),
    }
}

/// Whether some projection is not below the norm bound.
fn is_projection_too_large(crs: &LabradorCRS, p: &[Zq]) -> (res: bool)
    ensures
        res == projection_too_large(*crs, zqs(p@)),
{
    for i in 0..p.len()
        invariant
            forall|j: int| 0 <= j < i ==> #[trigger] magnitude_sq(zqs(p@)[j]) < crs.norm_bound_sq,
    {
        let m: u128 = coefficient_magnitude(p[i]) as u128;
        assert(m * m <= u128::MAX) by (nonlinear_arith)
            requires
                0 <= m <= HALF_MODULUS,
        ;
        if m * m >= crs.norm_bound_sq {
            assert(magnitude_sq(zqs(p@)[i as int]) >= crs.norm_bound_sq);
            return true;
        }
        assert(magnitude_sq(zqs(p@)[i as int]) < crs.norm_bound_sq);
    }
    false
}

/// What it comes to that a message cannot be read.
fn refuse(e: GreyhoundError) -> (res: Result<VerifyRound, GreyhoundError>)
    ensures
        decision_of(res) == unheard(e),
{
    match e {
        GreyhoundError::TranscriptMismatch => Ok(VerifyRound::Decided(false)),
        e => Err(e),
    }
}

/// The first step of the verifier of a folding round.
pub fn fold_verify_start(
    crs: &LabradorCRS,
    proof: &LabradorProof,
    verifier_state: &mut VerifierState,
    constraint: &ConstraintSystem,
) -> (res: Result<VerifyRound, GreyhoundError>)
    requires
        crs.countable(),
        old(verifier_state)@.drawn + 4 <= MAX_CHALLENGES,
    ensures
        ({
            let reading = fold_reading(
                *crs,
                *proof,
                constraint@,
                old(verifier_state)@,
                old(verifier_state).unread(),
            );
            &&& decision_of(res) == reading.decision
            &&& final(verifier_state)@ == reading.transcript
            &&& final(verifier_state).unread() == old(verifier_state).unread().skip(reading.read)
        }),
{
    let ghost t = verifier_state@;
    let ghost unread = verifier_state.unread();
    assert(unread.skip(0) =~= unread);
    let m1 = to_bytes(proof.u_1.as_slice());
    let ghost e1 = m1@.len() as int;
    match verifier_state.prover_message(m1.as_slice()) {
        Ok(()) => {},
        Err(e) => {
            return refuse(e);
        },
    }
    let _pi_seed = verifier_state.verifier_message();
    let m2 = zqs_to_bytes(proof.p.as_slice());
    let ghost e2 = e1 + m2@.len() as int;
    match verifier_state.prover_message(m2.as_slice()) {
        Ok(()) => {},
        Err(e) => {
            return refuse(e);
        },
    }
    proof {
        assert(unread.skip(e1).skip(m2@.len() as int) =~= unread.skip(e2));
    }
    if is_projection_too_large(crs, proof.p.as_slice()) {
        return Ok(VerifyRound::Decided(false));
    }
    let psi_seed = verifier_state.verifier_message();
    let m3 = to_bytes(proof.b_agg.as_slice());
    let ghost e3 = e2 + m3@.len() as int;
    match verifier_state.prover_message(m3.as_slice()) {
        Ok(()) => {},
        Err(e) => {
            return refuse(e);
        },
    }
    proof {
        assert(unread.skip(e2).skip(m3@.len() as int) =~= unread.skip(e3));
    }
    let phi_seed = verifier_state.verifier_message();
    let m4 = to_bytes(proof.u_2.as_slice());
    let ghost e4 = e3 + m4@.len() as int;
    match verifier_state.prover_message(m4.as_slice()) {
        Ok(()) => {},
        Err(e) => {
            return refuse(e);
        },
    }
    proof {
        assert(unread.skip(e3).skip(m4@.len() as int) =~= unread.skip(e4));
    }
    let c_seed = verifier_state.verifier_message();
    let c = generate_labrador_challenges(&c_seed, crs.r);
    match check_openings(crs, proof, constraint, c.as_slice()) {
        Err(e) => Err(e),
        Ok(false) => Ok(VerifyRound::Decided(false)),
        Ok(true) => {
            let g = recompose_terms(crs, proof.G_flat.as_slice());
            Ok(VerifyRound::Sample(FoldCheck { psi_seed, phi_seed, c, g }))
        },
    }
}

/// The last step of the verifier, with the sampled weights and vectors.
pub fn fold_verify_finish(
    crs: &LabradorCRS,
    proof: &LabradorProof,
    constraint: &ConstraintSystem,
    check: &FoldCheck,
    psi: &[Zq],
    phi: &[Zq],
) -> (res: Result<bool, GreyhoundError>)
    requires
        crs.countable(),
    ensures
        res == sampled_checks(
            *crs,
            *proof,
            constraint@,
            rqs(check.c@),
            rqs(check.g@),
            zqs(psi@),
            zqs(phi@),
        ),
{
    let weights = match pack_scalars(psi) {
        Some(w) => w,
        None => {
            return Err(GreyhoundError::InvalidDimensions);
        },
    };
    let b_agg = match device_ntt_matmul(
        weights.as_slice(),
        crs.num_aggregs,
        check.g.len(),
        check.g.as_slice(),
    ) {
        Ok(out) => out,
        Err(e) => {
            return Err(e);
        },
    };
    if !poly_vecs_equal(b_agg.as_slice(), proof.b_agg.as_slice()) {
        return Ok(false);
    }
    let z = proof.z_folded.as_slice();
    let n_full: usize = match constraint.checked_len() {
        Some(n) => n,
        None => {
            assert(z.len() <= usize::MAX);
            return Err(GreyhoundError::InvalidDimensions);
        },
    };
    if proof.H_flat.len() != crs.d_cols() || z.len() != n_full || check.c.len() != crs.r {
        return Err(GreyhoundError::InvalidDimensions);
    }
    let vectors = match pack_scalars(phi) {
        Some(v) => v,
        None => {
            return Err(GreyhoundError::InvalidDimensions);
        },
    };
    let phi_z = match matmul_fold(check.c.as_slice(), vectors.as_slice(), n_full) {
        Ok(out) => out,
        Err(e) => {
            return Err(e);
        },
    };
    let phi_dot_z = dot_product_host(phi_z.as_slice(), z);
    let pairs: usize = pair_count(crs.r);
    proof {
        assert(pairs * crs.t1 == crs.d_width()) by (nonlinear_arith)
            requires
                pairs == crs.pairs(),
                crs.d_width() == crs.t1 * crs.pairs(),
        ;
        lemma_lower_count(crs.r as int);
    }
    let h = recompose_digit_major(proof.H_flat.as_slice(), pairs, crs.t1, crs.b1);
    let sum_cc_h = lower_quadratic_form(check.c.as_slice(), h.as_slice());
    let two_phi_dot_z = add_poly(&phi_dot_z, &phi_dot_z);
    Ok(poly_equal(&two_phi_dot_z, &sum_cc_h))
}

/// The verdict of the last step, with the sampled weights and vectors: sizes that do not fit are
/// a rejection, as they are in the first step.
pub fn labrador_verify_finish(
    crs: &LabradorCRS,
    proof: &LabradorProof,
    constraint: &ConstraintSystem,
    check: &FoldCheck,
    psi: &[Zq],
    phi: &[Zq],
) -> (b: bool)
    requires
        crs.countable(),
    ensures
        b == (sampled_checks(
            *crs,
            *proof,
            constraint@,
            rqs(check.c@),
            rqs(check.g@),
            zqs(psi@),
            zqs(phi@),
        ) == Ok::<bool, GreyhoundError>(true)),
{
    match fold_verify_finish(crs, proof, constraint, check, psi, phi) {
        Ok(b) => b,
        Err(_) => false,
    }
}

} // verus!
