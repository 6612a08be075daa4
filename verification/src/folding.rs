//! The row-folding round: many witness vectors are committed to and folded into one. Digits,
//! projections and sampled vectors come from outside, so the round is a sequence of steps, each
//! of which says what it needs before the next.
use vstd::prelude::*;
use vstd::slice::slice_subrange;

use crate::bytes::{
    lemma_rqs_bytes_len, lemma_scalars_bytes_len, polys_bytes, scalars_bytes, to_bytes,
    zqs_to_bytes,
};
use crate::challenge::{drawn_challenges, generate_labrador_challenges};
use crate::error::GreyhoundError;
use crate::folding_laws::first_commitment_covers_both;
use crate::labrador::{ConstraintSystem, LabradorCRS, LabradorProof, LabradorWitness, Relation};
use crate::layout::{
    flat_columns, flatten_columns, lower_rows, pack_scalars, packed, symmetric_sums, transpose,
    transposed, upper_rows, upper_triangle,
};
use crate::linalg::{
    device_ntt_matmul, fold_rows, mat_mul_transposed, mat_vec, matmul_fits, matmul_fold,
    matmul_transposed, vec_add, vec_add_host,
};
use crate::poly::{rqs, zqs, PolyRing};
use crate::rq::{rq_add, rq_dot, Rq};
use crate::sponge::{ProverState, Transcript};
use crate::zq::Zq;

verus! {

/// The number of projections of a witness.
pub const PROJECTIONS: usize = 256;

/// There is one witness vector for each of `r` rows, each has a witness's full length, and the
/// inner commitment matrix fits the last part of them.
pub open spec fn rows_shaped(
    crs: LabradorCRS,
    rows: Seq<Vec<PolyRing>>,
    constraint: Relation,
) -> bool {
    &&& crs.r > 0 && crs.k > 0 && constraint.n_s > 0
    &&& rows.len() == crs.r
    &&& forall|i: int| 0 <= i < rows.len() ==> (#[trigger] rows[i])@.len() == constraint.witness_len()
    &&& constraint.A_ajtai.len() == crs.k * constraint.n_s
}

/// All witness vectors, one after the other.
pub open spec fn flat_rows(rows: Seq<Vec<PolyRing>>, constraint: Relation) -> Seq<Rq> {
    flat_columns(rows, 0, constraint.witness_len())
}

/// The inner commitments: `k` entries for each witness vector, made from its last part.
pub open spec fn inner_commitments(
    crs: LabradorCRS,
    rows: Seq<Vec<PolyRing>>,
    constraint: Relation,
) -> Seq<Rq> {
    transpose(
        mat_mul_transposed(
            constraint.A_ajtai,
            crs.k as int,
            flat_columns(rows, constraint.n_w + constraint.n_t, constraint.witness_len()),
            crs.r as int,
            constraint.n_s,
        ),
        crs.k as int,
        crs.r as int,
    )
}

/// The quadratic garbage terms: the inner products of witness vectors `i <= j`.
pub open spec fn quadratic_terms(
    crs: LabradorCRS,
    rows: Seq<Vec<PolyRing>>,
    constraint: Relation,
) -> Seq<Rq> {
    let s = flat_rows(rows, constraint);
    let r = crs.r as int;
    upper_rows(mat_mul_transposed(s, r, s, r, constraint.witness_len()), r, r)
}

/// The linear garbage terms: for `j <= i`, the inner product of vector `i` of `phi` and witness
/// vector `j` plus the one of vector `j` of `phi` and witness vector `i`.
pub open spec fn linear_terms(
    crs: LabradorCRS,
    rows: Seq<Vec<PolyRing>>,
    constraint: Relation,
    phi: Seq<Rq>,
) -> Seq<Rq> {
    let s = flat_rows(rows, constraint);
    let r = crs.r as int;
    lower_rows(mat_mul_transposed(phi, r, s, r, constraint.witness_len()), r, r)
}

/// The outer commitment to digits of inner commitments and of quadratic garbage terms.
pub open spec fn first_commitment(crs: LabradorCRS, t_flat: Seq<Rq>, g_flat: Seq<Rq>) -> Seq<Rq> {
    vec_add(
        mat_vec(rqs(crs.B@), crs.k1 as int, crs.b_width(), t_flat),
        mat_vec(rqs(crs.C@), crs.k2 as int, crs.c_width(), g_flat),
    )
}

/// Both matrices of the first outer commitment fit, and the second has no fewer rows.
pub open spec fn first_commitment_fits(crs: LabradorCRS, t_len: int, g_len: int) -> bool {
    &&& matmul_fits(crs.B@.len() as int, crs.k1 as int, crs.b_width(), t_len)
    &&& matmul_fits(crs.C@.len() as int, crs.k2 as int, crs.c_width(), g_len)
    &&& crs.k1 <= crs.k2
}

/// The four challenges of a round: for the projection, for the aggregation, for the linear
/// garbage terms and for the folding, each drawn after a message.
pub struct FoldSeeds {
    pub pi: Seq<u8>,
    pub psi: Seq<u8>,
    pub phi: Seq<u8>,
    pub c: Seq<u8>,
}

/// The transcript after `message` and one challenge.
pub open spec fn exchange(t: Transcript, message: Seq<u8>) -> Transcript {
    t.absorb(message).draw()
}

/// The challenges that answer four messages in turn.
pub open spec fn fold_seeds(
    t: Transcript,
    m1: Seq<u8>,
    m2: Seq<u8>,
    m3: Seq<u8>,
    m4: Seq<u8>,
) -> FoldSeeds {
    let t1 = exchange(t, m1);
    let t2 = exchange(t1, m2);
    let t3 = exchange(t2, m3);
    FoldSeeds {
        pi: t.absorb(m1).challenge(),
        psi: t1.absorb(m2).challenge(),
        phi: t2.absorb(m3).challenge(),
        c: t3.absorb(m4).challenge(),
    }
}

/// The first step of the prover. The `k` inner commitments of each witness vector are to be
/// decomposed in base `b1` with `t1` digits, and the quadratic garbage terms in base `b2` with
/// `t2` digits.
pub struct FoldStart {
    /// Inner commitments.
    pub t: Vec<PolyRing>,
    /// Quadratic garbage terms.
    pub g: Vec<PolyRing>,
}

/// The second step. The witness vectors are to be projected with the seed.
pub struct FoldProjection {
    /// Quadratic garbage terms.
    pub g: Vec<PolyRing>,
    /// Digits of the inner commitments.
    pub t_flat: Vec<PolyRing>,
    /// Digits of the quadratic garbage terms.
    pub g_flat: Vec<PolyRing>,
    /// First outer commitment.
    pub u_1: Vec<PolyRing>,
    /// Seed of the projection.
    pub seed: [u8; 32],
}

/// The third step. Coefficients of `num_aggregs` weights for each quadratic garbage term are to
/// be sampled with the seed.
pub struct FoldAggregation {
    /// What came before.
    pub before: FoldProjection,
    /// Projections.
    pub p: Vec<Zq>,
    /// Seed of the weights.
    pub seed: [u8; 32],
}

/// The fourth step. Coefficients of a vector for each witness vector are to be sampled with the
/// seed.
pub struct FoldLinear {
    /// What came before.
    pub before: FoldAggregation,
    /// Aggregated quadratic garbage terms.
    pub b_agg: Vec<PolyRing>,
    /// Seed of the vectors.
    pub seed: [u8; 32],
}

/// The fifth step. The linear garbage terms are to be decomposed in base `b1` with `t1` digits.
pub struct FoldClose {
    /// What came before.
    pub before: FoldLinear,
    /// Linear garbage terms.
    pub h: Vec<PolyRing>,
}

/// What the first step of the prover consists of.
pub open spec fn is_fold_start(
    step: FoldStart,
    crs: LabradorCRS,
    rows: Seq<Vec<PolyRing>>,
    rel: Relation,
) -> bool {
    &&& rqs(step.t@) == inner_commitments(crs, rows, rel)
    &&& rqs(step.g@) == quadratic_terms(crs, rows, rel)
}

/// What the second step consists of, for the transcript before it.
pub open spec fn is_fold_projection(
    next: FoldProjection,
    crs: LabradorCRS,
    step: FoldStart,
    t_flat: Vec<PolyRing>,
    g_flat: Vec<PolyRing>,
    t: Transcript,
) -> bool {
    let u_1 = first_commitment(crs, rqs(t_flat@), rqs(g_flat@));
    &&& next.g == step.g && next.t_flat == t_flat && next.g_flat == g_flat
    &&& rqs(next.u_1@) == u_1
    &&& next.seed@ == t.absorb(polys_bytes(u_1)).challenge()
}

/// What the third step consists of, for the transcript before it.
pub open spec fn is_fold_aggregation(
    next: FoldAggregation,
    step: FoldProjection,
    p: Vec<Zq>,
    t: Transcript,
) -> bool {
    &&& next.before == step && next.p == p
    &&& next.seed@ == t.absorb(scalars_bytes(zqs(p@))).challenge()
}

/// What the fourth step consists of, for the transcript before it.
pub open spec fn is_fold_linear(
    next: FoldLinear,
    crs: LabradorCRS,
    step: FoldAggregation,
    psi: Seq<int>,
    t: Transcript,
) -> bool {
    let g = rqs(step.before.g@);
    let b_agg = mat_vec(packed(psi), crs.num_aggregs as int, g.len() as int, g);
    &&& next.before == step
    &&& rqs(next.b_agg@) == b_agg
    &&& next.seed@ == t.absorb(polys_bytes(b_agg)).challenge()
}

/// What the fifth step consists of.
pub open spec fn is_fold_close(
    next: FoldClose,
    crs: LabradorCRS,
    rows: Seq<Vec<PolyRing>>,
    rel: Relation,
    step: FoldLinear,
    phi: Seq<int>,
) -> bool {
    next.before == step && rqs(next.h@) == linear_terms(crs, rows, rel, packed(phi))
}

/// The proof that the last step gives, for the transcript before it.
pub open spec fn is_fold_proof(
    proof: LabradorProof,
    crs: LabradorCRS,
    rows: Seq<Vec<PolyRing>>,
    rel: Relation,
    step: FoldClose,
    h_flat: Vec<PolyRing>,
    t: Transcript,
) -> bool {
    let u_2 = mat_vec(rqs(crs.D_mat@), crs.k1 as int, crs.d_width(), rqs(h_flat@));
    let seed = t.absorb(polys_bytes(u_2)).challenge();
    &&& proof.u_1 == step.before.before.before.u_1
    &&& proof.p == step.before.before.p
    &&& proof.b_agg == step.before.b_agg
    &&& rqs(proof.u_2@) == u_2
    &&& rqs(proof.z_folded@) == fold_rows(
        drawn_challenges(seed, crs.r as int).0,
        flat_rows(rows, rel),
        rel.witness_len(),
    )
    &&& proof.t_flat == step.before.before.before.t_flat
    &&& proof.G_flat == step.before.before.before.g_flat
    &&& proof.H_flat == h_flat
}

/// Whether the witness vectors have the right shape.
fn are_rows_shaped(
    crs: &LabradorCRS,
    rows: &Vec<Vec<PolyRing>>,
    constraint: &ConstraintSystem,
) -> (res: bool)
    ensures
        res == rows_shaped(*crs, rows@, constraint@),
{
    if crs.r == 0 || crs.k == 0 || constraint.n_s == 0 || rows.len() != crs.r {
        return false;
    }
    let n: usize = match constraint.checked_len() {
        Some(n) => n,
        None => {
            assert(rows@[0].len() <= usize::MAX);
            return false;
        },
    };
    for i in 0..rows.len()
        invariant
            n == constraint@.witness_len(),
            forall|j: int| 0 <= j < i ==> (#[trigger] rows@[j])@.len() == n,
    {
        if rows[i].len() != n {
            return false;
        }
    }
    crate::linalg::is_product(constraint.A_ajtai.len(), crs.k, constraint.n_s)
}

/// The first step of the prover: the inner commitments and the quadratic garbage terms.
pub fn fold_start(crs: &LabradorCRS, witness: &LabradorWitness, constraint: &ConstraintSystem) -> (res:
    Result<FoldStart, GreyhoundError>)
    ensures
        res is Ok == rows_shaped(*crs, witness.s@, constraint@),
        res is Ok == (crs.r > 0 && crs.k > 0 && constraint.n_s > 0 && witness.s@.len() == crs.r && (
        forall|i: int|
            0 <= i < witness.s@.len() ==> (#[trigger] witness.s@[i])@.len() == constraint.n_w
                + constraint.n_t + constraint.n_s) && constraint.A_ajtai@.len() == crs.k
            * constraint.n_s),
        res matches Err(e) ==> e == GreyhoundError::InvalidDimensions,
        res matches Ok(step) ==> is_fold_start(step, *crs, witness.s@, constraint@),
{
    if !are_rows_shaped(crs, &witness.s, constraint) {
        return Err(GreyhoundError::InvalidDimensions);
    }
    let r: usize = crs.r;
    assert(witness.s@[0].len() == constraint@.witness_len());
    let offset: usize = constraint.n_w + constraint.n_t;
    let n_full: usize = offset + constraint.n_s;
    let s_last = flatten_columns(&witness.s, offset, n_full);
    let rows_t = match matmul_transposed(
        constraint.A_ajtai.as_slice(),
        crs.k,
        s_last.as_slice(),
        r,
        constraint.n_s,
    ) {
        Ok(out) => out,
        Err(e) => {
            return Err(e);
        },
    };
    let t = transposed(rows_t.as_slice(), crs.k, r);
    let s_full = flatten_columns(&witness.s, 0, n_full);
    let products = match matmul_transposed(s_full.as_slice(), r, s_full.as_slice(), r, n_full) {
        Ok(out) => out,
        Err(e) => {
            return Err(e);
        },
    };
    let g = upper_triangle(products.as_slice(), r);
    Ok(FoldStart { t, g })
}

/// The second step of the prover: commits to the digits and draws the seed of the projection.
pub fn fold_commit(
    crs: &LabradorCRS,
    step: FoldStart,
    t_flat: Vec<PolyRing>,
    g_flat: Vec<PolyRing>,
    prover_state: &mut ProverState,
) -> (res: Result<FoldProjection, GreyhoundError>)
    requires
        crs.countable(),
    ensures
        res is Ok == first_commitment_fits(*crs, t_flat@.len() as int, g_flat@.len() as int),
        res matches Err(e) ==> e == GreyhoundError::InvalidDimensions && final(prover_state)@
            == old(prover_state)@,
        res matches Ok(next) ==> {
            &&& is_fold_projection(next, *crs, step, t_flat, g_flat, old(prover_state)@)
            &&& next.u_1@.len() == crs.k1
            &&& forall|i: int|
                0 <= i < crs.k1 ==> (#[trigger] next.u_1@[i])@ == rq_add(
                    rq_dot(
                        rqs(crs.B@).subrange(
                            i * (crs.t1 * crs.r * crs.k),
                            i * (crs.t1 * crs.r * crs.k) + crs.t1 * crs.r * crs.k,
                        ),
                        rqs(t_flat@),
                    ),
                    rq_dot(
                        rqs(crs.C@).subrange(
                            i * (crs.t2 * (crs.r * (crs.r + 1) / 2)),
                            i * (crs.t2 * (crs.r * (crs.r + 1) / 2)) + crs.t2 * (crs.r * (crs.r + 1)
                                / 2),
                        ),
                        rqs(g_flat@),
                    ),
                )
            &&& final(prover_state)@ == exchange(old(prover_state)@, polys_bytes(rqs(next.u_1@)))
        },
{
    let part1 = match device_ntt_matmul(
        crs.B.as_slice(),
        crs.k1,
        crs.b_cols(),
        t_flat.as_slice(),
    ) {
        Ok(out) => out,
        Err(e) => {
            return Err(e);
        },
    };
    let part2 = match device_ntt_matmul(
        crs.C.as_slice(),
        crs.k2,
        crs.c_cols(),
        g_flat.as_slice(),
    ) {
        Ok(out) => out,
        Err(e) => {
            return Err(e);
        },
    };
    if crs.k2 < crs.k1 {
        return Err(GreyhoundError::InvalidDimensions);
    }
    let u_1 = vec_add_host(part1.as_slice(), slice_subrange(part2.as_slice(), 0, crs.k1));
    assert(rqs(u_1@) =~= first_commitment(*crs, rqs(t_flat@), rqs(g_flat@)));
    let bytes = to_bytes(u_1.as_slice());
    proof {
        assert forall|i: int| 0 <= i < crs.k1 implies (#[trigger] u_1@[i])@ == first_commitment(
            *crs,
            rqs(t_flat@),
            rqs(g_flat@),
        )[i] by {
            assert(rqs(u_1@)[i] == u_1@[i]@);
        }
        assert forall|i: int| 0 <= i < crs.k1 implies #[trigger] first_commitment(
            *crs,
            rqs(t_flat@),
            rqs(g_flat@),
        )[i] == rq_add(
            rq_dot(
                rqs(crs.B@).subrange(i * crs.b_width(), i * crs.b_width() + crs.b_width()),
                rqs(t_flat@),
            ),
            rq_dot(
                rqs(crs.C@).subrange(i * crs.c_width(), i * crs.c_width() + crs.c_width()),
                rqs(g_flat@),
            ),
        ) by {
            first_commitment_covers_both(*crs, rqs(t_flat@), rqs(g_flat@), i);
        }
        lemma_rqs_bytes_len(u_1@);
    }
    prover_state.prover_message(bytes.as_slice());
    let seed = prover_state.verifier_message();
    Ok(FoldProjection { g: step.g, t_flat, g_flat, u_1, seed })
}

/// The third step of the prover: sends the projections, of which there are `PROJECTIONS`, and
/// draws the seed of the weights.
pub fn fold_project(step: FoldProjection, p: Vec<Zq>, prover_state: &mut ProverState) -> (next:
    FoldAggregation)
    requires
        p@.len() == PROJECTIONS,
    ensures
        is_fold_aggregation(next, step, p, old(prover_state)@),
        final(prover_state)@ == exchange(old(prover_state)@, scalars_bytes(zqs(p@))),
{
    let bytes = zqs_to_bytes(p.as_slice());
    proof {
        lemma_scalars_bytes_len(zqs(p@));
    }
    prover_state.prover_message(bytes.as_slice());
    let seed = prover_state.verifier_message();
    FoldAggregation { before: step, p, seed }
}

/// The number of coefficients of `rows * cols` ring elements; `None` if it cannot be counted.
pub fn coefficient_count(rows: usize, cols: usize) -> (r: Option<usize>)
    ensures
        r is Some == (rows * cols * 64 <= usize::MAX),
        r matches Some(n) ==> n == rows * cols * 64,
{
    match rows.checked_mul(cols) {
        Some(n) => n.checked_mul(64),
        None => None,
    }
}

/// The weights with the given coefficients fit a number of terms.
pub open spec fn weights_fit(scalars: int, rows: int, terms: int) -> bool {
    scalars % 64 == 0 && matmul_fits(scalars / 64, rows, terms, terms)
}

/// The fourth step of the prover: aggregates the quadratic garbage terms with the sampled
/// weights and draws the seed of the vectors.
pub fn fold_aggregate(
    crs: &LabradorCRS,
    step: FoldAggregation,
    psi: &[Zq],
    prover_state: &mut ProverState,
) -> (res: Result<FoldLinear, GreyhoundError>)
    ensures
        res is Ok == weights_fit(
            psi@.len() as int,
            crs.num_aggregs as int,
            step.before.g@.len() as int,
        ),
        res is Ok == (crs.num_aggregs > 0 && step.before.g@.len() > 0 && psi@.len() % 64 == 0
            && psi@.len() / 64 == crs.num_aggregs * step.before.g@.len()),
        res matches Err(e) ==> e == GreyhoundError::InvalidDimensions && final(prover_state)@
            == old(prover_state)@,
        res matches Ok(next) ==> {
            &&& is_fold_linear(next, *crs, step, zqs(psi@), old(prover_state)@)
            &&& final(prover_state)@ == exchange(old(prover_state)@, polys_bytes(rqs(next.b_agg@)))
        },
{
    let weights = match pack_scalars(psi) {
        Some(w) => w,
        None => {
            return Err(GreyhoundError::InvalidDimensions);
        },
    };
    let b_agg = match device_ntt_matmul(
        weights.as_slice(),
        crs.num_aggregs,
        step.before.g.len(),
        step.before.g.as_slice(),
    ) {
        Ok(out) => out,
        Err(e) => {
            return Err(e);
        },
    };
    let bytes = to_bytes(b_agg.as_slice());
    proof {
        lemma_rqs_bytes_len(b_agg@);
    }
    prover_state.prover_message(bytes.as_slice());
    let seed = prover_state.verifier_message();
    Ok(FoldLinear { before: step, b_agg, seed })
}

/// The coefficients are those of one vector for each of `r` rows of length `n`.
pub open spec fn vectors_fit(scalars: int, r: int, n: int) -> bool {
    scalars % 64 == 0 && scalars / 64 == r * n
}

/// The fifth step of the prover: the linear garbage terms for the sampled vectors.
pub fn fold_linear(
    crs: &LabradorCRS,
    witness: &LabradorWitness,
    constraint: &ConstraintSystem,
    step: FoldLinear,
    phi: &[Zq],
) -> (res: Result<FoldClose, GreyhoundError>)
    ensures
        res is Ok == (rows_shaped(*crs, witness.s@, constraint@) && vectors_fit(
            phi@.len() as int,
            crs.r as int,
            constraint@.witness_len(),
        )),
        res matches Ok(_) ==> phi@.len() == 64 * (crs.r * (constraint.n_w + constraint.n_t
            + constraint.n_s)),
        res matches Err(e) ==> e == GreyhoundError::InvalidDimensions,
        res matches Ok(next) ==> is_fold_close(
            next,
            *crs,
            witness.s@,
            constraint@,
            step,
            zqs(phi@),
        ),
{
    if !are_rows_shaped(crs, &witness.s, constraint) {
        return Err(GreyhoundError::InvalidDimensions);
    }
    let vectors = match pack_scalars(phi) {
        Some(v) => v,
        None => {
            return Err(GreyhoundError::InvalidDimensions);
        },
    };
    assert(witness.s@[0].len() == constraint@.witness_len());
    let n_full: usize = constraint.n_w + constraint.n_t + constraint.n_s;
    let s_full = flatten_columns(&witness.s, 0, n_full);
    let products = match matmul_transposed(
        vectors.as_slice(),
        crs.r,
        s_full.as_slice(),
        crs.r,
        n_full,
    ) {
        Ok(out) => out,
        Err(e) => {
            return Err(e);
        },
    };
    let h = symmetric_sums(products.as_slice(), crs.r);
    Ok(FoldClose { before: step, h })
}

/// The last step of the prover: commits to the digits of the linear garbage terms, draws the
/// challenge and folds the witness vectors by it.
pub fn fold_finish(
    crs: &LabradorCRS,
    witness: &LabradorWitness,
    constraint: &ConstraintSystem,
    step: FoldClose,
    h_flat: Vec<PolyRing>,
    prover_state: &mut ProverState,
) -> (res: Result<LabradorProof, GreyhoundError>)
    requires
        crs.countable(),
    ensures
        res is Ok == (rows_shaped(*crs, witness.s@, constraint@) && matmul_fits(
            crs.D_mat@.len() as int,
            crs.k1 as int,
            crs.d_width(),
            h_flat@.len() as int,
        )),
        res matches Err(e) ==> e == GreyhoundError::InvalidDimensions && final(prover_state)@
            == old(prover_state)@,
        res matches Ok(proof) ==> {
            &&& is_fold_proof(
                proof,
                *crs,
                witness.s@,
                constraint@,
                step,
                h_flat,
                old(prover_state)@,
            )
            &&& final(prover_state)@ == exchange(old(prover_state)@, polys_bytes(rqs(proof.u_2@)))
            &&& proof.u_2@.len() == crs.k1
            &&& forall|i: int|
                0 <= i < crs.k1 ==> (#[trigger] proof.u_2@[i])@ == rq_dot(
                    rqs(crs.D_mat@).subrange(
                        i * (crs.t1 * (crs.r * (crs.r + 1) / 2)),
                        i * (crs.t1 * (crs.r * (crs.r + 1) / 2)) + crs.t1 * (crs.r * (crs.r + 1)
                            / 2),
                    ),
                    rqs(h_flat@),
                )
        },
{
    if !are_rows_shaped(crs, &witness.s, constraint) {
        return Err(GreyhoundError::InvalidDimensions);
    }
    let u_2 = match device_ntt_matmul(
        crs.D_mat.as_slice(),
        crs.k1,
        crs.d_cols(),
        h_flat.as_slice(),
    ) {
        Ok(out) => out,
        Err(e) => {
            return Err(e);
        },
    };
    let bytes = to_bytes(u_2.as_slice());
    proof {
        lemma_rqs_bytes_len(u_2@);
    }
    prover_state.prover_message(bytes.as_slice());
    let seed = prover_state.verifier_message();
    let c = generate_labrador_challenges(&seed, crs.r);
    assert(witness.s@[0].len() == constraint@.witness_len());
    let n_full: usize = constraint.n_w + constraint.n_t + constraint.n_s;
    let s_full = flatten_columns(&witness.s, 0, n_full);
    let z_folded = match matmul_fold(c.as_slice(), s_full.as_slice(), n_full) {
        Ok(out) => out,
        Err(e) => {
            return Err(e);
        },
    };
    let linear = step.before;
    let aggregation = linear.before;
    let projection = aggregation.before;
    Ok(
        LabradorProof {
            u_1: projection.u_1,
            p: aggregation.p,
            b_agg: linear.b_agg,
            u_2,
            z_folded,
            t_flat: projection.t_flat,
            G_flat: projection.g_flat,
            H_flat: h_flat,
        },
    )
}

} // verus!
