//! The prover of an evaluation.
use vstd::prelude::*;

use crate::commit::{CommitReturn, PublicParams};
use crate::error::GreyhoundError;
use crate::eval::{
    column_weights, entry_weights, evaluate_polynomial, poly_value, sigma, sigma_poly, weigh_chunks,
    weigh_columns, weigh_entries, weighted_chunks,
};
use crate::fiat_shamir::{statement_bytes, statement_seed, FiatShamirGreyhound};
use crate::labrador::{ConstraintSystem, LabradorCRS, LabradorProof, LabradorWitness, Relation};
use crate::linalg::{
    device_ntt_matmul, fold_rows, mat_mul_transposed, mat_vec, matmul_fold, matmul_transposed,
};
use crate::norm::vec_norm_sq;
use crate::params::{greyhound_params, greyhound_transcript_params, GreyhoundTranscriptParams};
use crate::poly::{constant_term, mul_poly, rqs, PolyRing};
use crate::round::{labrador_prove, LabradorProving};
use crate::rq::{rq_dot, rq_mul, rq_zero, Rq};
use crate::zq::{zq_equal, Zq};

verus! {

/// A proof that a committed polynomial has a value at a point.
pub struct ProverProof {
    /// The ring element whose constant term is the value.
    pub y: PolyRing,
    /// The value.
    pub claimed_eval: Zq,
    /// The commitment to the inner products.
    pub v: Vec<PolyRing>,
    /// The transcript of the evaluation proof.
    pub narg_transcript: Vec<u8>,
    /// The argument for the linear relation.
    pub labrador_proof: LabradorProof,
    /// The transcript of the argument.
    pub labrador_transcript: Vec<u8>,
}

/// The first step of the prover. The inner products are to be decomposed in base `2^b1` with
/// `delta` digits.
pub struct EvalStart {
    /// The ring element whose constant term is the value.
    pub y: PolyRing,
    /// The value.
    pub claimed_eval: Zq,
    /// `y` divided by `sigma(x)`.
    pub target: PolyRing,
    /// The inner products of the entry weights with the decomposed columns.
    pub w: Vec<PolyRing>,
}

/// The second step of the prover. A challenge is to be sampled with the seed: one ring element
/// for each column.
pub struct EvalCommitted {
    /// The ring element whose constant term is the value.
    pub y: PolyRing,
    /// The value.
    pub claimed_eval: Zq,
    /// `y` divided by `sigma(x)`.
    pub target: PolyRing,
    /// The decomposed inner products.
    pub w_hat: Vec<PolyRing>,
    /// The commitment to the inner products.
    pub v: Vec<PolyRing>,
    /// The transcript.
    pub narg_transcript: Vec<u8>,
    /// The seed of the challenge.
    pub seed: [u8; 32],
}

/// A copy of a vector of ring elements.
pub(crate) fn copy_polys(a: &[PolyRing]) -> (r: Vec<PolyRing>)
    ensures
        r@ == a@,
{
    let mut out: Vec<PolyRing> = Vec::new();
    for i in 0..a.len()
        invariant
            out@ == a@.take(i as int),
    {
        out.push(a[i]);
        assert(a@.take(i + 1) =~= a@.take(i as int).push(a@[i as int]));
    }
    assert(a@.take(a@.len() as int) =~= a@);
    out
}

/// The right-hand side of the linear relation.
pub open spec fn relation_target(u: Seq<Rq>, v: Seq<Rq>, target: Rq, nrows: int) -> Seq<Rq> {
    v + u + seq![target, rq_zero()] + Seq::new(nrows as nat, |i: int| rq_zero())
}

/// The linear relation for an evaluation proof.
pub open spec fn relation_for(
    p: GreyhoundTranscriptParams,
    pp: PublicParams,
    u: Seq<Rq>,
    x: int,
    v: Seq<Rq>,
    target: Rq,
    c: Seq<Rq>,
) -> Relation {
    Relation {
        a_eval: entry_weights(p, x),
        b_eval: column_weights(p, x),
        c_eval: c,
        sigma_inv_x: sigma(x),
        A_ajtai: rqs(pp.A@),
        B_commit: rqs(pp.B@),
        D_commit: rqs(pp.D@),
        h_target: relation_target(u, v, target, p.nrows as int),
        n_w: p.d_width(),
        n_t: p.b_width(),
        n_s: p.a_width(),
        n_commit: p.nrows as int,
    }
}

/// The linear relation for an evaluation proof.
pub fn evaluation_relation(
    p: &GreyhoundTranscriptParams,
    pp: &PublicParams,
    u: &[PolyRing],
    x: &Zq,
    v: &[PolyRing],
    target: &PolyRing,
    c: &[PolyRing],
) -> (cs: ConstraintSystem)
    requires
        p.supported(),
    ensures
        cs@ == relation_for(*p, *pp, rqs(u@), x@, rqs(v@), target@, rqs(c@)),
        rqs(cs.a_eval@) == entry_weights(*p, x@) && rqs(cs.b_eval@) == column_weights(*p, x@),
        cs.c_eval@ == c@ && cs.sigma_inv_x@ == sigma(x@),
        cs.A_ajtai@ == pp.A@ && cs.B_commit@ == pp.B@ && cs.D_commit@ == pp.D@,
        cs.n_w == p.delta * p.r && cs.n_t == p.nrows * p.delta * p.r && cs.n_s == p.delta0 * p.m,
        cs.n_commit == p.nrows,
        cs.h_target@.len() == v@.len() + u@.len() + 2 + p.nrows,
        cs.h_target@.take(v@.len() as int) == v@,
        cs.h_target@.subrange(v@.len() as int, (v@.len() + u@.len()) as int) == u@,
        cs.h_target@[(v@.len() + u@.len()) as int] == *target,
        forall|i: int|
            v@.len() + u@.len() < i < cs.h_target@.len() ==> (#[trigger] cs.h_target@[i])@
                == rq_zero(),
{
    let mut h_target = copy_polys(v);
    let mut u_copy = copy_polys(u);
    h_target.append(&mut u_copy);
    h_target.push(*target);
    h_target.push(PolyRing::zero());
    let ghost head = h_target@;
    assert(rqs(head) =~= rqs(v@) + rqs(u@) + seq![target@, rq_zero()]);
    for i in 0..p.nrows
        invariant
            head.len() == v@.len() + u@.len() + 2,
            h_target@.len() == head.len() + i,
            h_target@.take(head.len() as int) == head,
            forall|j: int|
                v@.len() + u@.len() < j < h_target@.len() ==> (#[trigger] h_target@[j])@
                    == rq_zero(),
            rqs(h_target@) =~= rqs(head) + Seq::new(i as nat, |i: int| rq_zero()),
    {
        let ghost before = h_target@;
        h_target.push(PolyRing::zero());
        assert(rqs(h_target@) =~= rqs(before).push(rq_zero()));
        assert(h_target@.take(head.len() as int) =~= before.take(head.len() as int));
    }
    proof {
        assert(h_target@.take(v@.len() as int) =~= head.take(v@.len() as int));
        assert(head.take(v@.len() as int) =~= v@);
        let (lo, hi) = (v@.len() as int, (v@.len() + u@.len()) as int);
        assert forall|i: int| 0 <= i < head.len() implies #[trigger] h_target@[i] == head[i] by {
            assert(h_target@.take(head.len() as int)[i] == h_target@[i]);
        }
        assert(h_target@.subrange(lo, hi) =~= u@);
    }
    ConstraintSystem {
        a_eval: weigh_entries(p, x),
        b_eval: weigh_columns(p, x),
        c_eval: copy_polys(c),
        sigma_inv_x: sigma_poly(x),
        A_ajtai: copy_polys(pp.A.as_slice()),
        B_commit: copy_polys(pp.B.as_slice()),
        D_commit: copy_polys(pp.D.as_slice()),
        h_target,
        n_w: p.d_cols(),
        n_t: p.b_cols(),
        n_s: p.a_cols(),
        n_commit: p.nrows as usize,
    }
}

/// The number of chunks that the evaluation takes into account.
pub open spec fn full_chunks(p: GreyhoundTranscriptParams) -> int {
    p.n as int / 64
}

/// Why the first step of the prover refuses its input, if it does: too few coefficients, a value
/// that is not the constant term of `y`, or columns of the wrong size.
pub open spec fn start_refusal(
    p: GreyhoundTranscriptParams,
    raw: Seq<u32>,
    s_len: int,
    x: int,
) -> Option<GreyhoundError> {
    if raw.len() < 64 * full_chunks(p) {
        Some(GreyhoundError::InvalidDimensions)
    } else if rq_mul(sigma(x), weighted_chunks(raw, x, full_chunks(p)))[0] != poly_value(raw, x) {
        Some(GreyhoundError::ClaimMismatch)
    } else if s_len != p.r * p.a_width() {
        Some(GreyhoundError::InvalidDimensions)
    } else {
        None
    }
}

/// The inner products of the entry weights with the decomposed columns.
pub open spec fn column_values(p: GreyhoundTranscriptParams, x: int, s: Seq<Rq>) -> Seq<Rq> {
    mat_mul_transposed(entry_weights(p, x), 1, s, p.r as int, p.a_width())
}

/// What the first step of the prover gives.
pub open spec fn is_start(
    step: EvalStart,
    p: GreyhoundTranscriptParams,
    raw: Seq<u32>,
    s: Seq<Rq>,
    x: int,
) -> bool {
    &&& step.target@ == weighted_chunks(raw, x, full_chunks(p))
    &&& step.y@ == rq_mul(sigma(x), step.target@)
    &&& step.claimed_eval@ == poly_value(raw, x)
    &&& step.claimed_eval@ == step.y@[0]
    &&& rqs(step.w@) == column_values(p, x, s)
}

/// The first step of the prover: the value, the ring element that holds it, and the inner
/// products.
pub fn eval_prover_start_with_params(
    p: &GreyhoundTranscriptParams,
    raw_f_coeffs: &[u32],
    commit_return: &CommitReturn,
    x_scalar: &Zq,
) -> (r: Result<EvalStart, GreyhoundError>)
    requires
        p.supported(),
    ensures
        match r {
            Ok(step) => start_refusal(
                *p,
                raw_f_coeffs@,
                commit_return.s@.len() as int,
                x_scalar@,
            ) is None && is_start(step, *p, raw_f_coeffs@, rqs(commit_return.s@), x_scalar@),
            Err(e) => start_refusal(
                *p,
                raw_f_coeffs@,
                commit_return.s@.len() as int,
                x_scalar@,
            ) == Some(e),
        },
{
    let n: usize = p.n as usize / 64;
    if raw_f_coeffs.len() < 64 * n {
        return Err(GreyhoundError::InvalidDimensions);
    }
    let claimed_eval = evaluate_polynomial(raw_f_coeffs, x_scalar);
    let target = weigh_chunks(raw_f_coeffs, x_scalar, n);
    let y = mul_poly(&sigma_poly(x_scalar), &target);
    if !zq_equal(&constant_term(&y), &claimed_eval) {
        return Err(GreyhoundError::ClaimMismatch);
    }
    let a_eval = weigh_entries(p, x_scalar);
    proof {
        assert(1 * p.a_width() == p.a_width());
    }
    match matmul_transposed(
        a_eval.as_slice(),
        1,
        commit_return.s.as_slice(),
        p.r as usize,
        p.a_cols(),
    ) {
        Ok(w) => Ok(EvalStart { y, claimed_eval, target, w }),
        Err(e) => Err(e),
    }
}

/// What the second step of the prover gives.
pub open spec fn is_committed(
    step: EvalCommitted,
    start: EvalStart,
    p: GreyhoundTranscriptParams,
    pp: PublicParams,
    u: Seq<Rq>,
    x: int,
    w_hat: Seq<Rq>,
) -> bool {
    let v = mat_vec(rqs(pp.D@), p.nrows as int, p.d_width(), w_hat);
    &&& step.y == start.y && step.claimed_eval == start.claimed_eval && step.target == start.target
    &&& rqs(step.w_hat@) == w_hat
    &&& rqs(step.v@) == v
    &&& step.narg_transcript@ == statement_bytes(p, u, x, start.y@, v)
    &&& step.seed@ == statement_seed(p, u, x, start.y@, v)
}

/// The second step of the prover: commits to the decomposed inner products and draws the seed of
/// the challenge.
pub fn eval_prover_commit_with_params(
    p: &GreyhoundTranscriptParams,
    pp: &PublicParams,
    commit_return: &CommitReturn,
    x_scalar: &Zq,
    start: EvalStart,
    w_hat: Vec<PolyRing>,
) -> (r: Result<EvalCommitted, GreyhoundError>)
    requires
        p.supported(),
    ensures
        r is Ok == (pp.D@.len() == p.nrows * p.d_width() && w_hat@.len() == p.d_width()),
        r matches Err(e) ==> e == GreyhoundError::InvalidDimensions,
        r matches Ok(step) ==> is_committed(
            step,
            start,
            *p,
            *pp,
            rqs(commit_return.u@),
            x_scalar@,
            rqs(w_hat@),
        ),
        r matches Ok(step) ==> step.v@.len() == p.nrows && forall|i: int|
            0 <= i < p.nrows ==> (#[trigger] step.v@[i])@ == rq_dot(
                rqs(pp.D@).subrange(i * p.d_width(), i * p.d_width() + p.d_width()),
                rqs(w_hat@),
            ),
{
    let v = match device_ntt_matmul(
        pp.D.as_slice(),
        p.nrows as usize,
        p.d_cols(),
        w_hat.as_slice(),
    ) {
        Ok(v) => v,
        Err(e) => {
            return Err(e);
        },
    };
    let mut prover_state = FiatShamirGreyhound::prover_state();
    let seed = FiatShamirGreyhound::prove_with_params(
        &mut prover_state,
        *p,
        commit_return.u.as_slice(),
        x_scalar,
        &start.y,
        v.as_slice(),
    );
    let narg_transcript = prover_state.narg_string();
    proof {
        let bytes = statement_bytes(*p, rqs(commit_return.u@), x_scalar@, start.y@, rqs(v@));
        assert(Seq::<u8>::empty() + bytes =~= bytes);
    }
    Ok(
        EvalCommitted {
            y: start.y,
            claimed_eval: start.claimed_eval,
            target: start.target,
            w_hat,
            v,
            narg_transcript,
            seed,
        },
    )
}

/// The witness for the linear relation: the decomposed inner products, the decomposed column
/// commitments, and the columns folded by the challenge.
pub open spec fn relation_witness(
    p: GreyhoundTranscriptParams,
    w_hat: Seq<Rq>,
    t_hat: Seq<Rq>,
    s: Seq<Rq>,
    c: Seq<Rq>,
) -> Seq<Rq> {
    w_hat + t_hat + fold_rows(c, s, p.a_width())
}

/// The sizes of the challenge and of the decomposed columns fit the parameters.
pub open spec fn folding_fits(p: GreyhoundTranscriptParams, c_len: int, s_len: int) -> bool {
    c_len == p.r && s_len == p.r * p.a_width()
}

/// The linear relation and the witness for it, with the columns folded by the challenge.
pub fn eval_prover_relation_with_params(
    p: &GreyhoundTranscriptParams,
    pp: &PublicParams,
    commit_return: &CommitReturn,
    x_scalar: &Zq,
    step: &EvalCommitted,
    c: &[PolyRing],
) -> (r: Result<(LabradorWitness, ConstraintSystem), GreyhoundError>)
    requires
        p.supported(),
    ensures
        r is Ok == folding_fits(*p, c@.len() as int, commit_return.s@.len() as int),
        r matches Err(e) ==> e == GreyhoundError::InvalidDimensions,
        r matches Ok((witness, constraint)) ==> {
            &&& witness.s@.len() == 0
            &&& rqs(witness.z@) == relation_witness(
                *p,
                rqs(step.w_hat@),
                rqs(commit_return.t_hat_concat@),
                rqs(commit_return.s@),
                rqs(c@),
            )
            &&& constraint@ == relation_for(
                *p,
                *pp,
                rqs(commit_return.u@),
                x_scalar@,
                rqs(step.v@),
                step.target@,
                rqs(c@),
            )
        },
{
    if c.len() != p.r as usize {
        return Err(GreyhoundError::InvalidDimensions);
    }
    let mut folded_s = match matmul_fold(c, commit_return.s.as_slice(), p.a_cols()) {
        Ok(out) => out,
        Err(e) => {
            return Err(e);
        },
    };
    let ghost folded = folded_s@;
    let mut z_full = copy_polys(step.w_hat.as_slice());
    let mut t_hat = copy_polys(commit_return.t_hat_concat.as_slice());
    z_full.append(&mut t_hat);
    z_full.append(&mut folded_s);
    assert(rqs(z_full@) =~= rqs(step.w_hat@) + rqs(commit_return.t_hat_concat@) + rqs(folded));
    let constraint = evaluation_relation(
        p,
        pp,
        commit_return.u.as_slice(),
        x_scalar,
        step.v.as_slice(),
        &step.target,
        c,
    );
    Ok((LabradorWitness { z: z_full, s: Vec::new() }, constraint))
}

/// The proof that the last step of the prover gives: what the earlier steps found, with the
/// witness sent as it is.
pub open spec fn is_proof(proof: ProverProof, step: EvalCommitted, z: Seq<Rq>) -> bool {
    &&& proof.y == step.y && proof.claimed_eval == step.claimed_eval
    &&& proof.v == step.v && proof.narg_transcript == step.narg_transcript
    &&& proof.labrador_proof.is_direct()
    &&& rqs(proof.labrador_proof.z_folded@) == z
    &&& proof.labrador_transcript@.len() == 0
}

impl EvalCommitted {
    /// The proof, once the linear relation has been proved.
    pub fn into_proof(self, labrador_proof: LabradorProof, labrador_transcript: Vec<u8>) -> (r:
        ProverProof)
        ensures
            r.y == self.y && r.claimed_eval == self.claimed_eval,
            r.v == self.v && r.narg_transcript == self.narg_transcript,
            r.labrador_proof == labrador_proof,
            r.labrador_transcript == labrador_transcript,
    {
        ProverProof {
            y: self.y,
            claimed_eval: self.claimed_eval,
            v: self.v,
            narg_transcript: self.narg_transcript,
            labrador_proof,
            labrador_transcript,
        }
    }
}

/// Why the last step of the prover refuses its input, if it does: sizes that do not fit, or a
/// witness that is too long.
pub open spec fn finish_refusal(
    p: GreyhoundTranscriptParams,
    c_len: int,
    s_len: int,
    z: Seq<Rq>,
    lab_crs: LabradorCRS,
) -> Option<GreyhoundError> {
    if !folding_fits(p, c_len, s_len) {
        Some(GreyhoundError::InvalidDimensions)
    } else if vec_norm_sq(z) > lab_crs.norm_bound_sq {
        Some(GreyhoundError::WitnessNorm)
    } else {
        None
    }
}

/// The last step of the prover: folds the columns by the challenge and proves the linear
/// relation.
pub fn eval_prover_with_params(
    p: &GreyhoundTranscriptParams,
    pp: &PublicParams,
    commit_return: &CommitReturn,
    x_scalar: &Zq,
    step: EvalCommitted,
    c: &[PolyRing],
    lab_crs: &LabradorCRS,
) -> (r: Result<ProverProof, GreyhoundError>)
    requires
        p.supported(),
    ensures
        ({
            let z = relation_witness(
                *p,
                rqs(step.w_hat@),
                rqs(commit_return.t_hat_concat@),
                rqs(commit_return.s@),
                rqs(c@),
            );
            let refusal = finish_refusal(
                *p,
                c@.len() as int,
                commit_return.s@.len() as int,
                z,
                *lab_crs,
            );
            match r {
                Ok(proof) => refusal is None && is_proof(proof, step, z),
                Err(e) => refusal == Some(e),
            }
        }),
{
    let (witness, constraint) = match eval_prover_relation_with_params(
        p,
        pp,
        commit_return,
        x_scalar,
        &step,
        c,
    ) {
        Ok(pair) => pair,
        Err(e) => {
            return Err(e);
        },
    };
    match labrador_prove(lab_crs, &witness, &constraint) {
        Ok(LabradorProving::Done(labrador_proof, labrador_transcript)) => Ok(
            step.into_proof(labrador_proof, labrador_transcript),
        ),
        Ok(LabradorProving::Fold(_, _)) => Err(GreyhoundError::InvalidDimensions),
        Err(e) => Err(e),
    }
}

/// The first step of the prover with the parameters of the scheme.
pub fn eval_prover_start(raw_f_coeffs: &[u32], commit_return: &CommitReturn, x_scalar: &Zq) -> (r:
    Result<EvalStart, GreyhoundError>)
    ensures
        ({
            let refusal = start_refusal(
                greyhound_params(),
                raw_f_coeffs@,
                commit_return.s@.len() as int,
                x_scalar@,
            );
            match r {
                Ok(step) => refusal is None && is_start(
                    step,
                    greyhound_params(),
                    raw_f_coeffs@,
                    rqs(commit_return.s@),
                    x_scalar@,
                ),
                Err(e) => refusal == Some(e),
            }
        }),
{
    eval_prover_start_with_params(
        &greyhound_transcript_params(),
        raw_f_coeffs,
        commit_return,
        x_scalar,
    )
}

/// The second step of the prover with the parameters of the scheme.
pub fn eval_prover_commit(
    pp: &PublicParams,
    commit_return: &CommitReturn,
    x_scalar: &Zq,
    start: EvalStart,
    w_hat: Vec<PolyRing>,
) -> (r: Result<EvalCommitted, GreyhoundError>)
    ensures
        ({
            let p = greyhound_params();
            &&& r is Ok == (pp.D@.len() == p.nrows * p.d_width() && w_hat@.len() == p.d_width())
            &&& r matches Err(e) ==> e == GreyhoundError::InvalidDimensions
            &&& r matches Ok(step) ==> is_committed(
                step,
                start,
                p,
                *pp,
                rqs(commit_return.u@),
                x_scalar@,
                rqs(w_hat@),
            )
        }),
{
    eval_prover_commit_with_params(
        &greyhound_transcript_params(),
        pp,
        commit_return,
        x_scalar,
        start,
        w_hat,
    )
}

/// The last step of the prover with the parameters of the scheme.
pub fn eval_prover(
    pp: &PublicParams,
    commit_return: &CommitReturn,
    x_scalar: &Zq,
    step: EvalCommitted,
    c: &[PolyRing],
    lab_crs: &LabradorCRS,
) -> (r: Result<ProverProof, GreyhoundError>)
    ensures
        ({
            let p = greyhound_params();
            let z = relation_witness(
                p,
                rqs(step.w_hat@),
                rqs(commit_return.t_hat_concat@),
                rqs(commit_return.s@),
                rqs(c@),
            );
            let refusal = finish_refusal(
                p,
                c@.len() as int,
                commit_return.s@.len() as int,
                z,
                *lab_crs,
            );
            match r {
                Ok(proof) => refusal is None && is_proof(proof, step, z),
                Err(e) => refusal == Some(e),
            }
        }),
{
    eval_prover_with_params(
        &greyhound_transcript_params(),
        pp,
        commit_return,
        x_scalar,
        step,
        c,
        lab_crs,
    )
}

} // verus!
