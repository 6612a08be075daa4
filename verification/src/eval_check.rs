//! The verifier of an evaluation.
use vstd::prelude::*;

use crate::commit::{CommitReturn, PublicParams};
use crate::error::GreyhoundError;
use crate::eval::{sigma_denominator, sigma_inverse_apply, unsigma};
use crate::fiat_shamir::{statement_bytes, statement_seed, FiatShamirGreyhound};
use crate::folding_check::{decision_of, RoundDecision, VerifyRound};
use crate::labrador::{ConstraintSystem, LabradorCRS};
use crate::params::{greyhound_params, greyhound_transcript_params, GreyhoundTranscriptParams};
use crate::poly::{constant_term, rqs, PolyRing};
use crate::prover::{evaluation_relation, relation_for, ProverProof};
use crate::round::{labrador_verify, verification};
use crate::rq::{rq_mul, Rq};
use crate::sponge::heard;
use crate::zq::{is_unit, zq_equal, Zq};

verus! {

/// The seed that the verifier recovers: that of the statement, which the proof's transcript must
/// start with.
pub open spec fn recovered_seed(
    p: GreyhoundTranscriptParams,
    u: Seq<Rq>,
    x: int,
    proof: ProverProof,
) -> Result<Seq<u8>, GreyhoundError> {
    let bytes = statement_bytes(p, u, x, proof.y@, rqs(proof.v@));
    match heard(proof.narg_transcript@, bytes) {
        Ok(()) => Ok(statement_seed(p, u, x, proof.y@, rqs(proof.v@))),
        Err(e) => Err(e),
    }
}

/// The first step of the verifier: the seed with which the challenge is to be sampled.
pub fn eval_verifier_seed_with_params(
    p: &GreyhoundTranscriptParams,
    commit_return: &CommitReturn,
    x_scalar: &Zq,
    proof: &ProverProof,
) -> (r: Result<[u8; 32], GreyhoundError>)
    ensures
        match r {
            Ok(seed) => recovered_seed(*p, rqs(commit_return.u@), x_scalar@, *proof)
                == Ok::<Seq<u8>, GreyhoundError>(seed@),
            Err(e) => recovered_seed(*p, rqs(commit_return.u@), x_scalar@, *proof)
                == Err::<Seq<u8>, GreyhoundError>(e),
        },
{
    let state = FiatShamirGreyhound::verifier_state(proof.narg_transcript.as_slice());
    FiatShamirGreyhound::verify_with_params(
        state,
        *p,
        commit_return.u.as_slice(),
        x_scalar,
        &proof.y,
        proof.v.as_slice(),
    )
}

/// What the verifier decides for a challenge: the transcript must be that of the statement, the
/// constant term of `y` must be the claimed value, and the argument must hold for `y` divided by
/// `sigma(x)`.
pub open spec fn evaluation_decision(
    p: GreyhoundTranscriptParams,
    pp: PublicParams,
    u: Seq<Rq>,
    x: int,
    proof: ProverProof,
    c: Seq<Rq>,
    lab_crs: LabradorCRS,
) -> Result<RoundDecision, GreyhoundError> {
    let seed = recovered_seed(p, u, x, proof);
    if seed == Err::<Seq<u8>, GreyhoundError>(GreyhoundError::TranscriptTooShort) {
        Err(GreyhoundError::TranscriptTooShort)
    } else if seed is Err || proof.y@[0] != proof.claimed_eval@ {
        Ok(RoundDecision::Decided(false))
    } else if !is_unit(sigma_denominator(x)) {
        Err(GreyhoundError::NotInvertible)
    } else {
        let target = rq_mul(unsigma(x), proof.y@);
        verification(
            lab_crs,
            proof.labrador_proof,
            proof.labrador_transcript@,
            relation_for(p, pp, u, x, rqs(proof.v@), target, c),
        )
    }
}

/// The linear relation that the argument in a proof must hold for; `None` if the transcript is
/// that of another statement, or if the constant term of `y` is not the claimed value.
pub fn eval_verifier_relation_with_params(
    p: &GreyhoundTranscriptParams,
    pp: &PublicParams,
    commit_return: &CommitReturn,
    x_scalar: &Zq,
    proof: &ProverProof,
    c: &[PolyRing],
) -> (r: Result<Option<ConstraintSystem>, GreyhoundError>)
    requires
        p.supported(),
    ensures
        ({
            let seed = recovered_seed(*p, rqs(commit_return.u@), x_scalar@, *proof);
            let short = Err::<Seq<u8>, GreyhoundError>(GreyhoundError::TranscriptTooShort);
            let consistent = seed is Ok && proof.y@[0] == proof.claimed_eval@;
            match r {
                Ok(None) => seed != short && !consistent,
                Ok(Some(constraint)) => consistent && is_unit(sigma_denominator(x_scalar@))
                    && constraint@ == relation_for(
                    *p,
                    *pp,
                    rqs(commit_return.u@),
                    x_scalar@,
                    rqs(proof.v@),
                    rq_mul(unsigma(x_scalar@), proof.y@),
                    rqs(c@),
                ),
                Err(GreyhoundError::TranscriptTooShort) => seed == short,
                Err(e) => e == GreyhoundError::NotInvertible && consistent && !is_unit(
                    sigma_denominator(x_scalar@),
                ),
            }
        }),
{
    match eval_verifier_seed_with_params(p, commit_return, x_scalar, proof) {
        Ok(_) => {},
        Err(GreyhoundError::TranscriptTooShort) => {
            return Err(GreyhoundError::TranscriptTooShort);
        },
        Err(_) => {
            return Ok(None);
        },
    }
    if !zq_equal(&constant_term(&proof.y), &proof.claimed_eval) {
        return Ok(None);
    }
    let target = match sigma_inverse_apply(&proof.y, x_scalar) {
        Ok(t) => t,
        Err(e) => {
            return Err(e);
        },
    };
    Ok(
        Some(
            evaluation_relation(
                p,
                pp,
                commit_return.u.as_slice(),
                x_scalar,
                proof.v.as_slice(),
                &target,
                c,
            ),
        ),
    )
}

/// The last step of the verifier, with the sampled challenge.
pub fn eval_verifier_with_params(
    p: &GreyhoundTranscriptParams,
    pp: &PublicParams,
    commit_return: &CommitReturn,
    x_scalar: &Zq,
    proof: &ProverProof,
    c: &[PolyRing],
    lab_crs: &LabradorCRS,
) -> (r: Result<VerifyRound, GreyhoundError>)
    requires
        p.supported(),
        !proof.labrador_proof.is_direct() ==> lab_crs.countable(),
    ensures
        decision_of(r) == evaluation_decision(
            *p,
            *pp,
            rqs(commit_return.u@),
            x_scalar@,
            *proof,
            rqs(c@),
            *lab_crs,
        ),
{
    match eval_verifier_relation_with_params(p, pp, commit_return, x_scalar, proof, c) {
        Ok(Some(constraint)) => labrador_verify(
            lab_crs,
            &proof.labrador_proof,
            proof.labrador_transcript.as_slice(),
            &constraint,
        ),
        Ok(None) => Ok(VerifyRound::Decided(false)),
        Err(e) => Err(e),
    }
}

/// The first step of the verifier with the parameters of the scheme.
pub fn eval_verifier_seed(commit_return: &CommitReturn, x_scalar: &Zq, proof: &ProverProof) -> (r:
    Result<[u8; 32], GreyhoundError>)
    ensures
        match r {
            Ok(seed) => recovered_seed(
                greyhound_params(),
                rqs(commit_return.u@),
                x_scalar@,
                *proof,
            ) == Ok::<Seq<u8>, GreyhoundError>(seed@),
            Err(e) => recovered_seed(
                greyhound_params(),
                rqs(commit_return.u@),
                x_scalar@,
                *proof,
            ) == Err::<Seq<u8>, GreyhoundError>(e),
        },
{
    eval_verifier_seed_with_params(&greyhound_transcript_params(), commit_return, x_scalar, proof)
}

/// The last step of the verifier with the parameters of the scheme.
pub fn eval_verifier(
    pp: &PublicParams,
    commit_return: &CommitReturn,
    x_scalar: &Zq,
    proof: &ProverProof,
    c: &[PolyRing],
    lab_crs: &LabradorCRS,
) -> (r: Result<VerifyRound, GreyhoundError>)
    requires
        !proof.labrador_proof.is_direct() ==> lab_crs.countable(),
    ensures
        decision_of(r) == evaluation_decision(
            greyhound_params(),
            *pp,
            rqs(commit_return.u@),
            x_scalar@,
            *proof,
            rqs(c@),
            *lab_crs,
        ),
{
    eval_verifier_with_params(
        &greyhound_transcript_params(),
        pp,
        commit_return,
        x_scalar,
        proof,
        c,
        lab_crs,
    )
}

} // verus!
