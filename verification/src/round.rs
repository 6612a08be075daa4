//! One round of the Labrador argument, and the prover and verifier around it.
use vstd::prelude::*;

use crate::error::GreyhoundError;
use crate::folding::{fold_start, is_fold_start, rows_shaped, FoldStart};
use crate::folding_check::{
    decision_of, fold_reading, fold_verify_start, RoundDecision, RoundReading, VerifyRound,
};
use crate::labrador::{
    verify_greyhound_pz, ConstraintSystem, LabradorCRS, LabradorProof, LabradorWitness, Relation,
};
use crate::norm::{vec_norm_sq, within_norm};
use crate::poly::rqs;
use crate::rq::Rq;
use crate::sponge::{
    pad_protocol_id, padded_name, ProverState, Transcript, VerifierState, MAX_CHALLENGES,
};

verus! {

/// What the first step of the prover returns: a proof, where the witness is sent as it is, or
/// the first step of a folding round.
pub enum ProveRound {
    /// The proof.
    Done(LabradorProof),
    /// The start of a folding round.
    Fold(FoldStart),
}

impl LabradorProof {
    /// Only the witness is in the proof: no message of a folding round is.
    pub open spec fn is_direct(self) -> bool {
        &&& self.u_1@.len() == 0
        &&& self.p@.len() == 0
        &&& self.b_agg@.len() == 0
        &&& self.u_2@.len() == 0
        &&& self.t_flat@.len() == 0
        &&& self.G_flat@.len() == 0
        &&& self.H_flat@.len() == 0
    }
}

/// The prover's first step. A witness for the linear relation becomes the proof itself, unless
/// it is too long; witness vectors start a folding round.
pub fn labrador_prove_oneround(
    crs: &LabradorCRS,
    witness: &LabradorWitness,
    constraint: &ConstraintSystem,
) -> (res: Result<ProveRound, GreyhoundError>)
    ensures
        witness.s@.len() == 0 ==> match res {
            Ok(ProveRound::Done(proof)) => proof.is_direct() && rqs(proof.z_folded@) == rqs(
                witness.z@,
            ) && vec_norm_sq(rqs(witness.z@)) <= crs.norm_bound_sq,
            Err(e) => e == GreyhoundError::WitnessNorm && vec_norm_sq(rqs(witness.z@))
                > crs.norm_bound_sq,
            _ => false,
        },
        witness.s@.len() > 0 ==> match res {
            Ok(ProveRound::Fold(step)) => {
                &&& rows_shaped(*crs, witness.s@, constraint@)
                &&& is_fold_start(step, *crs, witness.s@, constraint@)
            },
            Err(e) => e == GreyhoundError::InvalidDimensions && !rows_shaped(
                *crs,
                witness.s@,
                constraint@,
            ),
            _ => false,
        },
{
    if witness.s.len() == 0 {
        if !within_norm(witness.z.as_slice(), crs.norm_bound_sq) {
            return Err(GreyhoundError::WitnessNorm);
        }
        let z_folded = witness.z.clone();
        assert(rqs(z_folded@) =~= rqs(witness.z@));
        return Ok(
            ProveRound::Done(
                LabradorProof {
                    u_1: Vec::new(),
                    p: Vec::new(),
                    b_agg: Vec::new(),
                    u_2: Vec::new(),
                    z_folded,
                    t_flat: Vec::new(),
                    G_flat: Vec::new(),
                    H_flat: Vec::new(),
                },
            ),
        );
    }
    match fold_start(crs, witness, constraint) {
        Ok(step) => Ok(ProveRound::Fold(step)),
        Err(e) => Err(e),
    }
}

/// Whether a witness sent as it is is accepted: it has the right length, is not too long in
/// norm, and satisfies the linear relation.
pub open spec fn direct_outcome(crs: LabradorCRS, z: Seq<Rq>, constraint: Relation) -> Result<
    bool,
    GreyhoundError,
> {
    if z.len() != constraint.witness_len() || vec_norm_sq(z) > crs.norm_bound_sq {
        Ok(false)
    } else {
        constraint.outcome(crs.b as int, z)
    }
}

/// The verifier's first step.
pub open spec fn round_reading(
    crs: LabradorCRS,
    proof: LabradorProof,
    constraint: Relation,
    t: Transcript,
    unread: Seq<u8>,
) -> RoundReading {
    if proof.is_direct() {
        RoundReading {
            decision: match direct_outcome(crs, rqs(proof.z_folded@), constraint) {
                Ok(b) => Ok(RoundDecision::Decided(b)),
                Err(e) => Err(e),
            },
            transcript: t,
            read: 0,
        }
    } else {
        fold_reading(crs, proof, constraint, t, unread)
    }
}

/// A proof that sends its witness is judged by the witness alone: the verdict is the same for any
/// two transcripts, of which nothing is read and nothing is drawn.
pub proof fn direct_verdict_ignores_transcript(
    crs: LabradorCRS,
    proof: LabradorProof,
    constraint: Relation,
    t1: Transcript,
    unread1: Seq<u8>,
    t2: Transcript,
    unread2: Seq<u8>,
)
    requires
        proof.is_direct(),
    ensures
        round_reading(crs, proof, constraint, t1, unread1).decision == round_reading(
            crs,
            proof,
            constraint,
            t2,
            unread2,
        ).decision,
        round_reading(crs, proof, constraint, t1, unread1).transcript == t1,
        round_reading(crs, proof, constraint, t1, unread1).read == 0,
{
}

/// The verifier's first step.
pub fn labrador_verify_oneround(
    crs: &LabradorCRS,
    proof: &LabradorProof,
    verifier_state: &mut VerifierState,
    constraint: &ConstraintSystem,
) -> (res: Result<VerifyRound, GreyhoundError>)
    requires
        !proof.is_direct() ==> crs.countable() && old(verifier_state)@.drawn + 4
            <= MAX_CHALLENGES,
    ensures
        ({
            let reading = round_reading(
                *crs,
                *proof,
                constraint@,
                old(verifier_state)@,
                old(verifier_state).unread(),
            );
            &&& decision_of(res) == reading.decision
            &&& final(verifier_state)@ == reading.transcript
            &&& final(verifier_state).unread() == old(verifier_state).unread().skip(reading.read)
        }),
{
    if proof.u_1.len() == 0 && proof.p.len() == 0 && proof.b_agg.len() == 0 && proof.u_2.len() == 0
        && proof.t_flat.len() == 0 && proof.G_flat.len() == 0 && proof.H_flat.len() == 0 {
        assert(verifier_state.unread().skip(0) =~= verifier_state.unread());
        let z_len: usize = proof.z_folded.len();
        let fits = match constraint.checked_len() {
            Some(n) => z_len == n,
            None => false,
        };
        if !fits || !within_norm(proof.z_folded.as_slice(), crs.norm_bound_sq) {
            return Ok(VerifyRound::Decided(false));
        }
        return match verify_greyhound_pz(crs, proof.z_folded.as_slice(), constraint) {
            Ok(b) => Ok(VerifyRound::Decided(b)),
            Err(e) => Err(e),
        };
    }
    fold_verify_start(crs, proof, verifier_state, constraint)
}

/// The name of the protocol.
pub open spec fn labrador_name() -> Seq<char> {
    "labrador proof"@
}

/// The name of the session.
pub open spec fn labrador_session() -> Seq<char> {
    "labrador"@
}

/// The identifier of the argument in its transcript.
pub fn labrador_protocol_id() -> (r: [u8; 64])
    ensures
        r@ == padded_name(labrador_name()),
        r@ == padded_name("labrador proof"@),
{
    proof {
        reveal_strlit("labrador proof");
    }
    pad_protocol_id("labrador proof")
}

/// What the prover returns: a proof with its transcript, or a folding round to be continued with
/// the transcript's state.
pub enum LabradorProving {
    /// The proof and its transcript.
    Done(LabradorProof, Vec<u8>),
    /// The start of a folding round.
    Fold(FoldStart, ProverState),
}

/// Starts the argument on a fresh transcript.
pub fn labrador_prove(
    crs: &LabradorCRS,
    witness: &LabradorWitness,
    constraint: &ConstraintSystem,
) -> (res: Result<LabradorProving, GreyhoundError>)
    ensures
        witness.s@.len() == 0 ==> match res {
            Ok(LabradorProving::Done(proof, transcript)) => proof.is_direct() && rqs(
                proof.z_folded@,
            ) == rqs(witness.z@) && vec_norm_sq(rqs(witness.z@)) <= crs.norm_bound_sq
                && transcript@.len() == 0,
            Err(e) => e == GreyhoundError::WitnessNorm && vec_norm_sq(rqs(witness.z@))
                > crs.norm_bound_sq,
            _ => false,
        },
        witness.s@.len() > 0 ==> match res {
            Ok(LabradorProving::Fold(step, state)) => {
                &&& rows_shaped(*crs, witness.s@, constraint@)
                &&& is_fold_start(step, *crs, witness.s@, constraint@)
                &&& state@ == Transcript::start(padded_name(labrador_name()), labrador_session())
                &&& state@ == Transcript::start(padded_name("labrador proof"@), "labrador"@)
            },
            Err(e) => e == GreyhoundError::InvalidDimensions && !rows_shaped(
                *crs,
                witness.s@,
                constraint@,
            ),
            _ => false,
        },
{
    let prover_state = ProverState::new(labrador_protocol_id(), "labrador");
    match labrador_prove_oneround(crs, witness, constraint) {
        Ok(ProveRound::Done(proof)) => {
            let transcript = prover_state.narg_string();
            Ok(LabradorProving::Done(proof, transcript))
        },
        Ok(ProveRound::Fold(step)) => Ok(LabradorProving::Fold(step, prover_state)),
        Err(e) => Err(e),
    }
}

/// What the verifier decides on a fresh transcript: sizes that do not fit are a rejection.
pub open spec fn verification(
    crs: LabradorCRS,
    proof: LabradorProof,
    transcript: Seq<u8>,
    constraint: Relation,
) -> Result<RoundDecision, GreyhoundError> {
    let t = Transcript::start(padded_name(labrador_name()), labrador_session());
    match round_reading(crs, proof, constraint, t, transcript).decision {
        Err(GreyhoundError::InvalidDimensions) => Ok(RoundDecision::Decided(false)),
        decision => decision,
    }
}

/// Verifies an argument against its transcript.
pub fn labrador_verify(
    crs: &LabradorCRS,
    proof: &LabradorProof,
    transcript: &[u8],
    constraint: &ConstraintSystem,
) -> (res: Result<VerifyRound, GreyhoundError>)
    requires
        !proof.is_direct() ==> crs.countable(),
    ensures
        decision_of(res) == verification(*crs, *proof, transcript@, constraint@),
{
    let mut verifier_state = VerifierState::new(labrador_protocol_id(), "labrador", transcript);
    match labrador_verify_oneround(crs, proof, &mut verifier_state, constraint) {
        Err(GreyhoundError::InvalidDimensions) => Ok(VerifyRound::Decided(false)),
        res => res,
    }
}

} // verus!
