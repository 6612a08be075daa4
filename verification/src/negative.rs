//! A run of checks that tampered statements and proofs are rejected. What is verified and
//! sampled happens outside, so the run is a sequence of cases whose outcomes are recorded.
use vstd::prelude::*;

use crate::commit::{CommitReturn, PublicParams};
use crate::labrador::LabradorCRS;
use crate::params::GreyhoundTranscriptParams;
use crate::poly::{poly_vecs_equal, rqs, PolyRing};
use crate::prover::{copy_polys, ProverProof};
use crate::rq::Rq;
use crate::sums::{lemma_sum_same, sum};
use crate::tamper::{
    accepted, has_tampered_v, has_tampered_witness, has_tampered_y, has_wrong_claim,
    lemma_rqs_encodable, rejected, same_proof, tampered_first, tampered_u_is_rejected,
    tampered_v_is_rejected, tampered_witness_is_rejected, tampered_y_is_rejected, with_tampered_u,
    with_tampered_v, with_tampered_witness, with_tampered_y, with_wrong_claim,
    wrong_claim_is_rejected,
};
use crate::zq::q;

verus! {

/// What is changed.
#[derive(Clone, Copy, PartialEq, Eq, Structural, Debug)]
pub enum NegativeCase {
    /// The claimed value is raised by one.
    WrongClaim,
    /// The challenge is drawn for parameters with one more row.
    ParameterChallenge,
    /// The first entry of the commitment is tampered with.
    TamperedU,
    /// The first entry of the prover's message is tampered with.
    TamperedV,
    /// The evaluation is tampered with.
    TamperedY,
    /// The first entry of the witness is tampered with.
    TamperedWitness,
}

/// The cases, in the order in which they are run.
pub open spec fn negative_case(i: int) -> NegativeCase {
    if i == 0 {
        NegativeCase::WrongClaim
    } else if i == 1 {
        NegativeCase::ParameterChallenge
    } else if i == 2 {
        NegativeCase::TamperedU
    } else if i == 3 {
        NegativeCase::TamperedV
    } else if i == 4 {
        NegativeCase::TamperedY
    } else {
        NegativeCase::TamperedWitness
    }
}

/// The number of cases.
pub const NEGATIVE_CASES: usize = 6;

/// A case in which the verifier should have rejected: it passes if the verifier did.
pub fn expect_reject(accepted: bool) -> (passed: bool)
    ensures
        passed == !accepted,
{
    !accepted
}

/// A case in which the challenge should have changed: it passes if it did.
pub fn expect_change(changed: bool) -> (passed: bool)
    ensures
        passed == changed,
{
    changed
}

/// The parameters with one more row.
pub fn altered_params(p: &GreyhoundTranscriptParams) -> (r: GreyhoundTranscriptParams)
    requires
        p.m < u32::MAX,
    ensures
        r == (GreyhoundTranscriptParams { m: (p.m + 1) as u32, ..*p }),
{
    let mut r = *p;
    r.m = p.m + 1;
    r
}

/// Whether two challenges are the same.
pub fn poly_vec_bytes_equal(a: &[PolyRing], b: &[PolyRing]) -> (r: bool)
    ensures
        r == (rqs(a@) == rqs(b@)),
{
    poly_vecs_equal(a, b)
}

/// The commitment and the proof that are verified in a case.
pub open spec fn is_tampered_pair(
    case: NegativeCase,
    commit: CommitReturn,
    proof: ProverProof,
    commit2: CommitReturn,
    proof2: ProverProof,
) -> bool {
    &&& rqs(commit2.u@) == (if case == NegativeCase::TamperedU {
        tampered_first(rqs(commit.u@))
    } else {
        rqs(commit.u@)
    })
    &&& rqs(commit2.s@) == rqs(commit.s@)
    &&& rqs(commit2.t_hat_concat@) == rqs(commit.t_hat_concat@)
    &&& match case {
        NegativeCase::WrongClaim => has_wrong_claim(proof2, proof),
        NegativeCase::TamperedV => has_tampered_v(proof2, proof),
        NegativeCase::TamperedY => has_tampered_y(proof2, proof),
        NegativeCase::TamperedWitness => has_tampered_witness(proof2, proof),
        _ => same_proof(proof2, proof),
    }
}

/// The commitment and the proof that are to be verified in a case.
pub fn tampered_pair(case: NegativeCase, commit: &CommitReturn, proof: &ProverProof) -> (r: (
    CommitReturn,
    ProverProof,
))
    requires
        commit.u@.len() > 0,
        proof.v@.len() > 0,
    ensures
        is_tampered_pair(case, *commit, *proof, r.0, r.1),
        case == NegativeCase::TamperedU ==> r.0.u@[0]@ == commit.u@[0]@.update(
            0,
            (commit.u@[0]@[0] + 1) % q(),
        ),
        case != NegativeCase::TamperedU ==> r.0.u@ == commit.u@,
        r.0.s@ == commit.s@ && r.0.t_hat_concat@ == commit.t_hat_concat@,
        case == NegativeCase::WrongClaim ==> r.1.claimed_eval@ == (proof.claimed_eval@ + 1) % q(),
        case != NegativeCase::WrongClaim ==> r.1.claimed_eval == proof.claimed_eval,
        case == NegativeCase::TamperedV ==> r.1.v@[0]@ == proof.v@[0]@.update(
            0,
            (proof.v@[0]@[0] + 1) % q(),
        ),
        case != NegativeCase::TamperedV ==> r.1.v@ == proof.v@,
        case == NegativeCase::TamperedY ==> r.1.y@ == proof.y@.update(0, (proof.y@[0] + 1) % q()),
        case != NegativeCase::TamperedY ==> r.1.y == proof.y,
        case == NegativeCase::TamperedWitness && proof.labrador_proof.z_folded@.len() > 0
            ==> r.1.labrador_proof.z_folded@[0]@ == proof.labrador_proof.z_folded@[0]@.update(
            0,
            (proof.labrador_proof.z_folded@[0]@[0] + 1) % q(),
        ),
        case != NegativeCase::TamperedWitness ==> r.1.labrador_proof.z_folded@
            == proof.labrador_proof.z_folded@,
        r.1.narg_transcript@ == proof.narg_transcript@,
        r.1.labrador_transcript@ == proof.labrador_transcript@,
{
    let commit2 = match case {
        NegativeCase::TamperedU => with_tampered_u(commit),
        _ => CommitReturn {
            u: copy_polys(commit.u.as_slice()),
            s: copy_polys(commit.s.as_slice()),
            t_hat_concat: copy_polys(commit.t_hat_concat.as_slice()),
        },
    };
    let proof2 = match case {
        NegativeCase::WrongClaim => with_wrong_claim(proof),
        NegativeCase::TamperedV => with_tampered_v(proof),
        NegativeCase::TamperedY => with_tampered_y(proof),
        NegativeCase::TamperedWitness => with_tampered_witness(proof),
        _ => proof.copied(),
    };
    (commit2, proof2)
}

/// Whether case number `i` passes: the verifier did not accept or, for the challenge, it changed.
pub open spec fn passes(i: int, outcome: bool) -> bool {
    if negative_case(i) == NegativeCase::ParameterChallenge {
        outcome
    } else {
        !outcome
    }
}

/// The number of cases that have failed.
pub open spec fn failed(outcomes: Seq<bool>) -> int
    decreases outcomes.len(),
{
    if outcomes.len() == 0 {
        0
    } else {
        failed(outcomes.drop_last()) + (if passes(outcomes.len() - 1, outcomes.last()) {
            0int
        } else {
            1int
        })
    }
}

/// A run of the cases.
pub struct NegativeRun {
    done: usize,
    failures: usize,
    outcomes: Ghost<Seq<bool>>,
}

impl View for NegativeRun {
    type V = Seq<bool>;

    closed spec fn view(&self) -> Seq<bool> {
        self.outcomes@
    }
}

impl NegativeRun {
    #[verifier::type_invariant]
    closed spec fn counted(self) -> bool {
        &&& self.done == self.outcomes@.len()
        &&& self.done <= NEGATIVE_CASES
        &&& self.failures == failed(self.outcomes@)
        &&& self.failures <= self.done
    }

    /// No case has been run.
    pub fn start() -> (r: NegativeRun)
        ensures
            r@ == Seq::<bool>::empty(),
    {
        NegativeRun { done: 0, failures: 0, outcomes: Ghost(Seq::empty()) }
    }

    /// The next case, if there is one.
    pub fn case(&self) -> (r: Option<NegativeCase>)
        ensures
            r == (if self@.len() < NEGATIVE_CASES {
                Some(negative_case(self@.len() as int))
            } else {
                None
            }),
            self@.len() == 0 ==> r == Some(NegativeCase::WrongClaim),
            self@.len() == 1 ==> r == Some(NegativeCase::ParameterChallenge),
            self@.len() == 2 ==> r == Some(NegativeCase::TamperedU),
            self@.len() == 3 ==> r == Some(NegativeCase::TamperedV),
            self@.len() == 4 ==> r == Some(NegativeCase::TamperedY),
            self@.len() == 5 ==> r == Some(NegativeCase::TamperedWitness),
            self@.len() >= 6 ==> r is None,
    {
        proof {
            use_type_invariant(self);
        }
        if self.done == 0 {
            Some(NegativeCase::WrongClaim)
        } else if self.done == 1 {
            Some(NegativeCase::ParameterChallenge)
        } else if self.done == 2 {
            Some(NegativeCase::TamperedU)
        } else if self.done == 3 {
            Some(NegativeCase::TamperedV)
        } else if self.done == 4 {
            Some(NegativeCase::TamperedY)
        } else if self.done == 5 {
            Some(NegativeCase::TamperedWitness)
        } else {
            None
        }
    }

    /// Records the outcome of the next case: whether the verifier accepted or, for the
    /// challenge, whether it changed. Tells whether the case passed.
    pub fn record(self, outcome: bool) -> (r: (NegativeRun, bool))
        requires
            self@.len() < NEGATIVE_CASES,
        ensures
            r.0@ == self@.push(outcome),
            r.1 == passes(self@.len() as int, outcome),
            self@.len() == 1 ==> r.1 == outcome,
            self@.len() != 1 ==> r.1 == !outcome,
    {
        proof {
            use_type_invariant(&self);
            assert(self.outcomes@.push(outcome).drop_last() =~= self.outcomes@);
        }
        let passed = if self.done == 1 {
            expect_change(outcome)
        } else {
            expect_reject(outcome)
        };
        let failures: usize = if passed {
            self.failures
        } else {
            self.failures + 1
        };
        let run = NegativeRun {
            done: self.done + 1,
            failures,
            outcomes: Ghost(self.outcomes@.push(outcome)),
        };
        (run, passed)
    }

    /// The number of cases that have failed; none has if and only if every case passed.
    pub fn failures(&self) -> (r: usize)
        ensures
            r == failed(self@),
            r == sum(
                |i: int|
                    if self@[i] == (i == 1) {
                        0int
                    } else {
                        1
                    },
                0,
                self@.len() as int,
            ),
            r == 0 <==> forall|i: int| 0 <= i < self@.len() ==> passes(i, #[trigger] self@[i]),
    {
        proof {
            use_type_invariant(self);
            no_failures_means_all_pass(self@);
            every_failure_counts_once(self@);
        }
        self.failures
    }
}

/// Every case in which something is verified passes for an accepted proof: the tampered pair is
/// rejected for the same challenge.
pub proof fn negative_cases_pass(
    case: NegativeCase,
    p: GreyhoundTranscriptParams,
    pp: PublicParams,
    commit: CommitReturn,
    x: int,
    proof: ProverProof,
    c: Seq<Rq>,
    lab_crs: LabradorCRS,
    commit2: CommitReturn,
    proof2: ProverProof,
)
    requires
        case != NegativeCase::ParameterChallenge,
        commit.u@.len() > 0,
        proof.v@.len() > 0,
        accepted(p, pp, rqs(commit.u@), x, proof, c, lab_crs),
        is_tampered_pair(case, commit, proof, commit2, proof2),
    ensures
        rejected(p, pp, rqs(commit2.u@), x, proof2, c, lab_crs),
{
    let u = rqs(commit.u@);
    lemma_rqs_encodable(commit.u@);
    match case {
        NegativeCase::WrongClaim => {
            wrong_claim_is_rejected(p, pp, u, x, proof, c, lab_crs, proof2);
        },
        NegativeCase::TamperedV => {
            tampered_v_is_rejected(p, pp, u, x, proof, c, lab_crs, proof2);
        },
        NegativeCase::TamperedY => {
            tampered_y_is_rejected(p, pp, u, x, proof, c, lab_crs, proof2);
        },
        NegativeCase::TamperedWitness => {
            tampered_witness_is_rejected(p, pp, u, x, proof, c, lab_crs, proof2);
        },
        _ => {
            tampered_u_is_rejected(p, pp, u, x, proof, c, lab_crs);
        },
    }
}

/// Every case counts once: a verified pair that was accepted, and a challenge that did not change.
pub proof fn every_failure_counts_once(outcomes: Seq<bool>)
    ensures
        failed(outcomes) == sum(
            |i: int|
                if outcomes[i] == (i == 1) {
                    0int
                } else {
                    1
                },
            0,
            outcomes.len() as int,
        ),
    decreases outcomes.len(),
{
    if outcomes.len() > 0 {
        let before = outcomes.drop_last();
        every_failure_counts_once(before);
        lemma_sum_same(
            |i: int|
                if before[i] == (i == 1) {
                    0int
                } else {
                    1
                },
            |i: int|
                if outcomes[i] == (i == 1) {
                    0int
                } else {
                    1
                },
            0,
            before.len() as int,
        );
    }
}

/// The run succeeds exactly if every case passes: no failure is counted if and only if each
/// verified pair was rejected and the challenge changed.
pub proof fn no_failures_means_all_pass(outcomes: Seq<bool>)
    ensures
        0 <= failed(outcomes) <= outcomes.len(),
        failed(outcomes) == 0 <==> forall|i: int|
            0 <= i < outcomes.len() ==> passes(i, #[trigger] outcomes[i]),
    decreases outcomes.len(),
{
    if outcomes.len() > 0 {
        let before = outcomes.drop_last();
        no_failures_means_all_pass(before);
        let last = outcomes.len() - 1;
        assert(passes(last, outcomes[last]) == passes(last, outcomes.last()));
        if forall|i: int| 0 <= i < outcomes.len() ==> passes(i, #[trigger] outcomes[i]) {
            assert forall|i: int| 0 <= i < before.len() implies passes(i, #[trigger] before[i]) by {
                assert(before[i] == outcomes[i]);
            }
        }
        if failed(outcomes) == 0 {
            assert forall|i: int| 0 <= i < outcomes.len() implies passes(
                i,
                #[trigger] outcomes[i],
            ) by {
                if i < last {
                    assert(before[i] == outcomes[i]);
                }
            }
        }
    }
}

} // verus!
