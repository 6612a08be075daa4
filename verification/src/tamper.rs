//! Tampered statements and proofs, and why they are rejected.
use vstd::prelude::*;

use crate::bytes::{is_encodable, lemma_le_bytes_injective, lemma_pow256};
use crate::commit::{CommitReturn, PublicParams};
use crate::error::GreyhoundError;
use crate::eval::{column_weights, sigma, sigma_inverse_undoes_sigma, unsigma};
use crate::eval_check::{evaluation_decision, recovered_seed};
use crate::fiat_shamir::{lemma_same_statement_len, lemma_statement_parts, statement_bytes};
use crate::folding_check::RoundDecision;
use crate::labrador::{LabradorCRS, LabradorProof, Relation};
use crate::linalg::recomposed;
use crate::norm::vec_norm_sq;
use crate::params::GreyhoundTranscriptParams;
use crate::poly::{lemma_poly_encodable, lemma_poly_len, rqs, tamper_poly, zqs, PolyRing};
use crate::prover::{copy_polys, relation_for, ProverProof};
use crate::rq::{
    is_rq, lemma_rq_add_laws, lemma_rq_mul_add, lemma_rq_scale_is_mul, lemma_rq_scale_laws,
    lemma_rq_sum_same, rq_add, rq_const, rq_dot, rq_mul, rq_scale, rq_sum, rq_zero, Rq,
};
use crate::zq::{lemma_modq_add, lemma_modq_range, lemma_modq_small, modq, q, zq_pow, Zq};

verus! {

/// One more in the constant term.
pub open spec fn tampered(a: Rq) -> Rq {
    a.update(0, modq(a[0] + 1))
}

/// The first entry is tampered with.
pub open spec fn tampered_first(s: Seq<Rq>) -> Seq<Rq> {
    s.update(0, tampered(s[0]))
}

/// Two proofs with the same argument.
pub open spec fn same_argument(a: LabradorProof, b: LabradorProof) -> bool {
    &&& rqs(a.u_1@) == rqs(b.u_1@)
    &&& zqs(a.p@) == zqs(b.p@)
    &&& rqs(a.b_agg@) == rqs(b.b_agg@)
    &&& rqs(a.u_2@) == rqs(b.u_2@)
    &&& rqs(a.z_folded@) == rqs(b.z_folded@)
    &&& rqs(a.t_flat@) == rqs(b.t_flat@)
    &&& rqs(a.G_flat@) == rqs(b.G_flat@)
    &&& rqs(a.H_flat@) == rqs(b.H_flat@)
}

/// Two proofs that agree in everything.
pub open spec fn same_proof(a: ProverProof, b: ProverProof) -> bool {
    &&& a.y@ == b.y@
    &&& a.claimed_eval@ == b.claimed_eval@
    &&& rqs(a.v@) == rqs(b.v@)
    &&& a.narg_transcript@ == b.narg_transcript@
    &&& same_argument(a.labrador_proof, b.labrador_proof)
    &&& a.labrador_transcript@ == b.labrador_transcript@
}

/// A copy of a byte string.
fn copy_bytes(a: &[u8]) -> (r: Vec<u8>)
    ensures
        r@ == a@,
{
    let mut out: Vec<u8> = Vec::new();
    for i in 0..a.len()
        invariant
            out@ == a@.take(i as int),
    {
        out.push(a[i]);
        assert(a@.take(i + 1) =~= a@.take(i as int).push(a@[i as int]));
    }
    assert(a@.take(a@.len() as int) =~= a@);
    out
}

/// A copy of a vector of scalars.
fn copy_scalars(a: &[Zq]) -> (r: Vec<Zq>)
    ensures
        r@ == a@,
{
    let mut out: Vec<Zq> = Vec::new();
    for i in 0..a.len()
        invariant
            out@ == a@.take(i as int),
    {
        out.push(a[i]);
        assert(a@.take(i + 1) =~= a@.take(i as int).push(a@[i as int]));
    }
    assert(a@.take(a@.len() as int) =~= a@);
    out
}

impl LabradorProof {
    /// A copy of the argument.
    pub fn copied(&self) -> (r: LabradorProof)
        ensures
            same_argument(r, *self),
            r.u_1@ == self.u_1@ && r.p@ == self.p@ && r.b_agg@ == self.b_agg@,
            r.u_2@ == self.u_2@ && r.z_folded@ == self.z_folded@ && r.t_flat@ == self.t_flat@,
            r.G_flat@ == self.G_flat@ && r.H_flat@ == self.H_flat@,
    {
        LabradorProof {
            u_1: copy_polys(self.u_1.as_slice()),
            p: copy_scalars(self.p.as_slice()),
            b_agg: copy_polys(self.b_agg.as_slice()),
            u_2: copy_polys(self.u_2.as_slice()),
            z_folded: copy_polys(self.z_folded.as_slice()),
            t_flat: copy_polys(self.t_flat.as_slice()),
            G_flat: copy_polys(self.G_flat.as_slice()),
            H_flat: copy_polys(self.H_flat.as_slice()),
        }
    }
}

impl ProverProof {
    /// A copy of the proof.
    pub fn copied(&self) -> (r: ProverProof)
        ensures
            same_proof(r, *self),
            r.y == self.y && r.claimed_eval == self.claimed_eval && r.v@ == self.v@,
            r.labrador_proof.u_1@ == self.labrador_proof.u_1@,
            r.labrador_proof.p@ == self.labrador_proof.p@,
            r.labrador_proof.b_agg@ == self.labrador_proof.b_agg@,
            r.labrador_proof.u_2@ == self.labrador_proof.u_2@,
            r.labrador_proof.t_flat@ == self.labrador_proof.t_flat@,
            r.labrador_proof.G_flat@ == self.labrador_proof.G_flat@,
            r.labrador_proof.H_flat@ == self.labrador_proof.H_flat@,
            r.labrador_proof.z_folded@ == self.labrador_proof.z_folded@,
            r.narg_transcript@ == self.narg_transcript@,
            r.labrador_transcript@ == self.labrador_transcript@,
    {
        ProverProof {
            y: self.y,
            claimed_eval: self.claimed_eval,
            v: copy_polys(self.v.as_slice()),
            narg_transcript: copy_bytes(self.narg_transcript.as_slice()),
            labrador_proof: self.labrador_proof.copied(),
            labrador_transcript: copy_bytes(self.labrador_transcript.as_slice()),
        }
    }
}

/// The proof with the claimed value raised by one.
pub open spec fn has_wrong_claim(t: ProverProof, proof: ProverProof) -> bool {
    &&& t.claimed_eval@ == modq(proof.claimed_eval@ + 1)
    &&& t.y@ == proof.y@
    &&& rqs(t.v@) == rqs(proof.v@)
    &&& t.narg_transcript@ == proof.narg_transcript@
    &&& same_argument(t.labrador_proof, proof.labrador_proof)
    &&& t.labrador_transcript@ == proof.labrador_transcript@
}

/// The proof with the claimed value raised by one.
pub fn with_wrong_claim(proof: &ProverProof) -> (r: ProverProof)
    ensures
        has_wrong_claim(r, *proof),
        r.claimed_eval@ == (proof.claimed_eval@ + 1) % q(),
        r.y == proof.y && r.v@ == proof.v@,
        r.labrador_proof.u_1@ == proof.labrador_proof.u_1@,
        r.labrador_proof.p@ == proof.labrador_proof.p@,
        r.labrador_proof.b_agg@ == proof.labrador_proof.b_agg@,
        r.labrador_proof.u_2@ == proof.labrador_proof.u_2@,
        r.labrador_proof.t_flat@ == proof.labrador_proof.t_flat@,
        r.labrador_proof.G_flat@ == proof.labrador_proof.G_flat@,
        r.labrador_proof.H_flat@ == proof.labrador_proof.H_flat@,
        r.labrador_proof.z_folded@ == proof.labrador_proof.z_folded@,
        r.narg_transcript@ == proof.narg_transcript@,
        r.labrador_transcript@ == proof.labrador_transcript@,
{
    let mut t = proof.copied();
    t.claimed_eval = t.claimed_eval.plus(Zq::one());
    t
}

/// The proof with the first entry of `v` tampered with.
pub open spec fn has_tampered_v(t: ProverProof, proof: ProverProof) -> bool {
    &&& rqs(t.v@) == tampered_first(rqs(proof.v@))
    &&& t.y@ == proof.y@
    &&& t.claimed_eval@ == proof.claimed_eval@
    &&& t.narg_transcript@ == proof.narg_transcript@
    &&& same_argument(t.labrador_proof, proof.labrador_proof)
    &&& t.labrador_transcript@ == proof.labrador_transcript@
}

/// The vector with its first entry tampered with.
fn tamper_first(s: &[PolyRing]) -> (r: Vec<PolyRing>)
    requires
        s.len() > 0,
    ensures
        rqs(r@) == tampered_first(rqs(s@)),
        r@.len() == s@.len(),
        r@[0]@ == s@[0]@.update(0, (s@[0]@[0] + 1) % q()),
        forall|i: int| 0 < i < s@.len() ==> #[trigger] r@[i] == s@[i],
{
    let mut out = copy_polys(s);
    let mut first = out[0];
    tamper_poly(&mut first);
    out.set(0, first);
    assert(rqs(out@) =~= tampered_first(rqs(s@)));
    out
}

/// The proof with the first entry of `v` tampered with.
pub fn with_tampered_v(proof: &ProverProof) -> (r: ProverProof)
    requires
        proof.v@.len() > 0,
    ensures
        has_tampered_v(r, *proof),
        r.v@.len() == proof.v@.len(),
        r.v@[0]@ == proof.v@[0]@.update(0, (proof.v@[0]@[0] + 1) % q()),
        forall|i: int| 0 < i < proof.v@.len() ==> #[trigger] r.v@[i] == proof.v@[i],
        r.y == proof.y && r.claimed_eval == proof.claimed_eval,
        r.labrador_proof.u_1@ == proof.labrador_proof.u_1@,
        r.labrador_proof.p@ == proof.labrador_proof.p@,
        r.labrador_proof.b_agg@ == proof.labrador_proof.b_agg@,
        r.labrador_proof.u_2@ == proof.labrador_proof.u_2@,
        r.labrador_proof.t_flat@ == proof.labrador_proof.t_flat@,
        r.labrador_proof.G_flat@ == proof.labrador_proof.G_flat@,
        r.labrador_proof.H_flat@ == proof.labrador_proof.H_flat@,
        r.labrador_proof.z_folded@ == proof.labrador_proof.z_folded@,
        r.narg_transcript@ == proof.narg_transcript@,
        r.labrador_transcript@ == proof.labrador_transcript@,
{
    let mut t = proof.copied();
    t.v = tamper_first(proof.v.as_slice());
    t
}

/// The proof with `y` tampered with.
pub open spec fn has_tampered_y(t: ProverProof, proof: ProverProof) -> bool {
    &&& t.y@ == tampered(proof.y@)
    &&& t.claimed_eval@ == proof.claimed_eval@
    &&& rqs(t.v@) == rqs(proof.v@)
    &&& t.narg_transcript@ == proof.narg_transcript@
    &&& same_argument(t.labrador_proof, proof.labrador_proof)
    &&& t.labrador_transcript@ == proof.labrador_transcript@
}

/// The proof with `y` tampered with.
pub fn with_tampered_y(proof: &ProverProof) -> (r: ProverProof)
    ensures
        has_tampered_y(r, *proof),
        r.y@ == proof.y@.update(0, (proof.y@[0] + 1) % q()),
        r.claimed_eval == proof.claimed_eval && r.v@ == proof.v@,
        r.labrador_proof.u_1@ == proof.labrador_proof.u_1@,
        r.labrador_proof.p@ == proof.labrador_proof.p@,
        r.labrador_proof.b_agg@ == proof.labrador_proof.b_agg@,
        r.labrador_proof.u_2@ == proof.labrador_proof.u_2@,
        r.labrador_proof.t_flat@ == proof.labrador_proof.t_flat@,
        r.labrador_proof.G_flat@ == proof.labrador_proof.G_flat@,
        r.labrador_proof.H_flat@ == proof.labrador_proof.H_flat@,
        r.labrador_proof.z_folded@ == proof.labrador_proof.z_folded@,
        r.narg_transcript@ == proof.narg_transcript@,
        r.labrador_transcript@ == proof.labrador_transcript@,
{
    let mut t = proof.copied();
    let mut y = proof.y;
    tamper_poly(&mut y);
    t.y = y;
    t
}

/// The proof with the first entry of the witness tampered with, if there is one.
pub open spec fn has_tampered_witness(t: ProverProof, proof: ProverProof) -> bool {
    let z = rqs(proof.labrador_proof.z_folded@);
    &&& rqs(t.labrador_proof.z_folded@) == (if z.len() == 0 {
        z
    } else {
        tampered_first(z)
    })
    &&& rqs(t.labrador_proof.u_1@) == rqs(proof.labrador_proof.u_1@)
    &&& zqs(t.labrador_proof.p@) == zqs(proof.labrador_proof.p@)
    &&& rqs(t.labrador_proof.b_agg@) == rqs(proof.labrador_proof.b_agg@)
    &&& rqs(t.labrador_proof.u_2@) == rqs(proof.labrador_proof.u_2@)
    &&& rqs(t.labrador_proof.t_flat@) == rqs(proof.labrador_proof.t_flat@)
    &&& rqs(t.labrador_proof.G_flat@) == rqs(proof.labrador_proof.G_flat@)
    &&& rqs(t.labrador_proof.H_flat@) == rqs(proof.labrador_proof.H_flat@)
    &&& t.y@ == proof.y@
    &&& t.claimed_eval@ == proof.claimed_eval@
    &&& rqs(t.v@) == rqs(proof.v@)
    &&& t.narg_transcript@ == proof.narg_transcript@
    &&& t.labrador_transcript@ == proof.labrador_transcript@
}

/// The proof with the first entry of the witness tampered with, if there is one.
pub fn with_tampered_witness(proof: &ProverProof) -> (r: ProverProof)
    ensures
        has_tampered_witness(r, *proof),
        r.labrador_proof.z_folded@.len() == proof.labrador_proof.z_folded@.len(),
        proof.labrador_proof.z_folded@.len() > 0 ==> r.labrador_proof.z_folded@[0]@
            == proof.labrador_proof.z_folded@[0]@.update(
            0,
            (proof.labrador_proof.z_folded@[0]@[0] + 1) % q(),
        ),
        forall|i: int|
            0 < i < proof.labrador_proof.z_folded@.len()
                ==> #[trigger] r.labrador_proof.z_folded@[i] == proof.labrador_proof.z_folded@[i],
        r.y == proof.y && r.claimed_eval == proof.claimed_eval && r.v@ == proof.v@,
        r.labrador_proof.u_1@ == proof.labrador_proof.u_1@,
        r.labrador_proof.p@ == proof.labrador_proof.p@,
        r.labrador_proof.b_agg@ == proof.labrador_proof.b_agg@,
        r.labrador_proof.u_2@ == proof.labrador_proof.u_2@,
        r.labrador_proof.t_flat@ == proof.labrador_proof.t_flat@,
        r.labrador_proof.G_flat@ == proof.labrador_proof.G_flat@,
        r.labrador_proof.H_flat@ == proof.labrador_proof.H_flat@,
        r.narg_transcript@ == proof.narg_transcript@,
        r.labrador_transcript@ == proof.labrador_transcript@,
{
    let mut t = proof.copied();
    let mut argument = proof.labrador_proof.copied();
    if proof.labrador_proof.z_folded.len() > 0 {
        argument.z_folded = tamper_first(proof.labrador_proof.z_folded.as_slice());
    }
    t.labrador_proof = argument;
    t
}

/// The commitment with the first entry of `u` tampered with.
pub fn with_tampered_u(commit_return: &CommitReturn) -> (r: CommitReturn)
    requires
        commit_return.u@.len() > 0,
    ensures
        rqs(r.u@) == tampered_first(rqs(commit_return.u@)),
        r.u@.len() == commit_return.u@.len(),
        r.u@[0]@ == commit_return.u@[0]@.update(0, (commit_return.u@[0]@[0] + 1) % q()),
        forall|i: int| 0 < i < commit_return.u@.len() ==> #[trigger] r.u@[i] == commit_return.u@[i],
        r.s@ == commit_return.s@,
        r.t_hat_concat@ == commit_return.t_hat_concat@,
        rqs(r.s@) == rqs(commit_return.s@),
        rqs(r.t_hat_concat@) == rqs(commit_return.t_hat_concat@),
{
    CommitReturn {
        u: tamper_first(commit_return.u.as_slice()),
        s: copy_polys(commit_return.s.as_slice()),
        t_hat_concat: copy_polys(commit_return.t_hat_concat.as_slice()),
    }
}

/// The verifier accepts the proof for a challenge.
pub open spec fn accepted(
    p: GreyhoundTranscriptParams,
    pp: PublicParams,
    u: Seq<Rq>,
    x: int,
    proof: ProverProof,
    c: Seq<Rq>,
    lab_crs: LabradorCRS,
) -> bool {
    evaluation_decision(p, pp, u, x, proof, c, lab_crs) == Ok::<RoundDecision, GreyhoundError>(
        RoundDecision::Decided(true),
    )
}

/// The verifier rejects the proof for a challenge.
pub open spec fn rejected(
    p: GreyhoundTranscriptParams,
    pp: PublicParams,
    u: Seq<Rq>,
    x: int,
    proof: ProverProof,
    c: Seq<Rq>,
    lab_crs: LabradorCRS,
) -> bool {
    evaluation_decision(p, pp, u, x, proof, c, lab_crs) == Ok::<RoundDecision, GreyhoundError>(
        RoundDecision::Decided(false),
    )
}

/// Adding one to a residue changes it.
proof fn lemma_next_differs(a: int)
    ensures
        modq(a + 1) != modq(a),
        modq(a + 1) != a,
{
    lemma_modq_range(a);
    lemma_modq_range(a + 1);
    lemma_modq_add(a, 1);
    let m = modq(a);
    if m + 1 < q() {
        lemma_modq_small(m + 1);
    } else {
        assert(m + 1 == q());
        vstd::arithmetic::div_mod::lemma_mod_self_0(q());
    }
    if modq(a + 1) == a {
        lemma_modq_small(a);
    }
}

/// Only a proof that sends its witness is accepted at once.
pub proof fn lemma_accepted_is_direct(
    p: GreyhoundTranscriptParams,
    pp: PublicParams,
    u: Seq<Rq>,
    x: int,
    proof: ProverProof,
    c: Seq<Rq>,
    lab_crs: LabradorCRS,
)
    requires
        accepted(p, pp, u, x, proof, c, lab_crs),
    ensures
        proof.labrador_proof.is_direct(),
{
}

/// A value of the statement is bound: an accepted proof with the claimed value raised by one is
/// rejected.
pub proof fn wrong_claim_is_rejected(
    p: GreyhoundTranscriptParams,
    pp: PublicParams,
    u: Seq<Rq>,
    x: int,
    proof: ProverProof,
    c: Seq<Rq>,
    lab_crs: LabradorCRS,
    t: ProverProof,
)
    requires
        accepted(p, pp, u, x, proof, c, lab_crs),
        has_wrong_claim(t, proof),
    ensures
        rejected(p, pp, u, x, t, c, lab_crs),
{
    lemma_next_differs(proof.claimed_eval@);
}

/// The entries of a vector can be encoded.
pub open spec fn encodable(u: Seq<Rq>) -> bool {
    forall|i: int| 0 <= i < u.len() ==> is_encodable(#[trigger] u[i])
}

/// Vectors of ring elements can be encoded.
pub proof fn lemma_rqs_encodable(s: Seq<PolyRing>)
    ensures
        encodable(rqs(s)),
{
    assert forall|i: int| 0 <= i < rqs(s).len() implies is_encodable(#[trigger] rqs(s)[i]) by {
        lemma_poly_encodable(s[i]);
    }
}

/// A proof is bound to its statement: if its transcript is that of one statement, then the proof
/// is rejected, for any challenge, once the parameters, the commitment, the point, the evaluation
/// or the prover's message is another one, of the same length.
pub proof fn another_statement_is_rejected(
    p: GreyhoundTranscriptParams,
    pp: PublicParams,
    u: Seq<Rq>,
    x: int,
    proof: ProverProof,
    c: Seq<Rq>,
    lab_crs: LabradorCRS,
    p0: GreyhoundTranscriptParams,
    u0: Seq<Rq>,
    x0: int,
    proof0: ProverProof,
)
    requires
        recovered_seed(p0, u0, x0, proof0) is Ok,
        proof.narg_transcript@ == proof0.narg_transcript@,
        encodable(u) && encodable(u0),
        u.len() == u0.len(),
        proof.v@.len() == proof0.v@.len(),
        x == x0 || (0 <= x < q() && 0 <= x0 < q()),
        !(p == p0 && u == u0 && x == x0 && proof.y@ == proof0.y@ && rqs(proof.v@) == rqs(
            proof0.v@,
        )),
    ensures
        recovered_seed(p, u, x, proof) == Err::<Seq<u8>, GreyhoundError>(
            GreyhoundError::TranscriptMismatch,
        ),
        rejected(p, pp, u, x, proof, c, lab_crs),
{
    let (v, v0) = (rqs(proof.v@), rqs(proof0.v@));
    lemma_rqs_encodable(proof.v@);
    lemma_rqs_encodable(proof0.v@);
    lemma_poly_encodable(proof.y);
    lemma_poly_encodable(proof0.y);
    lemma_same_statement_len(p, u, x, proof.y@, v, p0, u0, x0, proof0.y@, v0);
    if statement_bytes(p, u, x, proof.y@, v) == statement_bytes(p0, u0, x0, proof0.y@, v0) {
        lemma_statement_parts(p, u, x, proof.y@, v, p0, u0, x0, proof0.y@, v0);
        if x != x0 {
            lemma_pow256();
            lemma_le_bytes_injective(x, x0, 8);
        }
    }
}

/// The first entry of a vector changes when it is tampered with.
proof fn lemma_tampered_first(u: Seq<Rq>)
    requires
        u.len() > 0,
        encodable(u),
    ensures
        tampered_first(u) != u,
        tampered_first(u).len() == u.len(),
        encodable(tampered_first(u)),
{
    lemma_pow256();
    lemma_next_differs(u[0][0]);
    lemma_modq_range(u[0][0] + 1);
    let t = tampered_first(u);
    assert(is_encodable(u[0]));
    assert(t[0][0] != u[0][0]);
    assert forall|i: int| 0 <= i < t.len() implies is_encodable(#[trigger] t[i]) by {
        assert(is_encodable(u[i]));
    }
}

/// An accepted proof is rejected once `y` is tampered with.
pub proof fn tampered_y_is_rejected(
    p: GreyhoundTranscriptParams,
    pp: PublicParams,
    u: Seq<Rq>,
    x: int,
    proof: ProverProof,
    c: Seq<Rq>,
    lab_crs: LabradorCRS,
    t: ProverProof,
)
    requires
        encodable(u),
        accepted(p, pp, u, x, proof, c, lab_crs),
        has_tampered_y(t, proof),
    ensures
        rejected(p, pp, u, x, t, c, lab_crs),
{
    lemma_poly_len(proof.y);
    lemma_next_differs(proof.y@[0]);
    assert(rqs(t.v@).len() == rqs(proof.v@).len());
    assert(t.y@[0] != proof.y@[0]);
    another_statement_is_rejected(p, pp, u, x, t, c, lab_crs, p, u, x, proof);
}

/// An accepted proof is rejected once `y` and the claimed value are raised together.
pub proof fn raised_evaluation_is_rejected(
    p: GreyhoundTranscriptParams,
    pp: PublicParams,
    u: Seq<Rq>,
    x: int,
    proof: ProverProof,
    c: Seq<Rq>,
    lab_crs: LabradorCRS,
    t: ProverProof,
)
    requires
        encodable(u),
        accepted(p, pp, u, x, proof, c, lab_crs),
        t.y@ == tampered(proof.y@),
        t.claimed_eval@ == modq(proof.claimed_eval@ + 1),
        rqs(t.v@) == rqs(proof.v@),
        t.narg_transcript@ == proof.narg_transcript@,
        same_argument(t.labrador_proof, proof.labrador_proof),
        t.labrador_transcript@ == proof.labrador_transcript@,
    ensures
        rejected(p, pp, u, x, t, c, lab_crs),
{
    lemma_poly_len(proof.y);
    lemma_next_differs(proof.y@[0]);
    assert(rqs(t.v@).len() == rqs(proof.v@).len());
    assert(t.y@[0] != proof.y@[0]);
    another_statement_is_rejected(p, pp, u, x, t, c, lab_crs, p, u, x, proof);
}

/// The commitment is bound: a proof that is accepted for a commitment is rejected for the
/// commitment with its first entry tampered with.
pub proof fn tampered_u_is_rejected(
    p: GreyhoundTranscriptParams,
    pp: PublicParams,
    u: Seq<Rq>,
    x: int,
    proof: ProverProof,
    c: Seq<Rq>,
    lab_crs: LabradorCRS,
)
    requires
        u.len() > 0,
        encodable(u),
        accepted(p, pp, u, x, proof, c, lab_crs),
    ensures
        rejected(p, pp, tampered_first(u), x, proof, c, lab_crs),
{
    lemma_tampered_first(u);
    another_statement_is_rejected(p, pp, tampered_first(u), x, proof, c, lab_crs, p, u, x, proof);
}

/// The prover's message is bound: an accepted proof is rejected once the first entry of `v` is
/// tampered with.
pub proof fn tampered_v_is_rejected(
    p: GreyhoundTranscriptParams,
    pp: PublicParams,
    u: Seq<Rq>,
    x: int,
    proof: ProverProof,
    c: Seq<Rq>,
    lab_crs: LabradorCRS,
    t: ProverProof,
)
    requires
        proof.v@.len() > 0,
        encodable(u),
        accepted(p, pp, u, x, proof, c, lab_crs),
        has_tampered_v(t, proof),
    ensures
        rejected(p, pp, u, x, t, c, lab_crs),
{
    lemma_rqs_encodable(proof.v@);
    lemma_tampered_first(rqs(proof.v@));
    assert(rqs(t.v@).len() == rqs(proof.v@).len());
    another_statement_is_rejected(p, pp, u, x, t, c, lab_crs, p, u, x, proof);
}

/// Whatever the transcripts, a witness proves one statement: two accepted proofs with the same
/// witness, for the same point and the same challenge, agree in the commitment, the prover's
/// message, the evaluation and the claimed value.
pub proof fn accepted_statement_is_unique(
    p: GreyhoundTranscriptParams,
    pp: PublicParams,
    u: Seq<Rq>,
    x: int,
    proof: ProverProof,
    c: Seq<Rq>,
    lab_crs: LabradorCRS,
    u2: Seq<Rq>,
    proof2: ProverProof,
)
    requires
        is_rq(proof.y@) && is_rq(proof2.y@),
        proof.v@.len() == proof2.v@.len(),
        rqs(proof.labrador_proof.z_folded@) == rqs(proof2.labrador_proof.z_folded@),
        accepted(p, pp, u, x, proof, c, lab_crs),
        accepted(p, pp, u2, x, proof2, c, lab_crs),
    ensures
        u == u2,
        rqs(proof.v@) == rqs(proof2.v@),
        proof.y@ == proof2.y@,
        proof.claimed_eval@ == proof2.claimed_eval@,
{
    lemma_accepted_is_direct(p, pp, u, x, proof, c, lab_crs);
    lemma_accepted_is_direct(p, pp, u2, x, proof2, c, lab_crs);
    let (v, v2) = (rqs(proof.v@), rqs(proof2.v@));
    let (target, target2) = (rq_mul(unsigma(x), proof.y@), rq_mul(unsigma(x), proof2.y@));
    let rel = relation_for(p, pp, u, x, v, target, c);
    let rel2 = relation_for(p, pp, u2, x, v2, target2, c);
    let (n, base) = (p.nrows as int, lab_crs.b as int);
    let z = rqs(proof.labrador_proof.z_folded@);
    assert(rel.outcome(base, z) == Ok::<bool, GreyhoundError>(true));
    assert(rel2.outcome(base, z) == Ok::<bool, GreyhoundError>(true));
    let (h, h2) = (rel.h_target, rel2.h_target);
    assert forall|i: int| 0 <= i <= 2 * n implies #[trigger] h[i] == h2[i] by {
        if i < n {
            assert(rel.h_v()[i] == rel2.h_v()[i]);
        } else if i < 2 * n {
            assert(rel.h_u()[i - n] == rel2.h_u()[i - n]);
        } else {
            assert(rel.inner_products(base, z) == rel2.inner_products(base, z));
            assert(rel.h_y() == rel2.h_y());
        }
    }
    assert(v.len() + u.len() == 2 * n);
    assert(v2.len() + u2.len() == 2 * n);
    assert forall|i: int| 0 <= i < v.len() implies #[trigger] v[i] == v2[i] by {
        assert(h[i] == h2[i]);
    }
    assert(v =~= v2);
    assert forall|i: int| 0 <= i < u.len() implies #[trigger] u[i] == u2[i] by {
        assert(h[v.len() + i] == h2[v.len() + i]);
    }
    assert(u =~= u2);
    assert(h[2 * n] == target && h2[2 * n] == target2);
    sigma_inverse_undoes_sigma(x, proof.y@);
    sigma_inverse_undoes_sigma(x, proof2.y@);
}

/// A sum whose first term is raised by `e`.
proof fn lemma_first_raised(f: spec_fn(int) -> Rq, g: spec_fn(int) -> Rq, e: Rq, n: int)
    requires
        n >= 1,
        g(0) == rq_add(f(0), e),
        forall|k: int| 0 < k < n ==> #[trigger] g(k) == f(k),
    ensures
        rq_sum(g, n) == rq_add(rq_sum(f, n), e),
    decreases n,
{
    if n == 1 {
        assert(rq_sum(f, 0) == rq_zero());
        lemma_rq_add_laws(rq_zero(), f(0), e);
        assert(rq_sum(f, 1) == rq_add(rq_sum(f, 0), f(0)));
        assert(rq_sum(g, 1) == rq_add(rq_sum(g, 0), g(0)));
    } else {
        lemma_first_raised(f, g, e, n - 1);
        let (s, t) = (rq_sum(f, n - 1), f(n - 1));
        lemma_rq_add_laws(s, e, t);
        lemma_rq_add_laws(s, t, e);
        lemma_rq_add_laws(e, t, s);
    }
}

/// Tampering adds the constant one, up to reduction.
proof fn lemma_tampered_scaled(a: Rq)
    requires
        a.len() == 64,
    ensures
        rq_scale(tampered(a), 1) == rq_add(rq_scale(a, 1), rq_const(1)),
{
    lemma_modq_small(1);
    lemma_modq_small(0);
    assert forall|k: int| 0 <= k < 64 implies #[trigger] rq_scale(tampered(a), 1)[k] == rq_add(
        rq_scale(a, 1),
        rq_const(1),
    )[k] by {
        lemma_modq_range(a[k]);
        lemma_modq_range(a[k] + 1);
        lemma_modq_add(a[k], 1);
    }
    assert(rq_scale(tampered(a), 1) =~= rq_add(rq_scale(a, 1), rq_const(1)));
}

proof fn lemma_one_times(a: Rq)
    requires
        is_rq(a),
    ensures
        rq_mul(rq_const(1), a) == a,
{
    lemma_rq_scale_is_mul(a, 1);
    lemma_rq_scale_laws(a, 1, 1);
}

/// Only the first value grows, by one, when the first digit of the first one does.
proof fn lemma_raised_digit(d: Seq<Rq>, r: int, count: int, base: int, i: int)
    requires
        0 <= i < r,
        count >= 1,
        d.len() == r * count,
        d[0].len() == 64,
    ensures
        recomposed(tampered_first(d), r, count, base, i) == (if i == 0 {
            rq_add(recomposed(d, r, count, base, i), rq_const(1))
        } else {
            recomposed(d, r, count, base, i)
        }),
{
    let d2 = tampered_first(d);
    let one = rq_const(1);
    let f = |k: int| rq_scale(d[k * r + i], zq_pow(base, k as nat));
    let g = |k: int| rq_scale(d2[k * r + i], zq_pow(base, k as nat));
    assert(count * r == r * count) by (nonlinear_arith);
    assert(r * count > 0) by (nonlinear_arith)
        requires
            r > 0,
            count > 0,
    ;
    assert forall|k: int| 0 <= k < count && (k > 0 || i > 0) implies #[trigger] g(k) == f(k) by {
        crate::linalg::lemma_flat_index(k, i, count, r);
        assert(k * r + i > 0) by (nonlinear_arith)
            requires
                k >= 0,
                i >= 0,
                r > 0,
                k > 0 || i > 0,
        ;
        assert(d2[k * r + i] == d[k * r + i]);
    }
    if i == 0 {
        assert(0 * r == 0);
        lemma_tampered_scaled(d[0]);
        lemma_first_raised(f, g, one, count);
    } else {
        lemma_rq_sum_same(g, f, count);
    }
}

/// The weighted inner products grow by one when the first digit of the first one does.
proof fn lemma_raised_value(rel: Relation, base: int, z: Seq<Rq>)
    requires
        rel.shaped(z.len() as int),
        rel.n_w > 0,
        rel.n_t >= 0,
        rel.n_s >= 0,
        z[0].len() == 64,
        rel.b_eval[0] == rq_const(1),
    ensures
        rq_dot(rel.b_eval, rel.inner_products(base, tampered_first(z))) == rq_add(
            rq_dot(rel.b_eval, rel.inner_products(base, z)),
            rq_const(1),
        ),
{
    let z2 = tampered_first(z);
    let r = rel.columns();
    let count = rel.n_w / r;
    let one = rq_const(1);
    let (w, w2) = (rel.inner_products(base, z), rel.inner_products(base, z2));
    let zw = rel.w_part(z);
    assert(rel.w_part(z2) =~= tampered_first(zw));
    vstd::arithmetic::div_mod::lemma_fundamental_div_mod(rel.n_w, r);
    assert(count >= 1) by (nonlinear_arith)
        requires
            rel.n_w == r * count,
            rel.n_w > 0,
            r > 0,
    ;
    assert forall|i: int| 0 <= i < r implies #[trigger] w2[i] == (if i == 0 {
        rq_add(w[0], one)
    } else {
        w[i]
    }) by {
        lemma_raised_digit(zw, r, count, base, i);
    }
    let dot = |i: int| rq_mul(rel.b_eval[i], w[i]);
    let dot2 = |i: int| rq_mul(rel.b_eval[i], w2[i]);
    lemma_rq_mul_add(rel.b_eval[0], w[0], one);
    crate::rq::lemma_rq_new(
        |k: int|
            if k == 0 {
                1int
            } else {
                0
            },
    );
    lemma_one_times(one);
    lemma_first_raised(dot, dot2, one, r);
}

/// The witness is bound: an accepted proof is rejected once the first entry of the witness is
/// tampered with.
pub proof fn tampered_witness_is_rejected(
    p: GreyhoundTranscriptParams,
    pp: PublicParams,
    u: Seq<Rq>,
    x: int,
    proof: ProverProof,
    c: Seq<Rq>,
    lab_crs: LabradorCRS,
    t: ProverProof,
)
    requires
        accepted(p, pp, u, x, proof, c, lab_crs),
        has_tampered_witness(t, proof),
    ensures
        rejected(p, pp, u, x, t, c, lab_crs),
{
    lemma_accepted_is_direct(p, pp, u, x, proof, c, lab_crs);
    let target = rq_mul(unsigma(x), proof.y@);
    let rel = relation_for(p, pp, u, x, rqs(proof.v@), target, c);
    let z = rqs(proof.labrador_proof.z_folded@);
    let z2 = tampered_first(z);
    let base = lab_crs.b as int;
    assert(rqs(t.labrador_proof.u_1@).len() == 0);
    assert(zqs(t.labrador_proof.p@).len() == 0);
    assert(rqs(t.labrador_proof.b_agg@).len() == 0);
    assert(rqs(t.labrador_proof.u_2@).len() == 0);
    assert(rqs(t.labrador_proof.t_flat@).len() == 0);
    assert(rqs(t.labrador_proof.G_flat@).len() == 0);
    assert(rqs(t.labrador_proof.H_flat@).len() == 0);
    assert(t.labrador_proof.is_direct());
    assert(rel.outcome(base, z) == Ok::<bool, GreyhoundError>(true));
    assert(rel.shaped(z.len() as int) && rel.n_w > 0);
    assert(z2.len() == z.len());
    assert(p.m * 0 == 0);
    assert(rel.b_eval[0] == rq_const(1));
    lemma_poly_len(proof.labrador_proof.z_folded@[0]);
    lemma_raised_value(rel, base, z);
    let dot = rq_dot(rel.b_eval, rel.inner_products(base, z));
    lemma_modq_small(1);
    lemma_next_differs(dot[0]);
    assert(rq_add(dot, rq_const(1))[0] == modq(dot[0] + 1));
    assert(!rel.row_y(base, z2));
    assert(rel.t_part(z2) =~= rel.t_part(z));
    assert(rel.outcome(base, z2) == Ok::<bool, GreyhoundError>(false));
}

/// What acceptance means: the claimed value is the constant
/// term of `sigma(x)` times the weighted inner products in the witness, the witness is within
/// the norm bound, and it opens both commitments.
pub proof fn accepted_value_comes_from_witness(
    p: GreyhoundTranscriptParams,
    pp: PublicParams,
    u: Seq<Rq>,
    x: int,
    proof: ProverProof,
    c: Seq<Rq>,
    lab_crs: LabradorCRS,
)
    requires
        is_rq(proof.y@),
        accepted(p, pp, u, x, proof, c, lab_crs),
    ensures
        ({
            let z = rqs(proof.labrador_proof.z_folded@);
            let target = rq_mul(unsigma(x), proof.y@);
            let rel = relation_for(p, pp, u, x, rqs(proof.v@), target, c);
            let w = rel.inner_products(lab_crs.b as int, z);
            &&& proof.claimed_eval@ == rq_mul(sigma(x), rq_dot(column_weights(p, x), w))[0]
            &&& vec_norm_sq(z) <= lab_crs.norm_bound_sq
            &&& rel.row_v(z)
            &&& rel.row_u(z)
            &&& rel.row_fold(lab_crs.b as int, z)
            &&& rel.row_commit(lab_crs.b as int, z)
        }),
{
    lemma_accepted_is_direct(p, pp, u, x, proof, c, lab_crs);
    sigma_inverse_undoes_sigma(x, proof.y@);
    let v = rqs(proof.v@);
    let target = rq_mul(unsigma(x), proof.y@);
    let rel = relation_for(p, pp, u, x, v, target, c);
    let base = lab_crs.b as int;
    let z = rqs(proof.labrador_proof.z_folded@);
    assert(rel.outcome(base, z) == Ok::<bool, GreyhoundError>(true));
    assert(rel.h_y() == target);
}

} // verus!
