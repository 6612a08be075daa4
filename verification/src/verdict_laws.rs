//! What it takes for an evaluation proof to be accepted.
use vstd::prelude::*;

use crate::commit::PublicParams;
use crate::error::GreyhoundError;
use crate::eval::{
    column_weights, constant_term_is_value, entry_weights, sigma, sigma_denominator,
    sigma_inverse_undoes_sigma, unsigma,
};
use crate::eval_check::evaluation_decision;
use crate::fiat_shamir::statement_bytes;
use crate::folding_check::RoundDecision;
use crate::labrador::{LabradorCRS, LabradorProof, Relation};
use crate::linalg::recompose;
use crate::norm::{lemma_coefficient_counts, magnitude_sq, vec_norm_sq};
use crate::params::GreyhoundTranscriptParams;
use crate::poly::rqs;
use crate::prover::{
    column_values, finish_refusal, relation_for, relation_witness, start_refusal, ProverProof,
};
use crate::relation_laws::{accepted_if_every_row_holds, product_equations, row_equations};
use crate::ring_laws::entries_of_product;
use crate::round::{round_reading, verification};
use crate::rq::{
    is_rq, lemma_rq_add_zero, lemma_rq_sum_valid, rq_add, rq_dot, rq_mul, rq_sum, rq_zero, Rq,
};
use crate::sponge::Transcript;
use crate::tamper::{accepted, lemma_accepted_is_direct};
use crate::zq::{is_inverse, is_unit, lemma_modq_mul, q, zq_pow};

verus! {

/// Adding zero to an inner product.
proof fn lemma_dot_plus_zero(a: Seq<Rq>, b: Seq<Rq>)
    ensures
        rq_add(rq_dot(a, b), rq_zero()) == rq_dot(a, b),
{
    lemma_rq_sum_valid(|i: int| rq_mul(a[i], b[i]), a.len() as int);
    lemma_rq_add_zero(rq_dot(a, b));
}

/// An accepted proof belongs to its statement: its transcript begins with the statement, and the
/// claimed value is the constant term of the evaluation.
pub proof fn accepted_proof_belongs_to_statement(
    p: GreyhoundTranscriptParams,
    pp: PublicParams,
    u: Seq<Rq>,
    x: int,
    proof: ProverProof,
    c: Seq<Rq>,
    lab_crs: LabradorCRS,
)
    requires
        accepted(p, pp, u, x, proof, c, lab_crs),
    ensures
        ({
            let b = statement_bytes(p, u, x, proof.y@, rqs(proof.v@));
            &&& proof.narg_transcript@.len() >= b.len()
            &&& proof.narg_transcript@.take(b.len() as int) == b
        }),
        proof.y@[0] == proof.claimed_eval@,
        is_unit(sigma_denominator(x)),
{
}

/// A claimed value that is not the constant term of the evaluation is not accepted: the proof is
/// rejected or, where its transcript is too short for the statement, refused.
pub proof fn false_claim_is_not_accepted(
    p: GreyhoundTranscriptParams,
    pp: PublicParams,
    u: Seq<Rq>,
    x: int,
    proof: ProverProof,
    c: Seq<Rq>,
    lab_crs: LabradorCRS,
)
    requires
        proof.y@[0] != proof.claimed_eval@,
    ensures
        evaluation_decision(p, pp, u, x, proof, c, lab_crs) == Ok::<RoundDecision, GreyhoundError>(
            RoundDecision::Decided(false),
        ) || evaluation_decision(p, pp, u, x, proof, c, lab_crs) == Err::<
            RoundDecision,
            GreyhoundError,
        >(GreyhoundError::TranscriptTooShort),
{
}

/// The witness in an accepted proof has the length of its three parts, its norm is within the
/// bound, and so is every coefficient.
pub proof fn accepted_witness_is_short(
    p: GreyhoundTranscriptParams,
    pp: PublicParams,
    u: Seq<Rq>,
    x: int,
    proof: ProverProof,
    c: Seq<Rq>,
    lab_crs: LabradorCRS,
    i: int,
    k: int,
)
    requires
        accepted(p, pp, u, x, proof, c, lab_crs),
        0 <= i < proof.labrador_proof.z_folded@.len(),
        0 <= k < 64,
    ensures
        proof.labrador_proof.z_folded@.len() == p.d_width() + p.b_width() + p.a_width(),
        vec_norm_sq(rqs(proof.labrador_proof.z_folded@)) <= lab_crs.norm_bound_sq,
        magnitude_sq(proof.labrador_proof.z_folded@[i]@[k]) <= lab_crs.norm_bound_sq,
{
    let z = rqs(proof.labrador_proof.z_folded@);
    lemma_accepted_is_direct(p, pp, u, x, proof, c, lab_crs);
    assert(z.len() == proof.labrador_proof.z_folded@.len());
    assert(z[i] == proof.labrador_proof.z_folded@[i]@);
    lemma_coefficient_counts(z, i, k);
}

/// What an accepted proof proves, for a commitment `u` of `nrows` entries. The witness is made of
/// the decomposed inner products `w`, the decomposed column commitments `t` and the folded column
/// `s`. `D` takes `w` to the prover's message and `B` takes `t` to the commitment. The weighted
/// inner products are the evaluation divided by `sigma(x)`; the folded ones are the weighted
/// folded column; and the folded column commitments are `A` times the folded column.
pub proof fn accepted_proof_holds(
    p: GreyhoundTranscriptParams,
    pp: PublicParams,
    u: Seq<Rq>,
    x: int,
    proof: ProverProof,
    c: Seq<Rq>,
    lab_crs: LabradorCRS,
    i: int,
)
    requires
        accepted(p, pp, u, x, proof, c, lab_crs),
        u.len() == p.nrows,
        0 <= i < p.nrows,
    ensures
        ({
            let z = rqs(proof.labrador_proof.z_folded@);
            let base = lab_crs.b as int;
            let (n_w, n_t, n_s) = (p.d_width(), p.b_width(), p.a_width());
            let (r, n) = (c.len() as int, p.nrows as int);
            let width = n_t / r;
            let w = z.subrange(0, n_w);
            let t = z.subrange(n_w, n_w + n_t);
            let s = z.subrange(n_w + n_t, n_w + n_t + n_s);
            let products = recompose(w, r, n_w / r, base);
            let target = rq_mul(unsigma(x), proof.y@);
            &&& r == p.r
            &&& proof.v@.len() == p.nrows
            &&& rq_dot(rqs(pp.D@).subrange(i * n_w, i * n_w + n_w), w) == proof.v@[i]@
            &&& rq_dot(rqs(pp.B@).subrange(i * n_t, i * n_t + n_t), t) == u[i]
            &&& rq_dot(column_weights(p, x), products) == target
            &&& is_rq(proof.y@) ==> rq_mul(sigma(x), target) == proof.y@
            &&& rq_dot(c, products) == rq_dot(entry_weights(p, x), s)
            &&& rq_sum(
                |j: int|
                    rq_mul(
                        c[j],
                        recompose(t.subrange(j * width, j * width + width), n, width / n, base)[i],
                    ),
                r,
            ) == rq_dot(rqs(pp.A@).subrange(i * n_s, i * n_s + n_s), s)
        }),
{
    let z = rqs(proof.labrador_proof.z_folded@);
    let target = rq_mul(unsigma(x), proof.y@);
    let rel = relation_for(p, pp, u, x, rqs(proof.v@), target, c);
    lemma_accepted_is_direct(p, pp, u, x, proof, c, lab_crs);
    accepted_if_every_row_holds(rel, lab_crs.b as int, z);
    assert(row_equations(rel, lab_crs.b as int, z, i));
    assert(product_equations(rel, lab_crs.b as int, z));
    let (v, n) = (rqs(proof.v@), p.nrows as int);
    let h = rel.h_target;
    assert(h.len() == v.len() + u.len() + 2 + n);
    assert(h[i] == v[i] && v[i] == proof.v@[i]@);
    assert(h[n + i] == u[i]);
    assert(h[2 * n] == target);
    assert(h[2 * n + 1] == rq_zero());
    assert(h[2 * n + 2 + i] == rq_zero());
    let (n_w, n_t, n_s) = (p.d_width(), p.b_width(), p.a_width());
    let s = z.subrange(n_w + n_t, n_w + n_t + n_s);
    lemma_dot_plus_zero(entry_weights(p, x), s);
    lemma_dot_plus_zero(rqs(pp.A@).subrange(i * n_s, i * n_s + n_s), s);
    if is_rq(proof.y@) {
        sigma_inverse_undoes_sigma(x, proof.y@);
    }
}

/// Sizes that do not fit are no error of the verifier but a rejection.
pub proof fn ill_sized_arguments_are_rejected(
    crs: LabradorCRS,
    proof: LabradorProof,
    transcript: Seq<u8>,
    rel: Relation,
)
    ensures
        verification(crs, proof, transcript, rel) != Err::<RoundDecision, GreyhoundError>(
            GreyhoundError::InvalidDimensions,
        ),
{
}

/// An accepted proof holds its witness and no message of a folding round.
pub proof fn accepted_proof_is_only_its_witness(
    p: GreyhoundTranscriptParams,
    pp: PublicParams,
    u: Seq<Rq>,
    x: int,
    proof: ProverProof,
    c: Seq<Rq>,
    lab_crs: LabradorCRS,
)
    requires
        accepted(p, pp, u, x, proof, c, lab_crs),
    ensures
        proof.labrador_proof.u_1@.len() == 0,
        proof.labrador_proof.p@.len() == 0,
        proof.labrador_proof.b_agg@.len() == 0,
        proof.labrador_proof.u_2@.len() == 0,
        proof.labrador_proof.t_flat@.len() == 0,
        proof.labrador_proof.G_flat@.len() == 0,
        proof.labrador_proof.H_flat@.len() == 0,
{
    lemma_accepted_is_direct(p, pp, u, x, proof, c, lab_crs);
}

/// Entry `i` of the inner products is that of the entry weights and decomposed column `i`.
pub proof fn column_values_are_of_every_column(
    p: GreyhoundTranscriptParams,
    x: int,
    s: Seq<Rq>,
    i: int,
)
    requires
        p.supported(),
        s.len() == p.r * p.a_width(),
        0 <= i < p.r,
    ensures
        column_values(p, x, s).len() == p.r,
        column_values(p, x, s)[i] == rq_dot(
            entry_weights(p, x),
            s.subrange(i * p.a_width(), i * p.a_width() + p.a_width()),
        ),
{
    p.lemma_widths();
    let w = entry_weights(p, x);
    entries_of_product(w, 1, s, p.r as int, p.a_width(), 0, i);
    assert(w.subrange(0, p.a_width()) =~= w);
}

/// The witness is made of the decomposed inner products, the decomposed column commitments and
/// the columns folded by the challenge, one after the other.
pub proof fn witness_parts_at_their_places(
    p: GreyhoundTranscriptParams,
    w_hat: Seq<Rq>,
    t_hat: Seq<Rq>,
    s: Seq<Rq>,
    c: Seq<Rq>,
    j: int,
)
    requires
        0 <= j < p.a_width(),
    ensures
        ({
            let z = relation_witness(p, w_hat, t_hat, s, c);
            let (a, b) = (w_hat.len() as int, t_hat.len() as int);
            &&& z.len() == a + b + p.a_width()
            &&& z.subrange(0, a) == w_hat
            &&& z.subrange(a, a + b) == t_hat
            &&& z[a + b + j] == rq_sum(
                |i: int| rq_mul(c[i], s[i * p.a_width() + j]),
                c.len() as int,
            )
        }),
{
    let z = relation_witness(p, w_hat, t_hat, s, c);
    let (a, b) = (w_hat.len() as int, t_hat.len() as int);
    assert(z.subrange(0, a) =~= w_hat);
    assert(z.subrange(a, a + b) =~= t_hat);
}

/// For a polynomial of the length that the parameters say, a multiple of 64, the prover starts
/// exactly if the decomposed columns have the right size, whatever the point: the constant term
/// of the evaluation is then always the value.
pub proof fn prover_starts_if_sizes_fit(
    p: GreyhoundTranscriptParams,
    raw: Seq<u32>,
    s_len: int,
    x: int,
)
    requires
        p.n % 64 == 0,
        raw.len() == p.n,
    ensures
        start_refusal(p, raw, s_len, x) is None <==> s_len == p.r * (p.delta0 * p.m),
        start_refusal(p, raw, s_len, x) matches Some(e) ==> e == GreyhoundError::InvalidDimensions,
{
    constant_term_is_value(raw, x, p.n as int / 64);
}

/// The prover finishes exactly if there is a challenge for every column, the decomposed columns
/// have the right size and the witness is short; a long witness is refused as such.
pub proof fn prover_finishes_if_witness_is_short(
    p: GreyhoundTranscriptParams,
    c_len: int,
    s_len: int,
    z: Seq<Rq>,
    lab_crs: LabradorCRS,
)
    ensures
        finish_refusal(p, c_len, s_len, z, lab_crs) is None <==> c_len == p.r && s_len == p.r * (
        p.delta0 * p.m) && vec_norm_sq(z) <= lab_crs.norm_bound_sq,
        c_len == p.r && s_len == p.r * (p.delta0 * p.m) && vec_norm_sq(z) > lab_crs.norm_bound_sq
            ==> finish_refusal(p, c_len, s_len, z, lab_crs) == Some(GreyhoundError::WitnessNorm),
{
}

/// At a point where `sigma(x)` cannot be divided by, a proof that belongs to its statement is
/// neither accepted nor rejected: the point is an error.
pub proof fn point_without_inverse_is_an_error(
    p: GreyhoundTranscriptParams,
    pp: PublicParams,
    u: Seq<Rq>,
    x: int,
    proof: ProverProof,
    c: Seq<Rq>,
    lab_crs: LabradorCRS,
    rest: Seq<u8>,
)
    requires
        proof.narg_transcript@ == statement_bytes(p, u, x, proof.y@, rqs(proof.v@)) + rest,
        proof.y@[0] == proof.claimed_eval@,
        forall|b: int| #[trigger] ((1 + zq_pow(x, 64)) * b) % q() != 1,
    ensures
        evaluation_decision(p, pp, u, x, proof, c, lab_crs) == Err::<RoundDecision, GreyhoundError>(
            GreyhoundError::NotInvertible,
        ),
{
    let bytes = statement_bytes(p, u, x, proof.y@, rqs(proof.v@));
    assert((bytes + rest).take(bytes.len() as int) =~= bytes);
    if is_unit(sigma_denominator(x)) {
        let b = choose|b: int| #[trigger] is_inverse(sigma_denominator(x), b);
        lemma_modq_mul(1 + zq_pow(x, 64), b);
        assert(((1 + zq_pow(x, 64)) * b) % q() == 1);
    }
}

/// A proof that sends its witness reads nothing out of its transcript.
pub proof fn direct_proof_reads_nothing(
    crs: LabradorCRS,
    proof: LabradorProof,
    rel: Relation,
    t: Transcript,
    unread: Seq<u8>,
)
    requires
        proof.u_1@.len() == 0 && proof.p@.len() == 0 && proof.b_agg@.len() == 0,
        proof.u_2@.len() == 0 && proof.t_flat@.len() == 0 && proof.G_flat@.len() == 0,
        proof.H_flat@.len() == 0,
    ensures
        round_reading(crs, proof, rel, t, unread).read == 0,
        round_reading(crs, proof, rel, t, unread).transcript == t,
{
}

} // verus!
