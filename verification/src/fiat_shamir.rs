//! The Fiat-Shamir transcript of an evaluation proof.
use vstd::prelude::*;

use crate::bytes::{
    is_encodable, le_bytes, lemma_le_bytes_injective, lemma_le_bytes_len,
    lemma_polys_bytes_injective, lemma_polys_bytes_len, lemma_pow256, lemma_scalars_bytes_injective,
    lemma_scalars_bytes_len, poly_to_bytes, polys_bytes, scalars_bytes, to_bytes, zq_to_bytes,
};
use crate::error::GreyhoundError;
use crate::params::{
    greyhound_params, greyhound_transcript_params, params_bytes, transcript_params_to_bytes,
    GreyhoundTranscriptParams,
};
use crate::poly::{rqs, PolyRing};
use crate::rq::Rq;
use crate::sponge::{heard, pad_protocol_id, padded_name, ProverState, Transcript, VerifierState};
use crate::zq::{q, Zq};

verus! {

/// The transcript of an evaluation proof: the parameters, the commitment, the evaluation point,
/// the evaluation and the prover's message are absorbed, and one seed is drawn.
pub struct FiatShamirGreyhound;

/// The name of the protocol.
pub open spec fn greyhound_name() -> Seq<char> {
    "greyhound proof"@
}

/// The name of the session.
pub open spec fn greyhound_session() -> Seq<char> {
    "greyhound_pcs"@
}

/// The transcript before any message.
pub open spec fn greyhound_start() -> Transcript {
    Transcript::start(padded_name(greyhound_name()), greyhound_session())
}

/// Everything that the challenge is bound to.
pub open spec fn statement_bytes(
    params: GreyhoundTranscriptParams,
    u: Seq<Rq>,
    x: int,
    y: Rq,
    v: Seq<Rq>,
) -> Seq<u8> {
    params_bytes(params) + polys_bytes(u) + le_bytes(x, 8) + scalars_bytes(y) + polys_bytes(v)
}

/// Everything that the challenge is bound to.
fn statement_to_bytes(
    params: &GreyhoundTranscriptParams,
    u: &[PolyRing],
    x: &Zq,
    y: &PolyRing,
    v: &[PolyRing],
) -> (r: Vec<u8>)
    ensures
        r@ == statement_bytes(*params, rqs(u@), x@, y@, rqs(v@)),
{
    let mut out = transcript_params_to_bytes(params);
    let mut ub = to_bytes(u);
    out.append(&mut ub);
    let mut xb = zq_to_bytes(x);
    out.append(&mut xb);
    let mut yb = poly_to_bytes(y);
    out.append(&mut yb);
    let mut vb = to_bytes(v);
    out.append(&mut vb);
    out
}

impl FiatShamirGreyhound {
    /// The identifier of the protocol in its transcript.
    pub fn protocol_id() -> (r: [u8; 64])
        ensures
            r@ == padded_name(greyhound_name()),
            r@ == padded_name("greyhound proof"@),
    {
        proof {
            reveal_strlit("greyhound proof");
        }
        pad_protocol_id("greyhound proof")
    }

    /// A fresh transcript for the prover.
    pub fn prover_state() -> (r: ProverState)
        ensures
            r@ == greyhound_start(),
            r@ == Transcript::start(padded_name("greyhound proof"@), "greyhound_pcs"@),
    {
        ProverState::new(Self::protocol_id(), "greyhound_pcs")
    }

    /// A transcript for the verifier.
    pub fn verifier_state<'a>(narg: &'a [u8]) -> (r: VerifierState<'a>)
        ensures
            r@ == greyhound_start(),
            r@ == Transcript::start(padded_name("greyhound proof"@), "greyhound_pcs"@),
            r.unread() == narg@,
    {
        VerifierState::new(Self::protocol_id(), "greyhound_pcs", narg)
    }

    /// Absorbs the statement and draws the seed of the challenge.
    pub fn prove_with_params(
        prover_state: &mut ProverState,
        params: GreyhoundTranscriptParams,
        u: &[PolyRing],
        x: &Zq,
        y: &PolyRing,
        v: &[PolyRing],
    ) -> (seed: [u8; 32])
        ensures
            ({
                let bytes = statement_bytes(params, rqs(u@), x@, y@, rqs(v@));
                &&& seed@ == old(prover_state)@.absorb(bytes).challenge()
                &&& final(prover_state)@ == old(prover_state)@.absorb(bytes).draw()
            }),
    {
        let bytes = statement_to_bytes(&params, u, x, y, v);
        proof {
            lemma_statement_len(params, rqs(u@), x@, y@, rqs(v@));
        }
        prover_state.prover_message(bytes.as_slice());
        prover_state.verifier_message()
    }

    /// Absorbs the statement for the parameters of the scheme and draws the seed of the challenge.
    pub fn prove(
        prover_state: &mut ProverState,
        u: &[PolyRing],
        x: &Zq,
        y: &PolyRing,
        v: &[PolyRing],
    ) -> (seed: [u8; 32])
        ensures
            ({
                let bytes = statement_bytes(greyhound_params(), rqs(u@), x@, y@, rqs(v@));
                &&& seed@ == old(prover_state)@.absorb(bytes).challenge()
                &&& final(prover_state)@ == old(prover_state)@.absorb(bytes).draw()
            }),
    {
        Self::prove_with_params(prover_state, greyhound_transcript_params(), u, x, y, v)
    }

    /// Reads the statement out of the transcript and draws the seed of the challenge. A
    /// transcript of another statement is refused.
    pub fn verify_with_params(
        verifier_state: VerifierState,
        params: GreyhoundTranscriptParams,
        u: &[PolyRing],
        x: &Zq,
        y: &PolyRing,
        v: &[PolyRing],
    ) -> (r: Result<[u8; 32], GreyhoundError>)
        ensures
            ({
                let bytes = statement_bytes(params, rqs(u@), x@, y@, rqs(v@));
                let unread = verifier_state.unread();
                &&& r is Ok == (bytes.len() <= unread.len() && unread.take(bytes.len() as int)
                    == bytes)
                &&& r matches Ok(seed) ==> seed@ == verifier_state@.absorb(bytes).challenge()
                &&& r matches Err(e) ==> e == (if unread.len() < bytes.len() {
                    GreyhoundError::TranscriptTooShort
                } else {
                    GreyhoundError::TranscriptMismatch
                })
            }),
    {
        let bytes = statement_to_bytes(&params, u, x, y, v);
        proof {
            lemma_statement_len(params, rqs(u@), x@, y@, rqs(v@));
        }
        let mut state = verifier_state;
        match state.prover_message(bytes.as_slice()) {
            Ok(()) => Ok(state.verifier_message()),
            Err(e) => Err(e),
        }
    }

    /// Reads the statement for the parameters of the scheme out of the transcript and draws the
    /// seed of the challenge.
    pub fn verify(
        verifier_state: VerifierState,
        u: &[PolyRing],
        x: &Zq,
        y: &PolyRing,
        v: &[PolyRing],
    ) -> (r: Result<[u8; 32], GreyhoundError>)
        ensures
            ({
                let bytes = statement_bytes(greyhound_params(), rqs(u@), x@, y@, rqs(v@));
                let unread = verifier_state.unread();
                &&& r is Ok == (bytes.len() <= unread.len() && unread.take(bytes.len() as int)
                    == bytes)
                &&& r matches Ok(seed) ==> seed@ == verifier_state@.absorb(bytes).challenge()
                &&& r matches Err(e) ==> e == (if unread.len() < bytes.len() {
                    GreyhoundError::TranscriptTooShort
                } else {
                    GreyhoundError::TranscriptMismatch
                })
            }),
    {
        Self::verify_with_params(verifier_state, greyhound_transcript_params(), u, x, y, v)
    }
}

/// A challenge that is to be sampled: `count` ring elements with `ones` coefficients `1` or `-1`
/// and `twos` coefficients `2` or `-2`, of bounded operator norm.
pub struct ChallengeRequest {
    /// The seed.
    pub seed: [u8; 32],
    /// How many ring elements.
    pub count: usize,
    /// Coefficients of size one.
    pub ones: u32,
    /// Coefficients of size two.
    pub twos: u32,
    /// Bound on the operator norm.
    pub operator_norm: u32,
}

/// The challenge for a seed: one ring element for each column.
pub fn challenge_request_with_params(params: &GreyhoundTranscriptParams, seed: [u8; 32]) -> (r:
    ChallengeRequest)
    ensures
        r.seed == seed,
        r.count == params.r,
        r.ones == 31,
        r.twos == 10,
        r.operator_norm == 15,
{
    ChallengeRequest { seed, count: params.r as usize, ones: 31, twos: 10, operator_norm: 15 }
}

/// The challenge for a seed with the parameters of the scheme.
pub fn challenge_request(seed: [u8; 32]) -> (r: ChallengeRequest)
    ensures
        r.seed == seed,
        r.count == 333,
        r.ones == 31,
        r.twos == 10,
        r.operator_norm == 15,
{
    challenge_request_with_params(&greyhound_transcript_params(), seed)
}

/// The seed that a fresh transcript gives for a statement.
pub open spec fn statement_seed(
    params: GreyhoundTranscriptParams,
    u: Seq<Rq>,
    x: int,
    y: Rq,
    v: Seq<Rq>,
) -> Seq<u8> {
    greyhound_start().absorb(statement_bytes(params, u, x, y, v)).challenge()
}

/// The seed of the challenge for a statement, from a fresh transcript.
pub fn greyhound_challenge_seed_with_params(
    params: GreyhoundTranscriptParams,
    u: &[PolyRing],
    x: &Zq,
    y: &PolyRing,
    v: &[PolyRing],
) -> (seed: [u8; 32])
    ensures
        seed@ == statement_seed(params, rqs(u@), x@, y@, rqs(v@)),
{
    let mut prover_state = FiatShamirGreyhound::prover_state();
    FiatShamirGreyhound::prove_with_params(&mut prover_state, params, u, x, y, v)
}

/// The parameters are encoded in 32 bytes.
pub proof fn lemma_params_bytes_len(p: GreyhoundTranscriptParams)
    ensures
        params_bytes(p).len() == 32,
{
    lemma_le_bytes_len(p.n as int, 4);
    lemma_le_bytes_len(p.m as int, 4);
    lemma_le_bytes_len(p.r as int, 4);
    lemma_le_bytes_len(p.nrows as int, 4);
    lemma_le_bytes_len(p.b0 as int, 4);
    lemma_le_bytes_len(p.delta0 as int, 4);
    lemma_le_bytes_len(p.b1 as int, 4);
    lemma_le_bytes_len(p.delta as int, 4);
}

proof fn lemma_statement_len(
    params: GreyhoundTranscriptParams,
    u: Seq<Rq>,
    x: int,
    y: Rq,
    v: Seq<Rq>,
)
    ensures
        statement_bytes(params, u, x, y, v).len() >= 32,
{
    lemma_params_bytes_len(params);
}

/// Different parameters have different encodings.
pub proof fn params_encoding_is_injective(
    p1: GreyhoundTranscriptParams,
    p2: GreyhoundTranscriptParams,
)
    requires
        params_bytes(p1) == params_bytes(p2),
    ensures
        p1 == p2,
{
    lemma_pow256();
    let word = |p: GreyhoundTranscriptParams, i: int|
        if i == 0 {
            p.n
        } else if i == 1 {
            p.m
        } else if i == 2 {
            p.r
        } else if i == 3 {
            p.nrows
        } else if i == 4 {
            p.b0
        } else if i == 5 {
            p.delta0
        } else if i == 6 {
            p.b1
        } else {
            p.delta
        };
    assert forall|i: int| 0 <= i < 8 implies #[trigger] word(p1, i) == word(p2, i) by {
        lemma_params_word(p1, i, word(p1, i));
        lemma_params_word(p2, i, word(p2, i));
        lemma_le_bytes_injective(word(p1, i) as int, word(p2, i) as int, 4);
    }
    assert(word(p1, 0) == word(p2, 0));
    assert(word(p1, 1) == word(p2, 1));
    assert(word(p1, 2) == word(p2, 2));
    assert(word(p1, 3) == word(p2, 3));
    assert(word(p1, 4) == word(p2, 4));
    assert(word(p1, 5) == word(p2, 5));
    assert(word(p1, 6) == word(p2, 6));
    assert(word(p1, 7) == word(p2, 7));
}

proof fn lemma_params_word(p: GreyhoundTranscriptParams, i: int, w: u32)
    requires
        0 <= i < 8,
        w == (if i == 0 {
            p.n
        } else if i == 1 {
            p.m
        } else if i == 2 {
            p.r
        } else if i == 3 {
            p.nrows
        } else if i == 4 {
            p.b0
        } else if i == 5 {
            p.delta0
        } else if i == 6 {
            p.b1
        } else {
            p.delta
        }),
    ensures
        params_bytes(p).subrange(4 * i, 4 * i + 4) == le_bytes(w as int, 4),
{
    lemma_params_bytes_len(p);
    lemma_le_bytes_len(p.n as int, 4);
    lemma_le_bytes_len(p.m as int, 4);
    lemma_le_bytes_len(p.r as int, 4);
    lemma_le_bytes_len(p.nrows as int, 4);
    lemma_le_bytes_len(p.b0 as int, 4);
    lemma_le_bytes_len(p.delta0 as int, 4);
    lemma_le_bytes_len(p.b1 as int, 4);
    lemma_le_bytes_len(p.delta as int, 4);
    assert(params_bytes(p).subrange(4 * i, 4 * i + 4) =~= le_bytes(w as int, 4));
}

/// Statements that are absorbed as the same bytes agree, and so do the encodings of their points.
pub proof fn lemma_statement_parts(
    p1: GreyhoundTranscriptParams,
    u1: Seq<Rq>,
    x1: int,
    y1: Rq,
    v1: Seq<Rq>,
    p2: GreyhoundTranscriptParams,
    u2: Seq<Rq>,
    x2: int,
    y2: Rq,
    v2: Seq<Rq>,
)
    requires
        u1.len() == u2.len(),
        v1.len() == v2.len(),
        forall|i: int| 0 <= i < u1.len() ==> is_encodable(#[trigger] u1[i]),
        forall|i: int| 0 <= i < u2.len() ==> is_encodable(#[trigger] u2[i]),
        forall|i: int| 0 <= i < v1.len() ==> is_encodable(#[trigger] v1[i]),
        forall|i: int| 0 <= i < v2.len() ==> is_encodable(#[trigger] v2[i]),
        is_encodable(y1) && is_encodable(y2),
        statement_bytes(p1, u1, x1, y1, v1) == statement_bytes(p2, u2, x2, y2, v2),
    ensures
        p1 == p2,
        u1 == u2,
        le_bytes(x1, 8) == le_bytes(x2, 8),
        y1 == y2,
        v1 == v2,
{
    let (s1, s2) = (statement_bytes(p1, u1, x1, y1, v1), statement_bytes(p2, u2, x2, y2, v2));
    lemma_params_bytes_len(p1);
    lemma_params_bytes_len(p2);
    lemma_polys_bytes_len(u1);
    lemma_polys_bytes_len(u2);
    lemma_polys_bytes_len(v1);
    lemma_polys_bytes_len(v2);
    lemma_le_bytes_len(x1, 8);
    lemma_le_bytes_len(x2, 8);
    lemma_scalars_bytes_len(y1);
    lemma_scalars_bytes_len(y2);
    let e1 = 32 + 512 * u1.len() as int;
    let e2 = e1 + 8;
    let e3 = e2 + 512;
    let e4 = e3 + 512 * v1.len();
    assert(s1.subrange(0, 32) =~= params_bytes(p1));
    assert(s2.subrange(0, 32) =~= params_bytes(p2));
    params_encoding_is_injective(p1, p2);
    assert(s1.subrange(32, e1) =~= polys_bytes(u1));
    assert(s2.subrange(32, e1) =~= polys_bytes(u2));
    lemma_polys_bytes_injective(u1, u2);
    assert(s1.subrange(e1, e2) =~= le_bytes(x1, 8));
    assert(s2.subrange(e1, e2) =~= le_bytes(x2, 8));
    assert(s1.subrange(e2, e3) =~= scalars_bytes(y1));
    assert(s2.subrange(e2, e3) =~= scalars_bytes(y2));
    lemma_scalars_bytes_injective(y1, y2);
    assert(s1.subrange(e3, e4) =~= polys_bytes(v1));
    assert(s2.subrange(e3, e4) =~= polys_bytes(v2));
    lemma_polys_bytes_injective(v1, v2);
}

/// The transcript is bound to the statement: two statements with vectors of the same lengths
/// are absorbed as the same bytes only if they are the same, in their parameters, commitment,
/// evaluation point, evaluation and prover's message.
pub proof fn transcript_binds_statement(
    p1: GreyhoundTranscriptParams,
    u1: Seq<Rq>,
    x1: int,
    y1: Rq,
    v1: Seq<Rq>,
    p2: GreyhoundTranscriptParams,
    u2: Seq<Rq>,
    x2: int,
    y2: Rq,
    v2: Seq<Rq>,
)
    requires
        u1.len() == u2.len(),
        v1.len() == v2.len(),
        forall|i: int| 0 <= i < u1.len() ==> is_encodable(#[trigger] u1[i]),
        forall|i: int| 0 <= i < u2.len() ==> is_encodable(#[trigger] u2[i]),
        forall|i: int| 0 <= i < v1.len() ==> is_encodable(#[trigger] v1[i]),
        forall|i: int| 0 <= i < v2.len() ==> is_encodable(#[trigger] v2[i]),
        is_encodable(y1) && is_encodable(y2),
        0 <= x1 < q() && 0 <= x2 < q(),
        statement_bytes(p1, u1, x1, y1, v1) == statement_bytes(p2, u2, x2, y2, v2),
    ensures
        p1 == p2,
        u1 == u2,
        x1 == x2,
        y1 == y2,
        v1 == v2,
{
    lemma_statement_parts(p1, u1, x1, y1, v1, p2, u2, x2, y2, v2);
    lemma_pow256();
    lemma_le_bytes_injective(x1, x2, 8);
}

/// Statements with vectors of the same lengths are encoded in the same number of bytes.
pub proof fn lemma_same_statement_len(
    p1: GreyhoundTranscriptParams,
    u1: Seq<Rq>,
    x1: int,
    y1: Rq,
    v1: Seq<Rq>,
    p2: GreyhoundTranscriptParams,
    u2: Seq<Rq>,
    x2: int,
    y2: Rq,
    v2: Seq<Rq>,
)
    requires
        u1.len() == u2.len(),
        v1.len() == v2.len(),
        forall|i: int| 0 <= i < u1.len() ==> is_encodable(#[trigger] u1[i]),
        forall|i: int| 0 <= i < u2.len() ==> is_encodable(#[trigger] u2[i]),
        forall|i: int| 0 <= i < v1.len() ==> is_encodable(#[trigger] v1[i]),
        forall|i: int| 0 <= i < v2.len() ==> is_encodable(#[trigger] v2[i]),
        is_encodable(y1) && is_encodable(y2),
    ensures
        statement_bytes(p1, u1, x1, y1, v1).len() == statement_bytes(p2, u2, x2, y2, v2).len(),
{
    lemma_params_bytes_len(p1);
    lemma_params_bytes_len(p2);
    lemma_polys_bytes_len(u1);
    lemma_polys_bytes_len(u2);
    lemma_polys_bytes_len(v1);
    lemma_polys_bytes_len(v2);
    lemma_le_bytes_len(x1, 8);
    lemma_le_bytes_len(x2, 8);
    lemma_scalars_bytes_len(y1);
    lemma_scalars_bytes_len(y2);
}

/// A transcript of another statement is refused, whatever follows: where the vectors have the
/// same lengths, no part of the statement can differ.
pub proof fn another_statement_is_refused(
    p1: GreyhoundTranscriptParams,
    u1: Seq<Rq>,
    x1: int,
    y1: Rq,
    v1: Seq<Rq>,
    p2: GreyhoundTranscriptParams,
    u2: Seq<Rq>,
    x2: int,
    y2: Rq,
    v2: Seq<Rq>,
    rest: Seq<u8>,
)
    requires
        u1.len() == u2.len(),
        v1.len() == v2.len(),
        forall|i: int| 0 <= i < u1.len() ==> is_encodable(#[trigger] u1[i]),
        forall|i: int| 0 <= i < u2.len() ==> is_encodable(#[trigger] u2[i]),
        forall|i: int| 0 <= i < v1.len() ==> is_encodable(#[trigger] v1[i]),
        forall|i: int| 0 <= i < v2.len() ==> is_encodable(#[trigger] v2[i]),
        is_encodable(y1) && is_encodable(y2),
        0 <= x1 < q() && 0 <= x2 < q(),
        !(p1 == p2 && u1 == u2 && x1 == x2 && y1 == y2 && v1 == v2),
    ensures
        heard(
            statement_bytes(p2, u2, x2, y2, v2) + rest,
            statement_bytes(p1, u1, x1, y1, v1),
        ) == Err::<(), GreyhoundError>(GreyhoundError::TranscriptMismatch),
{
    let (s1, s2) = (statement_bytes(p1, u1, x1, y1, v1), statement_bytes(p2, u2, x2, y2, v2));
    lemma_same_statement_len(p1, u1, x1, y1, v1, p2, u2, x2, y2, v2);
    assert((s2 + rest).take(s1.len() as int) =~= s2);
    if s1 == s2 {
        transcript_binds_statement(p1, u1, x1, y1, v1, p2, u2, x2, y2, v2);
    }
}

/// A verifier that is handed what the prover wrote hears the prover's message, whatever follows.
pub proof fn verifier_hears_prover(message: Seq<u8>, rest: Seq<u8>)
    ensures
        heard(message + rest, message) == Ok::<(), GreyhoundError>(()),
{
    assert((message + rest).take(message.len() as int) =~= message);
}

} // verus!
