//! Laws of transcripts: what is absorbed, what is drawn and what is heard.
use vstd::prelude::*;

use crate::bytes::{
    lemma_polys_bytes_injective, lemma_pow256, lemma_rqs_bytes_len, lemma_scalars_bytes_injective,
    lemma_scalars_bytes_len, pow256,
};
use crate::error::GreyhoundError;
use crate::fiat_shamir::{greyhound_name, lemma_params_bytes_len, statement_bytes, statement_seed};
use crate::folding_check::{fold_messages, fold_reading, RoundDecision};
use crate::labrador::{LabradorCRS, LabradorProof, Relation};
use crate::params::GreyhoundTranscriptParams;
use crate::poly::{rqs, zqs};
use crate::round::labrador_name;
use crate::rq::Rq;
use crate::sponge::{heard, padded_name, sponge_session_id, sponge_stream, Transcript};
use crate::tamper::lemma_rqs_encodable;
use crate::zq::lemma_scalar_word;

verus! {

/// Absorbing two messages in turn is absorbing them joined; absorbing nothing changes nothing;
/// and challenges that were drawn before a message do not matter after it.
pub proof fn messages_absorb_in_turn(t: Transcript, a: Seq<u8>, b: Seq<u8>)
    ensures
        t.absorb(a).absorb(b) == t.absorb(a + b),
        a.len() == 0 ==> t.absorb(a) == t,
        a.len() > 0 ==> t.draw().absorb(a) == t.absorb(a),
        t.absorb(a).absorbed == t.absorbed + a,
        t.absorb(a).protocol == t.protocol,
        t.absorb(a).session == t.session,
        a.len() > 0 ==> t.absorb(a).drawn == 0,
{
    assert(t.absorbed + a + b =~= t.absorbed + (a + b));
    if a.len() == 0 {
        assert(a + b =~= b);
        assert(t.absorbed + a =~= t.absorbed);
    }
    if b.len() == 0 {
        assert(a + b =~= a);
    }
}

/// Challenges that follow each other are consecutive blocks of the sponge's output, 32 bytes
/// each, and drawing them absorbs nothing.
pub proof fn challenges_are_consecutive(t: Transcript, k: int)
    requires
        0 <= k < 32,
    ensures
        t.challenge().len() == 32,
        t.challenge()[k] == sponge_stream(t.protocol, t.session, t.absorbed)[32 * t.drawn + k],
        t.draw().challenge()[k] == sponge_stream(t.protocol, t.session, t.absorbed)[32 * t.drawn
            + 32 + k],
        t.draw().absorbed == t.absorbed,
{
}

/// A message is heard exactly if the unread bytes begin with it.
pub proof fn heard_if_it_comes_next(unread: Seq<u8>, message: Seq<u8>, rest: Seq<u8>)
    ensures
        heard(message + rest, message) == Ok::<(), GreyhoundError>(()),
        heard(unread, message) is Ok ==> unread == message + unread.skip(message.len() as int),
        heard(unread, message) == Err::<(), GreyhoundError>(GreyhoundError::TranscriptTooShort)
            <==> unread.len() < message.len(),
{
    assert((message + rest).take(message.len() as int) =~= message);
    if heard(unread, message) is Ok {
        let n = message.len() as int;
        assert(unread =~= unread.take(n) + unread.skip(n));
    }
}

/// The identifier of a protocol holds every character of its name, and zeros behind them, so
/// protocols with different names have different identifiers.
pub proof fn names_have_their_own_identifiers(a: Seq<char>, b: Seq<char>, k: int)
    requires
        a.len() <= 64 && b.len() <= 64,
        forall|i: int| 0 <= i < a.len() ==> 0 < (#[trigger] a[i]) as int && (a[i] as int) < 128,
        forall|i: int| 0 <= i < b.len() ==> 0 < (#[trigger] b[i]) as int && (b[i] as int) < 128,
        0 <= k < 64,
    ensures
        padded_name(a).len() == 64,
        k < a.len() ==> padded_name(a)[k] as int == a[k] as int,
        k >= a.len() ==> padded_name(a)[k] == 0,
        padded_name(a) == padded_name(b) ==> a == b,
{
    if padded_name(a) == padded_name(b) {
        assert forall|i: int| 0 <= i < 64 && i < a.len() implies i < b.len() && #[trigger] a[i]
            == b[i] by {
            assert(padded_name(a)[i] == padded_name(b)[i]);
        }
        if a.len() < b.len() {
            let i = a.len() as int;
            assert(padded_name(a)[i] == padded_name(b)[i]);
            assert(b[i] as int > 0);
        } else if b.len() < a.len() {
            assert(a[b.len() as int] as int > 0);
        }
        assert(a =~= b);
    }
}

/// What the transcript of a folding round begins with.
proof fn lemma_sampled_messages(
    crs: LabradorCRS,
    proof: LabradorProof,
    rel: Relation,
    t: Transcript,
    unread: Seq<u8>,
)
    requires
        fold_reading(crs, proof, rel, t, unread).decision matches Ok(RoundDecision::Sample { .. }),
    ensures
        ({
            let (m1, m2, m3, m4) = fold_messages(proof);
            let e1 = m1.len() as int;
            let e2 = e1 + m2.len();
            let e3 = e2 + m3.len();
            &&& unread.len() >= e3 + m4.len()
            &&& unread.take(e1) == m1
            &&& unread.skip(e1).take(m2.len() as int) == m2
            &&& unread.skip(e2).take(m3.len() as int) == m3
            &&& unread.skip(e3).take(m4.len() as int) == m4
        }),
{
}

/// A transcript fixes the messages of a folding round: two proofs whose messages are heard in the
/// same bytes, and have the same lengths, hold the same outer commitments, projections and
/// aggregated terms.
pub proof fn transcript_fixes_fold_messages(
    crs: LabradorCRS,
    proof: LabradorProof,
    rel: Relation,
    crs2: LabradorCRS,
    proof2: LabradorProof,
    rel2: Relation,
    t: Transcript,
    unread: Seq<u8>,
)
    requires
        fold_reading(crs, proof, rel, t, unread).decision matches Ok(RoundDecision::Sample { .. }),
        fold_reading(crs2, proof2, rel2, t, unread).decision matches Ok(
            RoundDecision::Sample { .. },
        ),
        proof.u_1@.len() == proof2.u_1@.len(),
        proof.p@.len() == proof2.p@.len(),
        proof.b_agg@.len() == proof2.b_agg@.len(),
        proof.u_2@.len() == proof2.u_2@.len(),
    ensures
        rqs(proof.u_1@) == rqs(proof2.u_1@),
        zqs(proof.p@) == zqs(proof2.p@),
        rqs(proof.b_agg@) == rqs(proof2.b_agg@),
        rqs(proof.u_2@) == rqs(proof2.u_2@),
{
    lemma_sampled_messages(crs, proof, rel, t, unread);
    lemma_sampled_messages(crs2, proof2, rel2, t, unread);
    lemma_rqs_bytes_len(proof.u_1@);
    lemma_rqs_bytes_len(proof2.u_1@);
    lemma_rqs_bytes_len(proof.b_agg@);
    lemma_rqs_bytes_len(proof2.b_agg@);
    lemma_rqs_bytes_len(proof.u_2@);
    lemma_rqs_bytes_len(proof2.u_2@);
    lemma_scalars_bytes_len(zqs(proof.p@));
    lemma_scalars_bytes_len(zqs(proof2.p@));
    lemma_rqs_encodable(proof.u_1@);
    lemma_rqs_encodable(proof2.u_1@);
    lemma_rqs_encodable(proof.b_agg@);
    lemma_rqs_encodable(proof2.b_agg@);
    lemma_rqs_encodable(proof.u_2@);
    lemma_rqs_encodable(proof2.u_2@);
    lemma_polys_bytes_injective(rqs(proof.u_1@), rqs(proof2.u_1@));
    lemma_polys_bytes_injective(rqs(proof.b_agg@), rqs(proof2.b_agg@));
    lemma_polys_bytes_injective(rqs(proof.u_2@), rqs(proof2.u_2@));
    lemma_pow256();
    assert forall|i: int| 0 <= i < proof.p@.len() implies 0 <= #[trigger] zqs(proof.p@)[i]
        < pow256(8) by {
        lemma_scalar_word(proof.p@[i]);
    }
    assert forall|i: int| 0 <= i < proof2.p@.len() implies 0 <= #[trigger] zqs(proof2.p@)[i]
        < pow256(8) by {
        lemma_scalar_word(proof2.p@[i]);
    }
    lemma_scalars_bytes_injective(zqs(proof.p@), zqs(proof2.p@));
}

/// A fresh transcript holds its protocol and the identifier of its session, and nothing else.
pub proof fn fresh_transcript_is_empty(protocol: Seq<u8>, session: Seq<char>)
    ensures
        Transcript::start(protocol, session).protocol == protocol,
        Transcript::start(protocol, session).session == sponge_session_id(session),
        Transcript::start(protocol, session).absorbed.len() == 0,
        Transcript::start(protocol, session).drawn == 0,
{
}

/// The seed of a challenge is the first block of what the sponge gives out after exactly the
/// bytes of the statement.
pub proof fn seed_answers_whole_statement(
    p: GreyhoundTranscriptParams,
    u: Seq<Rq>,
    x: int,
    y: Rq,
    v: Seq<Rq>,
    k: int,
)
    requires
        0 <= k < 32,
    ensures
        statement_seed(p, u, x, y, v).len() == 32,
        statement_seed(p, u, x, y, v)[k] == sponge_stream(
            padded_name("greyhound proof"@),
            sponge_session_id("greyhound_pcs"@),
            statement_bytes(p, u, x, y, v),
        )[k],
{
    let b = statement_bytes(p, u, x, y, v);
    lemma_params_bytes_len(p);
    assert(Seq::<u8>::empty() + b =~= b);
}

/// The two protocols have different identifiers, so no transcript of one is one of the other.
pub proof fn protocols_are_kept_apart()
    ensures
        padded_name(greyhound_name()) != padded_name(labrador_name()),
{
    reveal_strlit("greyhound proof");
    reveal_strlit("labrador proof");
    let (a, b) = (greyhound_name(), labrador_name());
    assert(a[0] == 'g' && b[0] == 'l');
    assert(padded_name(a)[0] != padded_name(b)[0]);
}

} // verus!
