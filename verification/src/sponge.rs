//! Fiat-Shamir transcripts over the duplex sponge of the `spongefish` crate.
use spongefish::DomainSeparator;
use vstd::prelude::*;

use crate::error::GreyhoundError;

verus! {

/// The session identifier that `spongefish` derives from a session name.
pub uninterp spec fn sponge_session_id(name: Seq<char>) -> Seq<u8>;

/// The first 1024 bytes that the sponge for a protocol and a session gives out once it has
/// absorbed the bytes `absorbed`.
pub uninterp spec fn sponge_stream(
    protocol: Seq<u8>,
    session: Seq<u8>,
    absorbed: Seq<u8>,
) -> Seq<u8>;

/// `spongefish::session_id_from_str`, which computes what the crate's `session!` macro does: the
/// identifier is a function of the name alone.
#[verifier::external_body]
fn derive_session_id(name: &str) -> (r: [u8; 64])
    ensures
        r@ == sponge_session_id(name@),
{
    spongefish::session_id_from_str(name)
}

/// `ProverState::verifier_message` on the state of `DomainSeparator::std_prover`, for an empty
/// instance, after `ProverState::prover_messages` on the absorbed bytes: the bytes that come out
/// are a function of the protocol, the session and what was absorbed.
#[verifier::external_body]
fn prover_stream(protocol: &[u8; 64], session: &[u8; 64], absorbed: &[u8]) -> (r: [u8; 1024])
    ensures
        r@ == sponge_stream(protocol@, session@, absorbed@),
{
    let mut state = DomainSeparator::new(*protocol).session(*session).instance(&[0u8; 0]).std_prover();
    state.prover_messages::<u8>(absorbed);
    state.verifier_message::<[u8; 1024]>()
}

/// `ProverState::narg_string` on the same state: the prover messages, one after the other.
#[verifier::external_body]
fn prover_narg(protocol: &[u8; 64], session: &[u8; 64], absorbed: &[u8]) -> (r: Vec<u8>)
    ensures
        r@ == absorbed@,
{
    let mut state = DomainSeparator::new(*protocol).session(*session).instance(&[0u8; 0]).std_prover();
    state.prover_messages::<u8>(absorbed);
    state.narg_string().to_vec()
}

/// `VerifierState::verifier_message` on the state of `DomainSeparator::std_verifier`, for an
/// empty instance, after `VerifierState::prover_messages_vec` has read `read` single bytes. The
/// bytes that were read have been absorbed, as the prover absorbed them; reading fails if and
/// only if fewer are there.
#[verifier::external_body]
fn verifier_stream(protocol: &[u8; 64], session: &[u8; 64], narg: &[u8], read: usize) -> (r: Option<
    [u8; 1024],
>)
    ensures
        r is Some == (read <= narg@.len()),
        r matches Some(bytes) ==> bytes@ == sponge_stream(
            protocol@,
            session@,
            narg@.take(read as int),
        ),
{
    let separator = DomainSeparator::new(*protocol).session(*session).instance(&[0u8; 0]);
    let mut state = separator.std_verifier(narg);
    match state.prover_messages_vec::<[u8; 1]>(read) {
        Ok(_) => Some(state.verifier_message::<[u8; 1024]>()),
        Err(_) => None,
    }
}

/// Challenges that can be drawn before the next message is absorbed.
pub const MAX_CHALLENGES: usize = 32;

/// Challenge number `index` since the last absorbed byte: the sponge's output is handed out in
/// blocks of 32 bytes.
pub open spec fn challenge_at(
    protocol: Seq<u8>,
    session: Seq<u8>,
    absorbed: Seq<u8>,
    index: int,
) -> Seq<u8> {
    Seq::new(32, |k: int| sponge_stream(protocol, session, absorbed)[32 * index + k])
}

/// Block number `index` of 32 bytes.
fn block(bytes: &[u8; 1024], index: usize) -> (r: [u8; 32])
    requires
        index < MAX_CHALLENGES,
    ensures
        r@ == Seq::new(32, |k: int| bytes@[32 * index + k]),
{
    let mut out: [u8; 32] = [0u8; 32];
    for k in 0..32usize
        invariant
            index < 32,
            forall|j: int| 0 <= j < k ==> #[trigger] out@[j] == bytes@[32 * index + j],
    {
        let b: u8 = bytes[32 * index + k];
        out[k] = b;
    }
    assert(out@ =~= Seq::new(32, |k: int| bytes@[32 * index + k]));
    out
}

/// The identifier of a protocol: its ASCII name, filled up with zeros to 64 bytes.
pub open spec fn padded_name(name: Seq<char>) -> Seq<u8> {
    Seq::new(64, |k: int| if k < name.len() { name[k] as u8 } else { 0 })
}

/// The identifier of the protocol with the given ASCII name of at most 64 characters.
pub fn pad_protocol_id(name: &str) -> (r: [u8; 64])
    requires
        name.is_ascii(),
        name@.len() <= 64,
    ensures
        r@ == padded_name(name@),
{
    let mut id: [u8; 64] = [0u8; 64];
    let n: usize = name.unicode_len();
    for k in 0..n
        invariant
            name.is_ascii(),
            n == name@.len(),
            n <= 64,
            forall|j: int| 0 <= j < k ==> #[trigger] id@[j] == name@[j] as u8,
            forall|j: int| k <= j < 64 ==> #[trigger] id@[j] == 0,
    {
        let b: u8 = name.get_ascii(k);
        id[k] = b;
    }
    assert(id@ =~= padded_name(name@));
    id
}

/// What a transcript consists of so far.
pub struct Transcript {
    /// The identifier of the protocol.
    pub protocol: Seq<u8>,
    /// The identifier of the session.
    pub session: Seq<u8>,
    /// The bytes of all prover messages.
    pub absorbed: Seq<u8>,
    /// The challenges drawn since the last of these bytes.
    pub drawn: nat,
}

impl Transcript {
    /// The transcript of a named session before any message.
    pub open spec fn start(protocol: Seq<u8>, session_name: Seq<char>) -> Transcript {
        Transcript {
            protocol,
            session: sponge_session_id(session_name),
            absorbed: Seq::empty(),
            drawn: 0,
        }
    }

    /// The transcript after a prover message, byte by byte.
    pub open spec fn absorb(self, message: Seq<u8>) -> Transcript {
        if message.len() == 0 {
            self
        } else {
            Transcript { absorbed: self.absorbed + message, drawn: 0, ..self }
        }
    }

    /// The next challenge.
    pub open spec fn challenge(self) -> Seq<u8> {
        challenge_at(self.protocol, self.session, self.absorbed, self.drawn as int)
    }

    /// The transcript after the next challenge.
    pub open spec fn draw(self) -> Transcript {
        Transcript { drawn: self.drawn + 1, ..self }
    }
}

/// The prover's side of a transcript.
pub struct ProverState {
    protocol: [u8; 64],
    session: [u8; 64],
    absorbed: Vec<u8>,
    drawn: usize,
}

impl View for ProverState {
    type V = Transcript;

    closed spec fn view(&self) -> Transcript {
        Transcript {
            protocol: self.protocol@,
            session: self.session@,
            absorbed: self.absorbed@,
            drawn: self.drawn as nat,
        }
    }
}

impl ProverState {
    /// Starts a transcript.
    pub fn new(protocol: [u8; 64], session_name: &str) -> (r: ProverState)
        ensures
            r@ == Transcript::start(protocol@, session_name@),
    {
        let r = ProverState {
            protocol,
            session: derive_session_id(session_name),
            absorbed: Vec::new(),
            drawn: 0,
        };
        assert(r@.absorbed =~= Seq::empty());
        r
    }

    /// Absorbs the bytes of a message.
    pub fn prover_message(&mut self, message: &[u8])
        ensures
            final(self)@ == old(self)@.absorb(message@),
    {
        if message.len() == 0 {
            return;
        }
        self.absorbed.extend_from_slice(message);
        self.drawn = 0;
        assert(self.absorbed@ =~= old(self).absorbed@ + message@);
    }

    /// Draws a challenge.
    pub fn verifier_message(&mut self) -> (r: [u8; 32])
        requires
            old(self)@.drawn < MAX_CHALLENGES,
        ensures
            r@ == old(self)@.challenge(),
            final(self)@ == old(self)@.draw(),
    {
        let bytes = prover_stream(&self.protocol, &self.session, self.absorbed.as_slice());
        let r = block(&bytes, self.drawn);
        self.drawn = self.drawn + 1;
        r
    }

    /// The bytes of all prover messages, from which a verifier can draw the same challenges.
    pub fn narg_string(&self) -> (r: Vec<u8>)
        ensures
            r@ == self@.absorbed,
    {
        prover_narg(&self.protocol, &self.session, self.absorbed.as_slice())
    }
}

/// Whether the unread bytes of a transcript start with a message.
pub open spec fn heard(unread: Seq<u8>, message: Seq<u8>) -> Result<(), GreyhoundError> {
    if unread.len() < message.len() {
        Err(GreyhoundError::TranscriptTooShort)
    } else if unread.take(message.len() as int) != message {
        Err(GreyhoundError::TranscriptMismatch)
    } else {
        Ok(())
    }
}

/// The verifier's side of a transcript: the prover messages are read out of a byte string.
pub struct VerifierState<'a> {
    protocol: [u8; 64],
    session: [u8; 64],
    narg: &'a [u8],
    read: usize,
    drawn: usize,
}

impl<'a> View for VerifierState<'a> {
    type V = Transcript;

    closed spec fn view(&self) -> Transcript {
        Transcript {
            protocol: self.protocol@,
            session: self.session@,
            absorbed: self.narg@.take(self.read as int),
            drawn: self.drawn as nat,
        }
    }
}

impl<'a> VerifierState<'a> {
    #[verifier::type_invariant]
    closed spec fn in_range(self) -> bool {
        self.read <= self.narg@.len()
    }

    /// The bytes that have not been read.
    pub closed spec fn unread(self) -> Seq<u8> {
        self.narg@.skip(self.read as int)
    }

    /// Starts reading a transcript.
    pub fn new(protocol: [u8; 64], session_name: &str, narg: &'a [u8]) -> (r: VerifierState<'a>)
        ensures
            r@ == Transcript::start(protocol@, session_name@),
            r.unread() == narg@,
    {
        let r = VerifierState {
            protocol,
            session: derive_session_id(session_name),
            narg,
            read: 0,
            drawn: 0,
        };
        assert(r@.absorbed =~= Seq::empty());
        assert(r.unread() =~= narg@);
        r
    }

    /// Reads and absorbs a message, which must be the given one.
    pub fn prover_message(&mut self, message: &[u8]) -> (r: Result<(), GreyhoundError>)
        ensures
            r == heard(old(self).unread(), message@),
            r is Ok ==> final(self)@ == old(self)@.absorb(message@),
            r is Ok ==> final(self).unread() == old(self).unread().skip(message@.len() as int),
            r is Err ==> final(self)@ == old(self)@ && final(self).unread() == old(self).unread(),
    {
        proof {
            use_type_invariant(&*self);
        }
        let len: usize = message.len();
        if len == 0 {
            assert(self.unread().skip(0) =~= self.unread());
            assert(self.unread().take(0) =~= message@);
            return Ok(());
        }
        let end: usize = match self.read.checked_add(len) {
            Some(end) => end,
            None => {
                assert(self.narg.len() <= usize::MAX);
                return Err(GreyhoundError::TranscriptTooShort);
            },
        };
        match verifier_stream(&self.protocol, &self.session, self.narg, end) {
            None => Err(GreyhoundError::TranscriptTooShort),
            Some(_) => {
                for i in 0..len
                    invariant
                        len == message@.len(),
                        self.read + len == end,
                        end <= self.narg@.len(),
                        self.unread() == self.narg@.skip(self.read as int),
                        self@ == old(self)@,
                        self.unread() == old(self).unread(),
                        forall|j: int|
                            0 <= j < i ==> #[trigger] message@[j] == self.narg@[self.read + j],
                {
                    if self.narg[self.read + i] != message[i] {
                        proof {
                            let unread = self.unread();
                            assert(unread.take(len as int)[i as int] == self.narg@[self.read + i]);
                        }
                        return Err(GreyhoundError::TranscriptMismatch);
                    }
                }
                assert(self.unread().take(len as int) =~= message@);
                let ghost before = *self;
                *self = VerifierState {
                    protocol: self.protocol,
                    session: self.session,
                    narg: self.narg,
                    read: end,
                    drawn: 0,
                };
                assert(before@.absorbed + message@ =~= self@.absorbed);
                assert(before.unread().skip(len as int) =~= self.unread());
                Ok(())
            },
        }
    }

    /// Draws a challenge.
    pub fn verifier_message(&mut self) -> (r: [u8; 32])
        requires
            old(self)@.drawn < MAX_CHALLENGES,
        ensures
            r@ == old(self)@.challenge(),
            final(self)@ == old(self)@.draw(),
            final(self).unread() == old(self).unread(),
    {
        proof {
            use_type_invariant(&*self);
        }
        let bytes = match verifier_stream(&self.protocol, &self.session, self.narg, self.read) {
            Some(bytes) => bytes,
            None => [0u8; 1024],
        };
        let r = block(&bytes, self.drawn);
        self.drawn = self.drawn + 1;
        r
    }
}

} // verus!
