use greyhound::error::GreyhoundError;
use greyhound::fiat_shamir::{
    challenge_request, challenge_request_with_params, greyhound_challenge_seed_with_params,
    FiatShamirGreyhound,
};
use greyhound::negative::altered_params;
use greyhound::params::{
    greyhound_norm_bound_sq, greyhound_transcript_params, transcript_params_to_bytes,
};
use greyhound::poly::PolyRing;
use greyhound::round::labrador_protocol_id;
use greyhound::sponge::{pad_protocol_id, ProverState, VerifierState};
use greyhound::zq::Zq;
use spongefish::DomainSeparator;

fn name_in_64_bytes(name: &str) -> [u8; 64] {
    let mut out = [0u8; 64];
    out[..name.len()].copy_from_slice(name.as_bytes());
    out
}

fn statement() -> (Vec<PolyRing>, Zq, PolyRing, Vec<PolyRing>) {
    let u = vec![PolyRing::constant(Zq::from(3)), PolyRing::constant(Zq::from(4))];
    let v = vec![PolyRing::constant(Zq::from(5))];
    (u, Zq::from(77), PolyRing::constant(Zq::from(6)), v)
}

#[test]
fn protocol_names_are_padded() {
    assert_eq!(pad_protocol_id("abc")[..5], [97, 98, 99, 0, 0]);
    assert_eq!(FiatShamirGreyhound::protocol_id(), name_in_64_bytes("greyhound proof"));
    assert_eq!(labrador_protocol_id(), name_in_64_bytes("labrador proof"));
}

#[test]
fn parameters_of_the_scheme() {
    let p = greyhound_transcript_params();
    assert_eq!(
        (p.n, p.m, p.r, p.nrows, p.b0, p.delta0, p.b1, p.delta),
        (67_108_864, 3156, 333, 18, 13, 5, 13, 5),
    );
    let bytes = transcript_params_to_bytes(&p);
    assert_eq!(bytes.len(), 32);
    assert_eq!(bytes[..8], [0, 0, 0, 4, 84, 12, 0, 0]);
    assert_eq!(bytes[28..], [5, 0, 0, 0]);
}

#[test]
fn norm_bound_of_the_scheme() {
    assert_eq!(greyhound_norm_bound_sq(), 4_551_303_752_055u128 << 32);
}

#[test]
fn prover_challenges_are_those_of_the_sponge() {
    let id = name_in_64_bytes("some protocol");
    let mut state = ProverState::new(id, "some session");
    let mut direct = DomainSeparator::new(id)
        .session(spongefish::session_id_from_str("some session"))
        .instance(&[0u8; 0])
        .std_prover();

    let before_any = state.verifier_message();
    assert_eq!(before_any, direct.verifier_message::<[u8; 32]>());
    state.prover_message(&[1, 2, 3]);
    for b in [1u8, 2, 3] {
        direct.prover_message(&[b]);
    }
    let first = state.verifier_message();
    assert_eq!(first, direct.verifier_message::<[u8; 32]>());
    // A second challenge in a row, then one after another message.
    let second = state.verifier_message();
    assert_eq!(second, direct.verifier_message::<[u8; 32]>());
    assert_ne!(first, second);
    state.prover_message(&[]);
    assert_eq!(state.verifier_message(), direct.verifier_message::<[u8; 32]>());
    state.prover_message(&[9]);
    direct.prover_message(&9u8);
    assert_eq!(state.verifier_message(), direct.verifier_message::<[u8; 32]>());
    assert_eq!(state.narg_string(), [1, 2, 3, 9]);
    assert_eq!(state.narg_string(), direct.narg_string());
}

#[test]
fn sessions_separate_transcripts() {
    let id = name_in_64_bytes("some protocol");
    let a = ProverState::new(id, "one").verifier_message();
    let b = ProverState::new(id, "two").verifier_message();
    let c = ProverState::new(name_in_64_bytes("other protocol"), "one").verifier_message();
    assert_ne!(a, b);
    assert_ne!(a, c);
}

#[test]
fn verifier_replays_the_prover() {
    let id = name_in_64_bytes("some protocol");
    let mut prover = ProverState::new(id, "s");
    prover.prover_message(&[5, 6]);
    let c1 = prover.verifier_message();
    prover.prover_message(&[7]);
    let c2 = prover.verifier_message();
    let narg = prover.narg_string();

    let mut state = VerifierState::new(id, "s", &narg);
    assert!(state.prover_message(&[5, 6]).is_ok());
    assert_eq!(state.verifier_message(), c1);
    assert!(state.prover_message(&[]).is_ok());
    assert!(state.prover_message(&[7]).is_ok());
    assert_eq!(state.verifier_message(), c2);

    let separator = DomainSeparator::new(id)
        .session(spongefish::session_id_from_str("s"))
        .instance(&[0u8; 0]);
    let mut direct = separator.std_verifier(&narg);
    direct.prover_message::<[u8; 1]>().unwrap();
    direct.prover_message::<[u8; 1]>().unwrap();
    assert_eq!(direct.verifier_message::<[u8; 32]>(), c1);
}

#[test]
fn short_transcripts_are_refused() {
    let id = name_in_64_bytes("some protocol");
    let mut state = VerifierState::new(id, "s", &[1, 2]);
    assert_eq!(state.prover_message(&[1, 2, 3]), Err(GreyhoundError::TranscriptTooShort));
    assert_eq!(state.prover_message(&[9, 9, 9]), Err(GreyhoundError::TranscriptTooShort));
    assert!(state.prover_message(&[1, 2]).is_ok());
    assert_eq!(state.prover_message(&[0]), Err(GreyhoundError::TranscriptTooShort));
}

#[test]
fn other_messages_are_refused() {
    let id = name_in_64_bytes("some protocol");
    let mut state = VerifierState::new(id, "s", &[1, 2]);
    assert_eq!(state.prover_message(&[2]), Err(GreyhoundError::TranscriptMismatch));
    assert_eq!(state.prover_message(&[1, 3]), Err(GreyhoundError::TranscriptMismatch));
    // What was refused is not absorbed.
    assert!(state.prover_message(&[1, 2]).is_ok());
    let mut prover = ProverState::new(id, "s");
    prover.prover_message(&[1, 2]);
    assert_eq!(state.verifier_message(), prover.verifier_message());
}

#[test]
fn statement_is_absorbed_in_order() {
    let (u, x, y, v) = statement();
    let mut state = FiatShamirGreyhound::prover_state();
    let seed = FiatShamirGreyhound::prove(&mut state, &u, &x, &y, &v);
    let narg = state.narg_string();
    assert_eq!(narg.len(), 32 + 2 * 512 + 8 + 512 + 512);
    assert_eq!(narg[..32], transcript_params_to_bytes(&greyhound_transcript_params())[..]);
    assert_eq!(narg[32], 3);
    assert_eq!(narg[32 + 512], 4);
    assert_eq!(narg[32 + 1024], 77);
    assert_eq!(narg[32 + 1024 + 8], 6);
    assert_eq!(narg[32 + 1024 + 8 + 512], 5);

    let mut direct = DomainSeparator::new(name_in_64_bytes("greyhound proof"))
        .session(spongefish::session_id_from_str("greyhound_pcs"))
        .instance(&[0u8; 0])
        .std_prover();
    for &b in &narg {
        direct.prover_message(&[b]);
    }
    assert_eq!(seed, direct.verifier_message::<[u8; 32]>());
}

#[test]
fn verifier_recovers_the_seed() {
    let (u, x, y, v) = statement();
    let mut state = FiatShamirGreyhound::prover_state();
    let seed = FiatShamirGreyhound::prove(&mut state, &u, &x, &y, &v);
    let mut narg = state.narg_string();
    let read = FiatShamirGreyhound::verifier_state(&narg);
    assert_eq!(FiatShamirGreyhound::verify(read, &u, &x, &y, &v), Ok(seed));
    // Bytes after the statement are not read.
    narg.push(1);
    let read = FiatShamirGreyhound::verifier_state(&narg);
    assert_eq!(FiatShamirGreyhound::verify(read, &u, &x, &y, &v), Ok(seed));
    let read = FiatShamirGreyhound::verifier_state(&narg[..100]);
    assert_eq!(
        FiatShamirGreyhound::verify(read, &u, &x, &y, &v),
        Err(GreyhoundError::TranscriptTooShort),
    );
}

#[test]
fn seed_is_bound_to_the_statement() {
    let (u, x, y, v) = statement();
    let p = greyhound_transcript_params();
    let base = greyhound_challenge_seed_with_params(p, &u, &x, &y, &v);
    assert_eq!(altered_params(&p).m, p.m + 1);
    assert_ne!(base, greyhound_challenge_seed_with_params(altered_params(&p), &u, &x, &y, &v));
    assert_ne!(base, greyhound_challenge_seed_with_params(p, &v, &x, &y, &u));
    assert_ne!(base, greyhound_challenge_seed_with_params(p, &u, &Zq::from(78), &y, &v));
    assert_ne!(base, greyhound_challenge_seed_with_params(p, &u, &x, &u[0], &v));
    assert_eq!(base, greyhound_challenge_seed_with_params(p, &u, &x, &y, &v));
}

#[test]
fn one_challenge_for_each_column() {
    let request = challenge_request_with_params(&greyhound_transcript_params(), [9u8; 32]);
    assert_eq!(request.seed, [9u8; 32]);
    assert_eq!(request.count, 333);
    assert_eq!((request.ones, request.twos, request.operator_norm), (31, 10, 15));
    let scheme = challenge_request([9u8; 32]);
    assert_eq!((scheme.seed, scheme.count), ([9u8; 32], 333));
    assert_eq!((scheme.ones, scheme.twos, scheme.operator_norm), (31, 10, 15));
}

#[test]
fn transcript_of_another_statement_is_refused() {
    let (u, x, y, v) = statement();
    let mut state = FiatShamirGreyhound::prover_state();
    FiatShamirGreyhound::prove(&mut state, &u, &x, &y, &v);
    let narg = state.narg_string();
    let refused = Err(GreyhoundError::TranscriptMismatch);
    let check = |u: &[PolyRing], x: &Zq, y: &PolyRing, v: &[PolyRing]| {
        FiatShamirGreyhound::verify(FiatShamirGreyhound::verifier_state(&narg), u, x, y, v)
    };
    assert!(check(&u, &x, &y, &v).is_ok());
    assert_eq!(check(&[u[1], u[0]], &x, &y, &v), refused);
    assert_eq!(check(&u, &Zq::from(78), &y, &v), refused);
    assert_eq!(check(&u, &x, &u[0], &v), refused);
    assert_eq!(check(&u, &x, &y, &[u[0]]), refused);
    let read = FiatShamirGreyhound::verifier_state(&narg);
    let params = altered_params(&greyhound_transcript_params());
    assert_eq!(
        FiatShamirGreyhound::verify_with_params(read, params, &u, &x, &y, &v),
        refused,
    );
}
