use greyhound::challenge::generate_labrador_challenges;
use greyhound::commit::{
    commit_chunks_with_params, commit_columns_with_params, commit_with_params, setup_requests,
    setup_requests_with_params, setup_with_params, CommitReturn, PublicParams,
};
use greyhound::error::GreyhoundError;
use greyhound::eval::{
    evaluate_polynomial, power, sigma_inverse_apply, sigma_poly, weigh_chunks, weigh_columns,
    weigh_entries,
};
use greyhound::eval_check::{eval_verifier_seed_with_params, eval_verifier_with_params};
use greyhound::folding_check::VerifyRound;
use greyhound::labrador::LabradorCRS;
use greyhound::linalg::recompose_digit_major;
use greyhound::negative::{
    expect_change, expect_reject, tampered_pair, NegativeCase, NegativeRun,
};
use greyhound::params::GreyhoundTranscriptParams;
use greyhound::pipeline::{labrador_crs, labrador_matrix_lens};
use greyhound::poly::{
    add_poly, mul_poly, poly_equal, poly_vecs_equal, scale_poly_host, tamper_poly, PolyRing,
};
use greyhound::prover::{
    eval_prover_commit_with_params, eval_prover_start_with_params, eval_prover_with_params,
    ProverProof,
};
use greyhound::zq::{Zq, MODULUS};

/// A fixed sequence of residues.
struct Stream(u64);

impl Stream {
    fn next(&mut self) -> u64 {
        self.0 = self.0.wrapping_mul(6364136223846793005).wrapping_add(1442695040888963407);
        self.0 >> 2
    }

    fn scalars(&mut self, n: usize) -> Vec<Zq> {
        (0..n).map(|_| Zq::from_u64(self.next())).collect()
    }
}

/// Balanced digits, digit-major.
fn decompose(values: &[PolyRing], log_base: u32, count: usize) -> Vec<PolyRing> {
    let base = 1i128 << log_base;
    let mut digits = vec![vec![vec![Zq::zero(); 64]; values.len()]; count];
    for (i, value) in values.iter().enumerate() {
        for k in 0..64 {
            let v = value.coefficient(k).value();
            let mut rest = if v > MODULUS / 2 { v as i128 - MODULUS as i128 } else { v as i128 };
            for digit in digits.iter_mut() {
                let mut d = rest.rem_euclid(base);
                if d > base / 2 {
                    d -= base;
                }
                rest = (rest - d) / base;
                let reduced = if d < 0 { (MODULUS as i128 + d) as u64 } else { d as u64 };
                digit[i][k] = Zq::from_u64(reduced);
            }
            assert_eq!(rest, 0);
        }
    }
    digits.iter().flatten().map(|c| PolyRing::from_slice(c).unwrap()).collect()
}

fn params() -> GreyhoundTranscriptParams {
    GreyhoundTranscriptParams { n: 192, m: 2, r: 2, nrows: 2, b0: 13, delta0: 5, b1: 13, delta: 5 }
}

fn crs(norm_bound_sq: u128) -> LabradorCRS {
    LabradorCRS::setup(
        2,
        40,
        2,
        1,
        1,
        5,
        5,
        1 << 13,
        1 << 13,
        1 << 13,
        1,
        1,
        norm_bound_sq,
        vec![PolyRing::zero(); 80],
        vec![PolyRing::zero(); 20],
        vec![PolyRing::zero(); 15],
        vec![PolyRing::zero(); 15],
    )
    .unwrap()
}

/// The bound for the small parameters.
fn bound() -> u128 {
    let b = 8192u128;
    let fold = 2 * 51 * b;
    b * b * 3 * 5 * 2 * 64 + fold * fold * 5 * 2 * 64
}

struct Run {
    p: GreyhoundTranscriptParams,
    pp: PublicParams,
    commit: CommitReturn,
    x: Zq,
    proof: ProverProof,
    c: Vec<PolyRing>,
    crs: LabradorCRS,
}

fn public_params(p: &GreyhoundTranscriptParams) -> PublicParams {
    let requests = setup_requests_with_params(p);
    let mut stream = Stream(1);
    let a = stream.scalars(64 * requests.0.elements);
    let b = stream.scalars(64 * requests.1.elements);
    let d = stream.scalars(64 * requests.2.elements);
    setup_with_params(p, &a, &b, &d).unwrap()
}

fn commitment(p: &GreyhoundTranscriptParams, pp: &PublicParams, raw: &[u32]) -> CommitReturn {
    let chunks = commit_chunks_with_params(p, raw);
    let s_digits = decompose(&chunks, p.b0, p.delta0 as usize);
    let columns = commit_columns_with_params(p, pp, &s_digits).unwrap();
    let t_digits = decompose(&columns.t, p.b1, p.delta as usize);
    commit_with_params(p, pp, columns, &t_digits).unwrap()
}

fn coefficients() -> Vec<u32> {
    let mut stream = Stream(2);
    (0..192).map(|_| stream.next() as u32).collect()
}

fn honest_run() -> Run {
    honest_run_at(Zq::from(123_456_789))
}

fn honest_run_at(x: Zq) -> Run {
    let p = params();
    let raw = coefficients();
    let crs = crs(bound());
    let pp = public_params(&p);
    let commit = commitment(&p, &pp, &raw);
    let start = eval_prover_start_with_params(&p, &raw, &commit, &x).unwrap();
    let w_hat = decompose(&start.w, p.b1, p.delta as usize);
    let step = eval_prover_commit_with_params(&p, &pp, &commit, &x, start, w_hat).unwrap();
    let c = generate_labrador_challenges(&step.seed, 2);
    let proof = eval_prover_with_params(&p, &pp, &commit, &x, step, &c, &crs).unwrap();
    Run { p, pp, commit, x, proof, c, crs }
}

/// Runs the verifier, with the challenge sampled from the seed that it recovers.
fn verify(run: &Run, commit: &CommitReturn, proof: &ProverProof) -> bool {
    let c = match eval_verifier_seed_with_params(&run.p, commit, &run.x, proof) {
        Ok(seed) => generate_labrador_challenges(&seed, 2),
        Err(GreyhoundError::TranscriptMismatch) => vec![],
        Err(_) => panic!("no decision"),
    };
    match eval_verifier_with_params(&run.p, &run.pp, commit, &run.x, proof, &c, &run.crs) {
        Ok(VerifyRound::Decided(b)) => b,
        _ => panic!("no decision"),
    }
}

#[test]
fn horner_evaluation() {
    assert_eq!(evaluate_polynomial(&[1, 2, 3], &Zq::from(7)).value(), 162);
    assert_eq!(evaluate_polynomial(&[], &Zq::from(7)).value(), 0);
    assert_eq!(evaluate_polynomial(&[5], &Zq::zero()).value(), 5);
}

#[test]
fn sigma_holds_negated_powers() {
    let s = sigma_poly(&Zq::from(2));
    assert_eq!(s.coefficient(0).value(), 1);
    assert_eq!(s.coefficient(63).value(), MODULUS - 2);
    assert_eq!(s.coefficient(62).value(), MODULUS - 4);
}

#[test]
fn constant_term_of_the_product_is_the_value() {
    let raw = coefficients();
    let x = Zq::from(987_654_321);
    let y = mul_poly(&sigma_poly(&x), &weigh_chunks(&raw, &x, 3));
    assert_eq!(y.coefficient(0).value(), evaluate_polynomial(&raw, &x).value());
}

#[test]
fn sigma_factors_out_of_the_chunks() {
    let raw = coefficients();
    let x = Zq::from(31);
    let s = sigma_poly(&x);
    let mut sum = PolyRing::zero();
    for i in 0..3usize {
        let chunk: Vec<Zq> = raw[64 * i..64 * (i + 1)].iter().map(|&c| Zq::from(c)).collect();
        let term = mul_poly(&s, &PolyRing::from_slice(&chunk).unwrap());
        sum = add_poly(&sum, &scale_poly_host(&term, power(x, 64 * i)));
    }
    assert!(poly_equal(&sum, &mul_poly(&s, &weigh_chunks(&raw, &x, 3))));
}

#[test]
fn sigma_inverse_undoes_sigma() {
    let x = Zq::from(55);
    let t = PolyRing::from_slice(&Stream(9).scalars(64)).unwrap();
    let y = mul_poly(&sigma_poly(&x), &t);
    assert!(poly_equal(&sigma_inverse_apply(&y, &x).unwrap(), &t));
    assert!(!poly_equal(&y, &t));
}

#[test]
fn sigma_is_not_invertible_at_some_points() {
    // The 64th power of this point is -1 modulo one of the prime factors of the modulus.
    let x = Zq::from(397_765_732);
    assert!(Zq::one().plus(power(x, 64)).try_inv().is_none());
    assert_eq!(
        sigma_inverse_apply(&PolyRing::zero(), &x).err(),
        Some(GreyhoundError::NotInvertible),
    );
}

#[test]
fn weights_are_powers() {
    let p = params();
    let x = Zq::from(3);
    let entries = weigh_entries(&p, &x);
    assert_eq!(entries.len(), 10);
    assert_eq!(entries[0].coefficient(0).value(), 1);
    assert_eq!(entries[1].coefficient(0).value(), power(x, 64).value());
    assert_eq!(entries[2].coefficient(0).value(), 8192);
    assert_eq!(entries[7].coefficient(0).value(), {
        power(x, 64).times(power(Zq::from(8192), 3)).value()
    });
    let columns = weigh_columns(&p, &x);
    assert_eq!(columns.len(), 2);
    assert_eq!(columns[0].coefficient(0).value(), 1);
    assert_eq!(columns[1].coefficient(0).value(), power(x, 128).value());
}

#[test]
fn setup_asks_for_the_matrices_of_the_scheme() {
    let requests = setup_requests();
    assert_eq!(requests.0.elements, 18 * 5 * 3156);
    assert_eq!(requests.1.elements, 18 * 18 * 5 * 333);
    assert_eq!(requests.2.elements, 18 * 5 * 333);
    assert_eq!(requests.0.seed, [0xA1; 32]);
    assert_eq!(requests.1.seed, [0xB2; 32]);
    assert_eq!(requests.2.seed, [0xD3; 32]);
    assert_eq!(labrador_matrix_lens(), (853_470, 209_790, 1_946_385, 1_946_385));
}

#[test]
fn setup_refuses_wrong_sizes() {
    let p = params();
    let zeros = vec![Zq::zero(); 64];
    assert_eq!(
        setup_with_params(&p, &zeros, &zeros, &zeros).err(),
        Some(GreyhoundError::InvalidDimensions),
    );
    assert!(labrador_crs(vec![], vec![], vec![], vec![]).is_err());
}

#[test]
fn chunks_are_padded_with_zeros() {
    let chunks = commit_chunks_with_params(&params(), &[7; 65]);
    assert_eq!(chunks.len(), 4);
    assert_eq!(chunks[0].coefficient(63).value(), 7);
    assert_eq!(chunks[1].coefficient(0).value(), 7);
    assert_eq!(chunks[1].coefficient(1).value(), 0);
    assert_eq!(chunks[3].coefficient(0).value(), 0);
}

#[test]
fn digits_of_a_commitment_recompose() {
    let p = params();
    let pp = public_params(&p);
    let raw = coefficients();
    let chunks = commit_chunks_with_params(&p, &raw);
    let commit = commitment(&p, &pp, &raw);
    for i in 0..2 {
        let column = recompose_digit_major(&commit.s[10 * i..10 * i + 10], 2, 5, 8192);
        assert!(poly_vecs_equal(&column, &chunks[2 * i..2 * i + 2]));
    }
    assert_eq!(commit.t_hat_concat.len(), 20);
    assert_eq!(commit.u.len(), 2);
}

#[test]
fn commitment_refuses_wrong_sizes() {
    let p = params();
    let pp = public_params(&p);
    let one = vec![PolyRing::zero(); 1];
    assert_eq!(
        commit_columns_with_params(&p, &pp, &one).err(),
        Some(GreyhoundError::InvalidDimensions),
    );
    let digits = vec![PolyRing::zero(); 20];
    let columns = commit_columns_with_params(&p, &pp, &digits).unwrap();
    assert_eq!(
        commit_with_params(&p, &pp, columns, &one).err(),
        Some(GreyhoundError::InvalidDimensions),
    );
}

#[test]
fn honest_proof_is_accepted() {
    let run = honest_run();
    assert!(verify(&run, &run.commit, &run.proof));
    assert_eq!(
        run.proof.claimed_eval.value(),
        evaluate_polynomial(&coefficients(), &run.x).value(),
    );
    assert!(run.proof.labrador_transcript.is_empty());
    assert_eq!(run.proof.labrador_proof.z_folded.len(), 10 + 20 + 10);
}

#[test]
fn another_challenge_is_rejected() {
    let run = honest_run();
    let c = generate_labrador_challenges(&[0; 32], 2);
    let res =
        eval_verifier_with_params(&run.p, &run.pp, &run.commit, &run.x, &run.proof, &c, &run.crs);
    assert!(matches!(res, Ok(VerifyRound::Decided(false))));
    let res = eval_verifier_with_params(
        &run.p, &run.pp, &run.commit, &run.x, &run.proof, &run.c, &run.crs,
    );
    assert!(matches!(res, Ok(VerifyRound::Decided(true))));
}

#[test]
fn another_point_is_rejected() {
    let mut run = honest_run();
    run.x = run.x.plus(Zq::one());
    let res = eval_verifier_with_params(
        &run.p, &run.pp, &run.commit, &run.x, &run.proof, &run.c, &run.crs,
    );
    assert!(matches!(res, Ok(VerifyRound::Decided(false))));
}

#[test]
fn tampered_inputs_are_rejected() {
    let run = honest_run();
    let mut negative = NegativeRun::start();
    let mut seen = 0;
    while let Some(case) = negative.case() {
        let outcome = if case == NegativeCase::ParameterChallenge {
            true
        } else {
            let (commit, proof) = tampered_pair(case, &run.commit, &run.proof);
            verify(&run, &commit, &proof)
        };
        let (next, passed) = negative.record(outcome);
        assert!(passed);
        negative = next;
        seen += 1;
    }
    assert_eq!(seen, 6);
    assert_eq!(negative.failures(), 0);
}

#[test]
fn failures_are_counted() {
    let mut negative = NegativeRun::start();
    assert_eq!(negative.case(), Some(NegativeCase::WrongClaim));
    // Accepted, unchanged, then rejected.
    for (outcome, expected) in [(true, false), (false, false), (false, true)] {
        let (next, passed) = negative.record(outcome);
        assert_eq!(passed, expected);
        negative = next;
    }
    assert_eq!(negative.failures(), 2);
    assert_eq!(negative.case(), Some(NegativeCase::TamperedV));
    assert!(expect_reject(false) && !expect_reject(true));
    assert!(expect_change(true) && !expect_change(false));
}

#[test]
fn tampered_pairs_differ_where_they_should() {
    let run = honest_run();
    let (commit, proof) = tampered_pair(NegativeCase::TamperedU, &run.commit, &run.proof);
    assert!(!poly_vecs_equal(&commit.u, &run.commit.u));
    assert!(poly_vecs_equal(&commit.s, &run.commit.s));
    assert!(poly_vecs_equal(&proof.v, &run.proof.v));
    let (commit, proof) = tampered_pair(NegativeCase::TamperedV, &run.commit, &run.proof);
    assert!(poly_vecs_equal(&commit.u, &run.commit.u));
    assert!(!poly_equal(&proof.v[0], &run.proof.v[0]));
    assert!(poly_equal(&proof.v[1], &run.proof.v[1]));
    let (_, proof) = tampered_pair(NegativeCase::WrongClaim, &run.commit, &run.proof);
    assert_eq!(
        proof.claimed_eval.value(),
        run.proof.claimed_eval.plus(Zq::one()).value(),
    );
    let (_, proof) = tampered_pair(NegativeCase::TamperedY, &run.commit, &run.proof);
    assert!(!poly_equal(&proof.y, &run.proof.y));
    let (_, proof) = tampered_pair(NegativeCase::TamperedWitness, &run.commit, &run.proof);
    assert!(!poly_equal(
        &proof.labrador_proof.z_folded[0],
        &run.proof.labrador_proof.z_folded[0],
    ));
}

#[test]
fn prover_refuses_too_few_coefficients() {
    let run = honest_run();
    let raw = coefficients();
    let res = eval_prover_start_with_params(&run.p, &raw[..191], &run.commit, &run.x);
    assert_eq!(res.err(), Some(GreyhoundError::InvalidDimensions));
}

#[test]
fn prover_refuses_coefficients_that_are_not_committed_to() {
    let run = honest_run();
    let mut raw = coefficients();
    raw.push(1);
    let res = eval_prover_start_with_params(&run.p, &raw, &run.commit, &run.x);
    assert_eq!(res.err(), Some(GreyhoundError::ClaimMismatch));
}

#[test]
fn prover_refuses_columns_of_the_wrong_size() {
    let run = honest_run();
    let mut commit = commitment(&run.p, &run.pp, &coefficients());
    commit.s.pop();
    let res = eval_prover_start_with_params(&run.p, &coefficients(), &commit, &run.x);
    assert_eq!(res.err(), Some(GreyhoundError::InvalidDimensions));
}

#[test]
fn prover_refuses_a_long_witness() {
    let run = honest_run();
    let raw = coefficients();
    let start = eval_prover_start_with_params(&run.p, &raw, &run.commit, &run.x).unwrap();
    let w_hat = decompose(&start.w, 13, 5);
    let step =
        eval_prover_commit_with_params(&run.p, &run.pp, &run.commit, &run.x, start, w_hat).unwrap();
    let res =
        eval_prover_with_params(&run.p, &run.pp, &run.commit, &run.x, step, &run.c, &crs(1000));
    assert_eq!(res.err(), Some(GreyhoundError::WitnessNorm));
}

#[test]
fn verifier_rejects_a_long_witness() {
    let mut run = honest_run();
    run.crs = crs(1000);
    assert!(!verify(&run, &run.commit, &run.proof));
}

#[test]
fn verifier_rejects_a_witness_of_the_wrong_length() {
    let mut run = honest_run();
    run.proof.labrador_proof.z_folded.pop();
    assert!(!verify(&run, &run.commit, &run.proof));
}

#[test]
fn verifier_refuses_a_short_transcript() {
    let mut run = honest_run();
    run.proof.narg_transcript.pop();
    let res = eval_verifier_seed_with_params(&run.p, &run.commit, &run.x, &run.proof);
    assert_eq!(res.err(), Some(GreyhoundError::TranscriptTooShort));
    let res = eval_verifier_with_params(
        &run.p, &run.pp, &run.commit, &run.x, &run.proof, &run.c, &run.crs,
    );
    assert!(matches!(res, Err(GreyhoundError::TranscriptTooShort)));
}

#[test]
fn verifier_rejects_the_transcript_of_another_statement() {
    let mut run = honest_run();
    let other = honest_run_at(Zq::from(5));
    run.proof.narg_transcript = other.proof.narg_transcript;
    let res = eval_verifier_seed_with_params(&run.p, &run.commit, &run.x, &run.proof);
    assert_eq!(res.err(), Some(GreyhoundError::TranscriptMismatch));
    assert!(!verify(&run, &run.commit, &run.proof));
}

#[test]
fn raised_evaluation_is_rejected() {
    let mut run = honest_run();
    tamper_poly(&mut run.proof.y);
    run.proof.claimed_eval = run.proof.claimed_eval.plus(Zq::one());
    assert!(!verify(&run, &run.commit, &run.proof));
}

#[test]
fn verifier_refuses_a_point_without_inverse() {
    let run = honest_run_at(Zq::from(397_765_732));
    let res = eval_verifier_with_params(
        &run.p, &run.pp, &run.commit, &run.x, &run.proof, &run.c, &run.crs,
    );
    assert!(matches!(res, Err(GreyhoundError::NotInvertible)));
}

#[test]
fn honest_witness_is_within_the_bound() {
    let run = honest_run();
    let norm = greyhound::norm::poly_vec_norm_sq(&run.proof.labrador_proof.z_folded).unwrap();
    assert!(norm <= bound());
    assert!(norm > 0);
}
