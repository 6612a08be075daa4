use greyhound::error::GreyhoundError;
use greyhound::folding::{
    coefficient_count, fold_aggregate, fold_commit, fold_finish, fold_linear, fold_project,
    PROJECTIONS,
};
use greyhound::folding_check::{
    fold_verify_finish, labrador_verify_finish, lower_quadratic_form, upper_quadratic_form,
    VerifyRound,
};
use greyhound::labrador::{
    verify_greyhound_pz, ConstraintSystem, LabradorCRS, LabradorProof, LabradorWitness,
};
use greyhound::linalg::{dot_product_host, vec_add_host};
use greyhound::poly::{add_poly, poly_equal, tamper_poly, PolyRing};
use greyhound::round::{
    labrador_prove, labrador_prove_oneround, labrador_verify, LabradorProving, ProveRound,
};
use greyhound::zq::{Zq, MODULUS};

struct Stream(u64);

impl Stream {
    fn next(&mut self) -> u64 {
        self.0 = self.0.wrapping_mul(6364136223846793005).wrapping_add(1442695040888963407);
        self.0 >> 2
    }

    fn scalars(&mut self, n: usize) -> Vec<Zq> {
        (0..n).map(|_| Zq::from_u64(self.next())).collect()
    }

    fn polys(&mut self, n: usize) -> Vec<PolyRing> {
        (0..n).map(|_| PolyRing::from_slice(&self.scalars(64)).unwrap()).collect()
    }
}

/// Balanced digits, digit-major.
fn decompose(values: &[PolyRing], log_base: u32, count: usize) -> Vec<PolyRing> {
    let base = 1i128 << log_base;
    let mut digits = vec![vec![vec![Zq::zero(); 64]; values.len()]; count];
    for (i, value) in values.iter().enumerate() {
        for k in 0..64 {
            let v = value.coefficient(k).value();
            let mut rest = if v > MODULUS / 2 { v as i128 - MODULUS as i128 } else { v as i128 };
            for digit in digits.iter_mut() {
                let mut d = rest.rem_euclid(base);
                if d > base / 2 {
                    d -= base;
                }
                rest = (rest - d) / base;
                let reduced = if d < 0 { (MODULUS as i128 + d) as u64 } else { d as u64 };
                digit[i][k] = Zq::from_u64(reduced);
            }
            assert_eq!(rest, 0);
        }
    }
    digits.iter().flatten().map(|c| PolyRing::from_slice(c).unwrap()).collect()
}

fn constants(values: &[u64]) -> Vec<PolyRing> {
    values.iter().map(|&v| PolyRing::constant(Zq::from_u64(v))).collect()
}

fn crs() -> LabradorCRS {
    let mut stream = Stream(3);
    LabradorCRS::setup(
        2,
        8,
        1,
        1,
        1,
        5,
        5,
        1 << 13,
        1 << 13,
        1 << 13,
        1,
        1,
        1 << 40,
        stream.polys(8),
        stream.polys(10),
        stream.polys(15),
        stream.polys(15),
    )
    .unwrap()
}

fn constraint() -> ConstraintSystem {
    let mut stream = Stream(4);
    ConstraintSystem {
        a_eval: stream.polys(2),
        b_eval: stream.polys(2),
        c_eval: stream.polys(2),
        sigma_inv_x: PolyRing::zero(),
        A_ajtai: stream.polys(2),
        B_commit: stream.polys(1),
        D_commit: stream.polys(5),
        h_target: stream.polys(5),
        n_w: 5,
        n_t: 1,
        n_s: 2,
        n_commit: 1,
    }
}

/// Two witness vectors that satisfy the gadget relation.
fn witness(constraint: &ConstraintSystem) -> LabradorWitness {
    let mut stream = Stream(5);
    let rows = (0..2)
        .map(|_| {
            let last = stream.polys(2);
            let weighted = dot_product_host(&constraint.a_eval, &last);
            let mut row = decompose(&[weighted], 13, 5);
            row.extend(stream.polys(1));
            row.extend(last);
            row
        })
        .collect();
    LabradorWitness { z: vec![], s: rows }
}

struct Fold {
    crs: LabradorCRS,
    constraint: ConstraintSystem,
    proof: LabradorProof,
    transcript: Vec<u8>,
}

fn samples(seed: &[u8; 32], n: usize) -> Vec<Zq> {
    Stream(u64::from_le_bytes(seed[..8].try_into().unwrap())).scalars(n)
}

fn honest_fold() -> Fold {
    honest_fold_with(0, (0..PROJECTIONS as u32).map(Zq::from).collect())
}

fn honest_fold_with(earlier_draws: usize, p: Vec<Zq>) -> Fold {
    let crs = crs();
    let constraint = constraint();
    let witness = witness(&constraint);
    let (start, mut state) = match labrador_prove(&crs, &witness, &constraint) {
        Ok(LabradorProving::Fold(start, state)) => (start, state),
        _ => panic!("no folding round"),
    };
    assert_eq!(start.t.len(), 2);
    assert_eq!(start.g.len(), 3);
    let mut t_flat = decompose(&start.t[..1], 13, 5);
    t_flat.extend(decompose(&start.t[1..], 13, 5));
    let g_flat = decompose(&start.g, 13, 5);
    // Challenges that were drawn before a message do not stand in its way.
    for _ in 0..earlier_draws {
        state.verifier_message();
    }
    let step = fold_commit(&crs, start, t_flat, g_flat, &mut state).unwrap();
    let step = fold_project(step, p, &mut state);
    let psi = samples(&step.seed, 3 * 64);
    let step = fold_aggregate(&crs, step, &psi, &mut state).unwrap();
    let phi = samples(&step.seed, 16 * 64);
    let step = fold_linear(&crs, &witness, &constraint, step, &phi).unwrap();
    let h_flat = decompose(&step.h, 13, 5);
    let proof = fold_finish(&crs, &witness, &constraint, step, h_flat, &mut state).unwrap();
    Fold { crs, constraint, proof, transcript: state.narg_string() }
}

fn verify(fold: &Fold) -> Result<bool, GreyhoundError> {
    match labrador_verify(&fold.crs, &fold.proof, &fold.transcript, &fold.constraint)? {
        VerifyRound::Decided(b) => Ok(b),
        VerifyRound::Sample(check) => {
            let psi = samples(&check.psi_seed, 3 * 64);
            let phi = samples(&check.phi_seed, 16 * 64);
            fold_verify_finish(&fold.crs, &fold.proof, &fold.constraint, &check, &psi, &phi)
        }
    }
}

#[test]
fn honest_fold_is_accepted() {
    let fold = honest_fold();
    assert_eq!(fold.transcript.len(), 512 + 8 * 256 + 512 + 512);
    assert_eq!(fold.proof.z_folded.len(), 8);
    assert_eq!(verify(&fold), Ok(true));
}

#[test]
fn tampered_folds_are_rejected() {
    let mut fold = honest_fold();
    tamper_poly(&mut fold.proof.u_1[0]);
    assert_eq!(verify(&fold), Ok(false));
    let mut fold = honest_fold();
    tamper_poly(&mut fold.proof.u_2[0]);
    assert_eq!(verify(&fold), Ok(false));
    let mut fold = honest_fold();
    tamper_poly(&mut fold.proof.b_agg[0]);
    assert_eq!(verify(&fold), Ok(false));
    for k in [0, 5, 7] {
        let mut fold = honest_fold();
        tamper_poly(&mut fold.proof.z_folded[k]);
        assert_eq!(verify(&fold), Ok(false));
    }
}

#[test]
fn other_samples_are_rejected() {
    let fold = honest_fold();
    let res = labrador_verify(&fold.crs, &fold.proof, &fold.transcript, &fold.constraint);
    let check = match res {
        Ok(VerifyRound::Sample(check)) => check,
        _ => panic!("no request for samples"),
    };
    let psi = samples(&check.psi_seed, 3 * 64);
    let phi = samples(&check.phi_seed, 16 * 64);
    let run = |psi: &[Zq], phi: &[Zq]| {
        fold_verify_finish(&fold.crs, &fold.proof, &fold.constraint, &check, psi, phi)
    };
    assert_eq!(run(&psi, &phi), Ok(true));
    assert_eq!(run(&samples(&check.phi_seed, 3 * 64), &phi), Ok(false));
    assert_eq!(run(&psi, &samples(&check.psi_seed, 16 * 64)), Ok(false));
    assert_eq!(run(&psi[..64], &phi), Err(GreyhoundError::InvalidDimensions));
    assert_eq!(run(&psi, &phi[..64]), Err(GreyhoundError::InvalidDimensions));
    // A failure is a rejection.
    let verdict = |psi: &[Zq], phi: &[Zq]| {
        labrador_verify_finish(&fold.crs, &fold.proof, &fold.constraint, &check, psi, phi)
    };
    assert!(verdict(&psi, &phi));
    assert!(!verdict(&samples(&check.phi_seed, 3 * 64), &phi));
    assert!(!verdict(&psi[..64], &phi));
    assert!(!verdict(&psi, &phi[..64]));
}

#[test]
fn earlier_draws_do_not_matter() {
    let p: Vec<Zq> = (0..PROJECTIONS as u32).map(Zq::from).collect();
    let fold = honest_fold_with(32, p);
    assert_eq!(fold.transcript, honest_fold().transcript);
    assert_eq!(verify(&fold), Ok(true));
}

#[test]
fn large_projections_are_rejected() {
    // The square of the size has to stay below the bound.
    let mut fold = honest_fold();
    fold.crs.norm_bound_sq = 255 * 255;
    assert_eq!(verify(&fold), Ok(false));
    fold.crs.norm_bound_sq = 255 * 255 + 1;
    assert_eq!(verify(&fold), Ok(true));
    let mut p = vec![Zq::zero(); PROJECTIONS];
    p[3] = Zq::from_u64(MODULUS - (1 << 33));
    let mut fold = honest_fold_with(0, p);
    fold.crs.norm_bound_sq = 1 << 66;
    assert_eq!(verify(&fold), Ok(false));
    fold.crs.norm_bound_sq = (1 << 66) + 1;
    assert_eq!(verify(&fold), Ok(true));
}

#[test]
fn short_fold_transcripts_are_refused() {
    let mut fold = honest_fold();
    fold.transcript.pop();
    assert_eq!(verify(&fold), Err(GreyhoundError::TranscriptTooShort));
    fold.transcript.truncate(100);
    assert_eq!(verify(&fold), Err(GreyhoundError::TranscriptTooShort));
}

#[test]
fn another_transcript_is_rejected() {
    let len = honest_fold().transcript.len();
    for at in [0, 512, 512 + 2048, 1024 + 2048, len - 1] {
        let mut fold = honest_fold();
        fold.transcript[at] ^= 1;
        assert_eq!(verify(&fold), Ok(false));
    }
}

#[test]
fn ill_sized_folds_are_rejected() {
    let mut fold = honest_fold();
    fold.proof.t_flat.pop();
    assert_eq!(verify(&fold), Ok(false));
    let mut fold = honest_fold();
    fold.proof.z_folded.pop();
    assert_eq!(verify(&fold), Ok(false));
}

#[test]
fn prover_refuses_ill_sized_rows() {
    let constraint = constraint();
    let mut witness = witness(&constraint);
    witness.s[1].pop();
    assert!(matches!(
        labrador_prove_oneround(&crs(), &witness, &constraint),
        Err(GreyhoundError::InvalidDimensions)
    ));
}

#[test]
fn widths_of_the_reference_string() {
    let crs = crs();
    assert_eq!((crs.b_cols(), crs.c_cols(), crs.d_cols()), (10, 15, 15));
    assert_eq!(crs.d, 64);
    assert_eq!(
        LabradorCRS::matrix_lens(2, 8, 1, 1, 1, 5, 5),
        Some((8, 10, 15, 15)),
    );
    let res = LabradorCRS::setup(
        2, 8, 1, 1, 1, 5, 5, 2, 2, 2, 1, 1, 0, vec![], vec![], vec![], vec![],
    );
    assert!(matches!(res, Err(GreyhoundError::InvalidDimensions)));
}

#[test]
fn quadratic_forms() {
    let c = constants(&[2, 3]);
    // 2*2*10 + 2*(2*3*100) + 3*3*1000
    let upper = upper_quadratic_form(&c, &constants(&[10, 100, 1000]));
    assert_eq!(upper.coefficient(0).value(), 40 + 1200 + 9000);
    // The same values, row by row below the diagonal.
    let lower = lower_quadratic_form(&c, &constants(&[10, 100, 1000]));
    assert!(poly_equal(&upper, &lower));
}

/// A relation with one column, one digit and constants, and a witness for it.
fn small_relation() -> (LabradorCRS, ConstraintSystem, Vec<PolyRing>) {
    let constraint = ConstraintSystem {
        a_eval: constants(&[7]),
        b_eval: constants(&[5]),
        c_eval: constants(&[3]),
        sigma_inv_x: PolyRing::zero(),
        A_ajtai: constants(&[11]),
        B_commit: constants(&[13]),
        D_commit: constants(&[17]),
        // 17 w, 13 t, 5 w, 0, 0 for w = 14, t = 22 and the folded column 6.
        h_target: constants(&[238, 286, 70, 0, 0]),
        n_w: 1,
        n_t: 1,
        n_s: 1,
        n_commit: 1,
    };
    (crs(), constraint, constants(&[14, 22, 6]))
}

#[test]
fn linear_relation_holds() {
    let (crs, constraint, z) = small_relation();
    assert_eq!(verify_greyhound_pz(&crs, &z, &constraint), Ok(true));
}

#[test]
fn every_row_of_the_relation_is_checked() {
    for i in 0..5 {
        let (crs, mut constraint, z) = small_relation();
        tamper_poly(&mut constraint.h_target[i]);
        assert_eq!(verify_greyhound_pz(&crs, &z, &constraint), Ok(false));
    }
    for i in 0..3 {
        let (crs, constraint, mut z) = small_relation();
        z[i] = add_poly(&z[i], &constants(&[1])[0]);
        assert_eq!(verify_greyhound_pz(&crs, &z, &constraint), Ok(false));
    }
}

#[test]
fn shape_of_the_relation_is_checked() {
    let (crs, constraint, mut z) = small_relation();
    z.pop();
    assert_eq!(verify_greyhound_pz(&crs, &z, &constraint), Ok(false));
    let (crs, mut constraint, z) = small_relation();
    constraint.h_target.pop();
    assert_eq!(verify_greyhound_pz(&crs, &z, &constraint), Ok(false));
    let (crs, mut constraint, z) = small_relation();
    constraint.c_eval.clear();
    assert_eq!(verify_greyhound_pz(&crs, &z, &constraint), Ok(false));
    let (crs, mut constraint, z) = small_relation();
    constraint.n_w = usize::MAX;
    assert_eq!(verify_greyhound_pz(&crs, &z, &constraint), Ok(false));
    let (crs, mut constraint, z) = small_relation();
    constraint.A_ajtai.clear();
    assert_eq!(
        verify_greyhound_pz(&crs, &z, &constraint),
        Err(GreyhoundError::InvalidDimensions),
    );
}

#[test]
fn direct_proof_is_the_witness() {
    let (crs, constraint, z) = small_relation();
    let witness = LabradorWitness { z, s: vec![] };
    let proof = match labrador_prove_oneround(&crs, &witness, &constraint) {
        Ok(ProveRound::Done(proof)) => proof,
        _ => panic!("no proof"),
    };
    assert_eq!(proof.z_folded.len(), 3);
    assert!(proof.u_1.is_empty() && proof.p.is_empty() && proof.G_flat.is_empty());
    assert!(matches!(
        labrador_verify(&crs, &proof, &[], &constraint),
        Ok(VerifyRound::Decided(true))
    ));
    // The transcript is not read.
    assert!(matches!(
        labrador_verify(&crs, &proof, &[1, 2, 3], &constraint),
        Ok(VerifyRound::Decided(true))
    ));
}

#[test]
fn sums_of_witnesses_satisfy_sums_of_targets() {
    let (crs, mut constraint, z) = small_relation();
    let doubled = vec_add_host(&z, &z);
    assert_eq!(verify_greyhound_pz(&crs, &doubled, &constraint), Ok(false));
    constraint.h_target = vec_add_host(&constraint.h_target, &constraint.h_target);
    assert_eq!(verify_greyhound_pz(&crs, &doubled, &constraint), Ok(true));
    assert_eq!(verify_greyhound_pz(&crs, &z, &constraint), Ok(false));
}

#[test]
fn errors_of_a_direct_proof_are_rejections() {
    let (crs, mut constraint, z) = small_relation();
    let witness = LabradorWitness { z, s: vec![] };
    let proof = match labrador_prove(&crs, &witness, &constraint) {
        Ok(LabradorProving::Done(proof, transcript)) => {
            assert!(transcript.is_empty());
            proof
        }
        _ => panic!("no proof"),
    };
    constraint.A_ajtai.clear();
    assert!(matches!(
        labrador_verify(&crs, &proof, &[], &constraint),
        Ok(VerifyRound::Decided(false))
    ));
}

#[test]
fn direct_proof_wants_a_short_witness() {
    let (mut crs, constraint, z) = small_relation();
    let witness = LabradorWitness { z, s: vec![] };
    // 14^2 + 22^2 + 6^2
    crs.norm_bound_sq = 716;
    assert!(labrador_prove_oneround(&crs, &witness, &constraint).is_ok());
    crs.norm_bound_sq = 715;
    assert!(matches!(
        labrador_prove_oneround(&crs, &witness, &constraint),
        Err(GreyhoundError::WitnessNorm)
    ));
}

#[test]
fn coefficients_are_counted() {
    assert_eq!(coefficient_count(3, 5), Some(960));
    assert_eq!(coefficient_count(0, usize::MAX), Some(0));
    assert_eq!(coefficient_count(1, usize::MAX), None);
    assert_eq!(coefficient_count(usize::MAX, 2), None);
}
