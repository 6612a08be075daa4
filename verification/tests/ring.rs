use greyhound::bytes::{poly_to_bytes, to_bytes, u32_to_bytes, zq_to_bytes, zqs_to_bytes};
use greyhound::error::GreyhoundError;
use greyhound::layout::{
    flatten_columns, pack_scalars, regroup_digits, symmetric_sums, transposed, upper_triangle,
};
use greyhound::linalg::{
    device_ntt_matmul, dot_product_host, matmul_fold, matmul_transposed, recompose_digit_major,
    vec_add_host,
};
use greyhound::norm::{coefficient_magnitude, poly_vec_norm_sq, within_norm, HALF_MODULUS};
use greyhound::poly::{
    add_poly, constant_term, mul_poly, poly_equal, poly_vecs_equal, scale_poly_host, tamper_poly,
    PolyRing,
};
use greyhound::zq::{zq_equal, Zq, MODULUS};

fn poly(coeffs: &[u64]) -> PolyRing {
    let mut all: Vec<Zq> = coeffs.iter().map(|&c| Zq::from_u64(c)).collect();
    all.resize(64, Zq::zero());
    PolyRing::from_slice(&all).unwrap()
}

fn coeffs(p: &PolyRing) -> Vec<u64> {
    (0..64).map(|k| p.coefficient(k).value()).collect()
}

fn monomial(k: usize, c: u64) -> PolyRing {
    let mut all = vec![0u64; 64];
    all[k] = c;
    poly(&all)
}

fn constants(values: &[u64]) -> Vec<PolyRing> {
    values.iter().map(|&v| poly(&[v])).collect()
}

fn first_terms(polys: &[PolyRing]) -> Vec<u64> {
    polys.iter().map(|p| p.coefficient(0).value()).collect()
}

#[test]
fn scalar_arithmetic() {
    assert_eq!(MODULUS, 2_013_265_921u64 * 2_130_706_433u64);
    let a = Zq::from_u64(MODULUS - 1);
    assert_eq!(a.plus(Zq::from(2)).value(), 1);
    assert_eq!(Zq::zero().minus(Zq::from(5)).value(), MODULUS - 5);
    assert_eq!(a.times(a).value(), 1);
    assert_eq!(Zq::from_u64(MODULUS + 3).value(), 3);
    assert!(zq_equal(&Zq::one(), &Zq::from(1)));
    assert!(!zq_equal(&Zq::one(), &Zq::zero()));
}

#[test]
fn scalar_inverse() {
    let inv = Zq::from(12345).try_inv().unwrap();
    assert_eq!(inv.value(), 2_485_546_486_661_027_714);
    assert_eq!(inv.times(Zq::from(12345)).value(), 1);
    assert!(Zq::zero().try_inv().is_none());
    // Both prime factors of the modulus are zero divisors.
    assert!(Zq::from(2_013_265_921).try_inv().is_none());
    assert!(Zq::from(2_130_706_433).try_inv().is_none());
}

#[test]
fn poly_from_slice_wants_64_coefficients() {
    assert!(PolyRing::from_slice(&vec![Zq::one(); 63]).is_none());
    assert!(PolyRing::from_slice(&vec![Zq::one(); 65]).is_none());
    assert!(PolyRing::from_slice(&vec![Zq::one(); 64]).is_some());
}

#[test]
fn poly_arithmetic() {
    let a = poly(&[1, 2]);
    let b = poly(&[3, 4]);
    assert_eq!(coeffs(&add_poly(&a, &b))[..3], [4, 6, 0]);
    assert_eq!(coeffs(&mul_poly(&a, &b))[..4], [3, 10, 8, 0]);
    assert_eq!(coeffs(&scale_poly_host(&a, Zq::from(5)))[..3], [5, 10, 0]);
    assert_eq!(constant_term(&b).value(), 3);
}

#[test]
fn multiplication_wraps_with_a_sign() {
    // X^63 * X = X^64 = -1
    let p = mul_poly(&monomial(63, 1), &monomial(1, 1));
    assert!(poly_equal(&p, &poly(&[MODULUS - 1])));
    // X^40 * X^30 = X^70 = -X^6
    let p = mul_poly(&monomial(40, 2), &monomial(30, 3));
    assert!(poly_equal(&p, &monomial(6, MODULUS - 6)));
}

#[test]
fn ring_laws_on_values() {
    let a = poly(&[7, 0, MODULUS - 2, 9]);
    let b = monomial(62, 11);
    let c = poly(&[5, 6, 7]);
    assert!(poly_equal(&mul_poly(&a, &b), &mul_poly(&b, &a)));
    assert!(poly_equal(&mul_poly(&mul_poly(&a, &b), &c), &mul_poly(&a, &mul_poly(&b, &c))));
    assert!(poly_equal(
        &mul_poly(&a, &add_poly(&b, &c)),
        &add_poly(&mul_poly(&a, &b), &mul_poly(&a, &c)),
    ));
}

#[test]
fn equality_of_vectors() {
    let a = constants(&[1, 2]);
    assert!(poly_vecs_equal(&a, &constants(&[1, 2])));
    assert!(!poly_vecs_equal(&a, &constants(&[1, 3])));
    assert!(!poly_vecs_equal(&a, &constants(&[1])));
    assert!(!poly_equal(&monomial(63, 1), &poly(&[0])));
}

#[test]
fn tampering_changes_the_constant_term() {
    let mut p = poly(&[MODULUS - 1, 4]);
    tamper_poly(&mut p);
    assert_eq!(coeffs(&p)[..3], [0, 4, 0]);
}

#[test]
fn matrix_times_vector() {
    let a = constants(&[1, 2, 3, 4, 5, 6]);
    let v = constants(&[10, 100, 1000]);
    let out = device_ntt_matmul(&a, 2, 3, &v).unwrap();
    assert_eq!(first_terms(&out), [3210, 6540]);
    assert_eq!(device_ntt_matmul(&a, 2, 2, &v).err(), Some(GreyhoundError::InvalidDimensions));
    assert_eq!(device_ntt_matmul(&a, 3, 2, &v).err(), Some(GreyhoundError::InvalidDimensions));
    assert_eq!(device_ntt_matmul(&[], 0, 3, &v).err(), Some(GreyhoundError::InvalidDimensions));
}

#[test]
fn products_of_matrices() {
    let a = constants(&[1, 2, 3, 4]);
    let b = constants(&[5, 6, 7, 8, 9, 10]);
    let out = matmul_transposed(&a, 2, &b, 3, 2).unwrap();
    assert_eq!(first_terms(&out), [17, 23, 29, 39, 53, 67]);
    assert!(matmul_transposed(&a, 2, &b, 2, 2).is_err());
    let folded = matmul_fold(&constants(&[1, 10]), &b, 3).unwrap();
    assert_eq!(first_terms(&folded), [85, 96, 107]);
    assert!(matmul_fold(&[], &b, 3).is_err());
}

#[test]
fn vector_operations() {
    let a = constants(&[1, 2, 3]);
    let b = constants(&[4, 5, 6]);
    assert_eq!(first_terms(&vec_add_host(&a, &b)), [5, 7, 9]);
    assert_eq!(dot_product_host(&a, &b).coefficient(0).value(), 32);
    assert_eq!(dot_product_host(&[], &[]).coefficient(0).value(), 0);
}

#[test]
fn digits_recompose() {
    // Digit-major: the low digits of both values, then the high ones.
    let digits = constants(&[3, 4, 2, MODULUS - 1]);
    let values = recompose_digit_major(&digits, 2, 2, 10);
    assert_eq!(first_terms(&values), [23, MODULUS - 6]);
}

#[test]
fn rearrangements() {
    assert_eq!(first_terms(&transposed(&constants(&[1, 2, 3, 4, 5, 6]), 2, 3)), [1, 4, 2, 5, 3, 6]);
    // Two digits of two vectors of length two.
    let digits = constants(&[1, 2, 3, 4, 5, 6, 7, 8]);
    assert_eq!(first_terms(&regroup_digits(&digits, 2, 2, 2)), [1, 2, 5, 6, 3, 4, 7, 8]);
    let square = constants(&[1, 2, 3, 4, 5, 6, 7, 8, 9]);
    assert_eq!(first_terms(&upper_triangle(&square, 3)), [1, 2, 3, 5, 6, 9]);
    assert_eq!(first_terms(&symmetric_sums(&square, 3)), [2, 6, 10, 10, 14, 18]);
    let rows = vec![constants(&[1, 2, 3]), constants(&[4, 5, 6])];
    assert_eq!(first_terms(&flatten_columns(&rows, 1, 3)), [2, 3, 5, 6]);
}

#[test]
fn scalars_are_packed_by_64() {
    let scalars: Vec<Zq> = (0..128u32).map(Zq::from).collect();
    let polys = pack_scalars(&scalars).unwrap();
    assert_eq!(polys.len(), 2);
    assert_eq!(polys[1].coefficient(3).value(), 67);
    assert!(pack_scalars(&scalars[..100]).is_none());
}

#[test]
fn norms() {
    let z = vec![poly(&[3, MODULUS - 4]), poly(&[0, 0, 12])];
    assert_eq!(poly_vec_norm_sq(&z), Some(9 + 16 + 144));
    assert!(within_norm(&z, 169));
    assert!(!within_norm(&z, 168));
    assert_eq!(poly_vec_norm_sq(&[]), Some(0));
}

#[test]
fn sizes_of_coefficients() {
    assert_eq!(coefficient_magnitude(Zq::from(5)), 5);
    assert_eq!(coefficient_magnitude(Zq::from_u64(MODULUS - 5)), 5);
    assert_eq!(coefficient_magnitude(Zq::from_u64((1 << 32) + 7)), (1 << 32) + 7);
    assert_eq!(coefficient_magnitude(Zq::from_u64(MODULUS - ((1 << 32) + 7))), (1 << 32) + 7);
    assert_eq!(coefficient_magnitude(Zq::from_u64(1 << 31)), 1 << 31);
    assert_eq!(coefficient_magnitude(Zq::from_u64(MODULUS / 2)), HALF_MODULUS);
    assert_eq!(coefficient_magnitude(Zq::from_u64(MODULUS / 2 + 1)), HALF_MODULUS);
}

#[test]
fn whole_coefficients_count_in_the_norm() {
    let two_to_32 = Zq::from(65_536).times(Zq::from(65_536));
    let p = PolyRing::constant(two_to_32);
    assert_eq!(poly_vec_norm_sq(&[p]), Some(1u128 << 64));
    assert!(!within_norm(&[p], (1u128 << 64) - 1));
    let largest = poly(&vec![MODULUS / 2; 64]);
    let sq = 64 * (HALF_MODULUS as u128) * (HALF_MODULUS as u128);
    assert_eq!(poly_vec_norm_sq(&[largest]), Some(sq));
    assert_eq!(poly_vec_norm_sq(&[largest, largest]), None);
    assert!(!within_norm(&[largest, largest], u128::MAX));
}

#[test]
fn encodings_are_little_endian() {
    assert_eq!(u32_to_bytes(0x0403_0201), [1, 2, 3, 4]);
    let x = Zq::from_u64(0x0102_0304_0506_0708);
    assert_eq!(zq_to_bytes(&x), 0x0102_0304_0506_0708u64.to_le_bytes());
    let p = poly(&[1, 0x0100]);
    let bytes = poly_to_bytes(&p);
    assert_eq!(bytes.len(), 512);
    assert_eq!(bytes[..18], [1, 0, 0, 0, 0, 0, 0, 0, 0, 1, 0, 0, 0, 0, 0, 0, 0, 0]);
    assert_eq!(to_bytes(&[]), Vec::<u8>::new());
    let two = to_bytes(&[p, p]);
    assert_eq!(two[..512], bytes[..]);
    assert_eq!(two[512..], bytes[..]);
    assert_eq!(zqs_to_bytes(&[x, Zq::one()]).len(), 16);
}

#[test]
fn norm_is_the_euclidean_norm() {
    let centred: Vec<i64> = (0..64).map(|k| (k - 32) * 1_099_511_627_776).collect();
    let residues: Vec<u64> = centred
        .iter()
        .map(|&c| if c < 0 { MODULUS - (-c) as u64 } else { c as u64 })
        .collect();
    let expected: u128 = centred.iter().map(|&c| (c as i128 * c as i128) as u128).sum();
    assert_eq!(poly_vec_norm_sq(&[poly(&residues)]), Some(expected));
}
