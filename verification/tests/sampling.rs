use greyhound::challenge::{challenge_poly, generate_labrador_challenges};
use greyhound::input::{
    generate_coefficients, generate_point, parse_u32, CoefficientReader, CsvError,
};
use greyhound::norm::poly_vec_norm_sq;
use greyhound::poly::poly_vecs_equal;
use greyhound::zq::{Zq, MODULUS};
use rand::seq::SliceRandom;
use rand::{Rng, SeedableRng};
use rand_chacha::ChaCha20Rng;

fn chars(s: &str) -> Vec<char> {
    s.chars().collect()
}

fn read(lines: &[&str], count: usize) -> Result<Vec<u32>, CsvError> {
    let mut reader = CoefficientReader::new();
    for line in lines {
        reader.push_line(&chars(line))?;
    }
    reader.finish_with_count(count)
}

#[test]
fn challenges_follow_the_generator() {
    let seed = [7u8; 32];
    let mut rng = ChaCha20Rng::from_seed(seed);
    let mut base = vec![0u32; 23];
    base.extend(vec![1u32; 31]);
    base.extend(vec![2u32; 10]);
    let challenges = generate_labrador_challenges(&seed, 5);
    assert_eq!(challenges.len(), 5);
    for c in &challenges {
        let mut mags = base.clone();
        mags.shuffle(&mut rng);
        for k in 0..64 {
            let mut expected = 0u64;
            if mags[k] != 0 {
                let positive: bool = rng.gen();
                expected = if positive { mags[k] as u64 } else { MODULUS - mags[k] as u64 };
            }
            assert_eq!(c.coefficient(k).value(), expected);
        }
    }
}

#[test]
fn challenges_have_the_prescribed_distribution() {
    for c in generate_labrador_challenges(&[1u8; 32], 20) {
        let sizes: Vec<u64> = (0..64)
            .map(|k| c.coefficient(k).value())
            .map(|v| v.min(MODULUS - v))
            .collect();
        assert_eq!(sizes.iter().filter(|&&s| s == 0).count(), 23);
        assert_eq!(sizes.iter().filter(|&&s| s == 1).count(), 31);
        assert_eq!(sizes.iter().filter(|&&s| s == 2).count(), 10);
        assert_eq!(sizes.iter().sum::<u64>(), 51);
        assert_eq!(poly_vec_norm_sq(&[c]), Some(71));
    }
}

#[test]
fn longer_requests_only_append() {
    let (few, many) =
        (generate_labrador_challenges(&[4; 32], 3), generate_labrador_challenges(&[4; 32], 7));
    assert!(poly_vecs_equal(&few, &many[..3]));
}

#[test]
fn challenges_depend_on_the_seed() {
    let value = |seed: u8| {
        let c = generate_labrador_challenges(&[seed; 32], 1);
        (0..64).map(|k| c[0].coefficient(k).value()).collect::<Vec<u64>>()
    };
    assert_ne!(value(1), value(2));
    assert_eq!(value(3), value(3));
    assert!(generate_labrador_challenges(&[1u8; 32], 0).is_empty());
}

#[test]
fn signs_go_to_nonzero_coefficients() {
    let mut mags = vec![0u32; 64];
    mags[1] = 2;
    mags[63] = 1;
    let c = challenge_poly(&mags, &[false, true]);
    assert_eq!(c.coefficient(0).value(), 0);
    assert_eq!(c.coefficient(1).value(), MODULUS - 2);
    assert_eq!(c.coefficient(63).value(), 1);
}

#[test]
fn coefficients_follow_the_generator() {
    let mut rng = ChaCha20Rng::seed_from_u64(12345);
    let expected: Vec<u32> = (0..100).map(|_| rng.gen::<u32>()).collect();
    assert_eq!(generate_coefficients(12345, 100), expected);
    assert_ne!(generate_coefficients(12346, 100), expected);
}

#[test]
fn point_follows_the_generator() {
    let mut rng = ChaCha20Rng::seed_from_u64(12345 ^ 0xa076_1d64_78bd_642f);
    assert_eq!(generate_point(12345).value(), Zq::from(rng.gen::<u32>()).value());
    assert_ne!(generate_point(12345).value(), generate_coefficients(12345, 1)[0] as u64);
}

#[test]
fn numbers_are_read() {
    assert_eq!(parse_u32(&chars("0")), Some(0));
    assert_eq!(parse_u32(&chars("+007")), Some(7));
    assert_eq!(parse_u32(&chars("4294967295")), Some(u32::MAX));
    assert_eq!(parse_u32(&chars("4294967296")), None);
    assert_eq!(parse_u32(&chars("99999999999999999999999")), None);
    for bad in ["", "+", "-1", "1 2", "1.0", "0x1", "++1", "\u{0661}"] {
        assert_eq!(parse_u32(&chars(bad)), None);
    }
}

#[test]
fn numbers_are_read_as_the_standard_library_does() {
    for s in ["0", "+1", "-0", "12345678", "4294967295", "4294967296", "", "+", "a", "1_0"] {
        assert_eq!(parse_u32(&chars(s)), s.parse::<u32>().ok());
    }
}

#[test]
fn lines_are_split_and_trimmed() {
    assert_eq!(read(&["1,2,3", " 4 ,\t5\r", "", ",,6,"], 6), Ok(vec![1, 2, 3, 4, 5, 6]));
    assert_eq!(read(&["\u{00a0}7\u{3000},\u{2028}8"], 2), Ok(vec![7, 8]));
    assert_eq!(read(&["   ", ",,,"], 0), Ok(vec![]));
}

#[test]
fn white_space_is_that_of_the_standard_library() {
    for v in 0..0x3100u32 {
        if let Some(c) = char::from_u32(v) {
            let line: Vec<char> = vec![c, '5', c];
            let mut reader = CoefficientReader::new();
            let accepted = reader.push_line(&line).is_ok();
            let text: String = line.iter().collect();
            let expected = text.split(',').all(|t| t.trim().is_empty() || t.trim().parse::<u32>().is_ok());
            assert_eq!(accepted, expected);
        }
    }
}

#[test]
fn bad_entries_are_refused() {
    assert_eq!(read(&["1,x"], 1), Err(CsvError::InvalidCoefficient));
    assert_eq!(read(&["x,1"], 1), Err(CsvError::InvalidCoefficient));
    assert_eq!(read(&["1,2"], 3), Err(CsvError::WrongCount));
    let mut reader = CoefficientReader::new();
    assert!(reader.push_line(&chars("1,2")).is_ok());
    assert_eq!(reader.push_line(&chars("3,-4")), Err(CsvError::InvalidCoefficient));
    assert_eq!(reader.finish(), Err(CsvError::WrongCount));
}
