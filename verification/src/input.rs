//! Coefficients and evaluation points: read from comma-separated text, or drawn from a seeded
//! generator.
use rand::{Rng, SeedableRng};
use rand::distributions::Standard;
use rand_chacha::ChaCha20Rng;
use vstd::prelude::*;

use crate::input_laws::{is_numeral, joined, numerals_are_all_read};
use crate::params::N;
use crate::zq::Zq;

verus! {

/// Word number `index` that the ChaCha20 generator seeded with a 64-bit integer gives.
pub uninterp spec fn chacha_word(seed: u64, index: int) -> u32;

/// `Rng::sample_iter` with the `Standard` distribution of 32-bit integers, on a `ChaCha20Rng`
/// from `seed_from_u64`: the words are a function of the seed alone.
#[verifier::external_body]
fn chacha_words(seed: u64, count: usize) -> (r: Vec<u32>)
    ensures
        r@.len() == count,
        forall|i: int| 0 <= i < count ==> #[trigger] r@[i] == chacha_word(seed, i),
{
    ChaCha20Rng::seed_from_u64(seed).sample_iter(Standard).take(count).collect()
}

/// The coefficients for a seed.
pub fn generate_coefficients(seed: u64, count: usize) -> (r: Vec<u32>)
    ensures
        r@ == Seq::new(count as nat, |i: int| chacha_word(seed, i)),
{
    let words = chacha_words(seed, count);
    assert(words@ =~= Seq::new(count as nat, |i: int| chacha_word(seed, i)));
    words
}

/// What a seed is combined with for the evaluation point, so that the point does not repeat the
/// first coefficient.
pub const POINT_MASK: u64 = 0xa076_1d64_78bd_642f;

/// The evaluation point for a seed.
pub fn generate_point(seed: u64) -> (r: Zq)
    ensures
        r@ == chacha_word(seed ^ POINT_MASK, 0),
{
    let words = chacha_words(seed ^ POINT_MASK, 1);
    Zq::from(words[0])
}

/// Why coefficients could not be read.
#[derive(Clone, Copy, PartialEq, Eq, Structural, Debug)]
pub enum CsvError {
    /// An entry is not a 32-bit unsigned integer.
    InvalidCoefficient,
    /// The number of entries is wrong.
    WrongCount,
}

/// The character has the Unicode property `White_Space`.
pub open spec fn is_white(c: char) -> bool {
    ||| 0x9 <= c as u32 <= 0xd
    ||| c as u32 == 0x20
    ||| c as u32 == 0x85
    ||| c as u32 == 0xa0
    ||| c as u32 == 0x1680
    ||| 0x2000 <= c as u32 <= 0x200a
    ||| c as u32 == 0x2028
    ||| c as u32 == 0x2029
    ||| c as u32 == 0x202f
    ||| c as u32 == 0x205f
    ||| c as u32 == 0x3000
}

/// The text without white space at its start.
pub open spec fn trim_start(t: Seq<char>) -> Seq<char>
    decreases t.len(),
{
    if t.len() > 0 && is_white(t[0]) {
        trim_start(t.skip(1))
    } else {
        t
    }
}

/// The text without white space at its end.
pub open spec fn trim_end(t: Seq<char>) -> Seq<char>
    decreases t.len(),
{
    if t.len() > 0 && is_white(t.last()) {
        trim_end(t.drop_last())
    } else {
        t
    }
}

/// The text without white space at its start and end.
pub open spec fn trimmed(t: Seq<char>) -> Seq<char> {
    trim_end(trim_start(t))
}

/// The character is a decimal digit.
pub open spec fn is_digit(c: char) -> bool {
    '0' <= c <= '9'
}

/// The number with the given decimal digits.
pub open spec fn decimal(digits: Seq<char>) -> int
    decreases digits.len(),
{
    if digits.len() == 0 {
        0
    } else {
        10 * decimal(digits.drop_last()) + (digits.last() as u32 - '0' as u32)
    }
}

/// The text without a plus sign in front.
pub open spec fn unsigned_part(t: Seq<char>) -> Seq<char> {
    if t.len() > 0 && t[0] == '+' {
        t.skip(1)
    } else {
        t
    }
}

/// The 32-bit integer that a text stands for: decimal digits, at least one, after an optional
/// plus sign.
pub open spec fn parsed_u32(t: Seq<char>) -> Option<u32> {
    let digits = unsigned_part(t);
    if digits.len() > 0 && (forall|i: int|
        0 <= i < digits.len() ==> is_digit(#[trigger] digits[i])) && decimal(digits) <= u32::MAX {
        Some(decimal(digits) as u32)
    } else {
        None
    }
}

/// The parts of a line between commas.
pub open spec fn split_commas(line: Seq<char>) -> Seq<Seq<char>>
    decreases line.len(),
{
    if line.len() == 0 {
        seq![Seq::empty()]
    } else {
        let rest = split_commas(line.drop_last());
        if line.last() == ',' {
            rest.push(Seq::empty())
        } else {
            rest.drop_last().push(rest.last().push(line.last()))
        }
    }
}

/// The coefficients that the parts of a line stand for; blank parts are skipped.
pub open spec fn coefficients_in(parts: Seq<Seq<char>>) -> Option<Seq<u32>>
    decreases parts.len(),
{
    if parts.len() == 0 {
        Some(Seq::empty())
    } else {
        match coefficients_in(parts.drop_last()) {
            None => None,
            Some(before) => {
                let t = trimmed(parts.last());
                if t.len() == 0 {
                    Some(before)
                } else {
                    match parsed_u32(t) {
                        Some(v) => Some(before.push(v)),
                        None => None,
                    }
                }
            },
        }
    }
}

/// Whether the character has the Unicode property `White_Space`.
fn white(c: char) -> (r: bool)
    ensures
        r == is_white(c),
{
    let v: u32 = c as u32;
    (0x9 <= v && v <= 0xd) || v == 0x20 || v == 0x85 || v == 0xa0 || v == 0x1680 || (0x2000 <= v
        && v <= 0x200a) || v == 0x2028 || v == 0x2029 || v == 0x202f || v == 0x205f || v == 0x3000
}

/// White space at the start does not count.
pub proof fn lemma_trim_start(t: Seq<char>, k: int)
    requires
        0 <= k <= t.len(),
        forall|i: int| 0 <= i < k ==> is_white(#[trigger] t[i]),
    ensures
        trim_start(t) == trim_start(t.skip(k)),
    decreases k,
{
    if k > 0 {
        let s = t.skip(1);
        assert forall|i: int| 0 <= i < k - 1 implies is_white(#[trigger] s[i]) by {
            assert(s[i] == t[i + 1]);
        }
        lemma_trim_start(s, k - 1);
        assert(s.skip(k - 1) =~= t.skip(k));
        assert(is_white(t[0]));
    } else {
        assert(t.skip(0) =~= t);
    }
}

/// The bounds of the text without white space at its start and end.
fn trim_bounds(t: &[char]) -> (r: (usize, usize))
    ensures
        r.0 <= r.1 <= t@.len(),
        t@.subrange(r.0 as int, r.1 as int) == trimmed(t@),
{
    let n: usize = t.len();
    let mut lo: usize = 0;
    while lo < n && white(t[lo])
        invariant
            lo <= n,
            n == t@.len(),
            forall|i: int| 0 <= i < lo ==> is_white(#[trigger] t@[i]),
        decreases n - lo,
    {
        lo = lo + 1;
    }
    proof {
        lemma_trim_start(t@, lo as int);
        assert(t@.skip(lo as int) =~= t@.subrange(lo as int, n as int));
        if lo < n {
            assert(t@.skip(lo as int)[0] == t@[lo as int]);
        }
    }
    let mut hi: usize = n;
    while hi > lo && white(t[hi - 1])
        invariant
            lo <= hi <= n,
            n == t@.len(),
            trim_end(t@.subrange(lo as int, n as int)) == trim_end(
                t@.subrange(lo as int, hi as int),
            ),
        decreases hi,
    {
        proof {
            let s = t@.subrange(lo as int, hi as int);
            assert(s.last() == t@[hi - 1]);
            assert(s.drop_last() =~= t@.subrange(lo as int, hi - 1));
        }
        hi = hi - 1;
    }
    proof {
        let s = t@.subrange(lo as int, hi as int);
        if hi > lo {
            assert(s.last() == t@[hi - 1]);
        }
    }
    (lo, hi)
}

/// Fewer digits make no larger number.
pub proof fn lemma_decimal_prefix(digits: Seq<char>, k: int)
    requires
        0 <= k <= digits.len(),
        forall|i: int| 0 <= i < digits.len() ==> is_digit(#[trigger] digits[i]),
    ensures
        0 <= decimal(digits.take(k)) <= decimal(digits),
    decreases digits.len(),
{
    if k == digits.len() {
        assert(digits.take(k) =~= digits);
        if k > 0 {
            lemma_decimal_prefix(digits.drop_last(), k - 1);
        }
    } else {
        let d = digits.drop_last();
        lemma_decimal_prefix(d, k);
        assert(d.take(k) =~= digits.take(k));
        assert(is_digit(digits.last()));
    }
}

/// The 32-bit integer that a text stands for.
pub fn parse_u32(t: &[char]) -> (r: Option<u32>)
    ensures
        r == parsed_u32(t@),
{
    let n: usize = t.len();
    let start: usize = if n > 0 && t[0] == '+' {
        1
    } else {
        0
    };
    let ghost digits = unsigned_part(t@);
    assert(digits =~= t@.skip(start as int));
    if start == n {
        return None;
    }
    let mut acc: u64 = 0;
    assert(digits.take(0) =~= Seq::empty());
    for i in start..n
        invariant
            start <= n,
            n == t@.len(),
            digits == unsigned_part(t@),
            digits == t@.skip(start as int),
            acc == decimal(digits.take(i - start)),
            acc <= u32::MAX,
            forall|j: int| 0 <= j < i - start ==> is_digit(#[trigger] digits[j]),
    {
        let c = t[i];
        assert(c == digits[i - start]);
        if c < '0' || c > '9' {
            assert(!is_digit(digits[i - start]));
            return None;
        }
        proof {
            let p = digits.take(i - start + 1);
            assert(p.drop_last() =~= digits.take(i - start));
            assert(p.last() == c);
        }
        acc = acc * 10 + (c as u32 - '0' as u32) as u64;
        if acc > 0xffff_ffff {
            proof {
                if forall|j: int| 0 <= j < digits.len() ==> is_digit(#[trigger] digits[j]) {
                    lemma_decimal_prefix(digits, i - start + 1);
                }
            }
            return None;
        }
    }
    assert(digits.take(digits.len() as int) =~= digits);
    Some(acc as u32)
}

/// Takes in one part of a line.
fn push_part(values: &mut Vec<u32>, part: &[char]) -> (r: Result<(), CsvError>)
    ensures
        ({
            let t = trimmed(part@);
            if t.len() == 0 {
                r is Ok && final(values)@ == old(values)@
            } else {
                match parsed_u32(t) {
                    Some(v) => r is Ok && final(values)@ == old(values)@.push(v),
                    None => r == Err::<(), CsvError>(CsvError::InvalidCoefficient),
                }
            }
        }),
{
    let (lo, hi) = trim_bounds(part);
    if lo == hi {
        return Ok(());
    }
    match parse_u32(vstd::slice::slice_subrange(part, lo, hi)) {
        Some(v) => {
            values.push(v);
            Ok(())
        },
        None => Err(CsvError::InvalidCoefficient),
    }
}

/// Coefficients that are being read line by line.
pub struct CoefficientReader {
    coeffs: Vec<u32>,
}

impl View for CoefficientReader {
    type V = Seq<u32>;

    closed spec fn view(&self) -> Seq<u32> {
        self.coeffs@
    }
}

impl CoefficientReader {
    /// No coefficient has been read.
    pub fn new() -> (r: CoefficientReader)
        ensures
            r@ == Seq::<u32>::empty(),
    {
        CoefficientReader { coeffs: Vec::new() }
    }

    /// Takes in one line: entries between commas, without the white space around them. Blank
    /// entries are skipped; a line with an entry that is no coefficient changes nothing.
    pub fn push_line(&mut self, line: &[char]) -> (r: Result<(), CsvError>)
        ensures
            match coefficients_in(split_commas(line@)) {
                Some(values) => r is Ok && final(self)@ == old(self)@ + values,
                None => r == Err::<(), CsvError>(CsvError::InvalidCoefficient) && final(self)@
                    == old(self)@,
            },
            forall|entries: Seq<Seq<char>>|
                line@ == #[trigger] joined(entries) && (forall|i: int|
                    0 <= i < entries.len() ==> is_numeral(#[trigger] entries[i])) ==> {
                    &&& r is Ok
                    &&& final(self)@.len() == old(self)@.len() + entries.len()
                    &&& final(self)@.take(old(self)@.len() as int) == old(self)@
                    &&& forall|i: int|
                        0 <= i < entries.len() ==> final(self)@[old(self)@.len() + i] == decimal(
                            #[trigger] entries[i],
                        )
                },
    {
        let mut values: Vec<u32> = Vec::new();
        let ghost mut done: Seq<Seq<char>> = Seq::empty();
        let mut part: Vec<char> = Vec::new();
        let n: usize = line.len();
        assert(line@.take(0) =~= Seq::empty());
        assert(split_commas(line@.take(0)) =~= done.push(part@));
        for i in 0..n
            invariant
                n == line@.len(),
                self@ == old(self)@,
                split_commas(line@.take(i as int)) == done.push(part@),
                coefficients_in(done) == Some(values@),
        {
            let c = line[i];
            proof {
                let t = line@.take(i + 1);
                assert(t.drop_last() =~= line@.take(i as int));
                assert(t.last() == c);
                assert(done.push(part@).drop_last() =~= done);
            }
            if c == ',' {
                let ghost parts = done.push(part@);
                match push_part(&mut values, part.as_slice()) {
                    Ok(()) => {},
                    Err(e) => {
                        proof {
                            assert(coefficients_in(parts) is None);
                            assert(split_commas(line@.take(i + 1)).take(parts.len() as int)
                                =~= parts);
                            lemma_refused_prefix(line@, i + 1, parts);
                            lemma_numeral_lines(line@);
                        }
                        return Err(e);
                    },
                }
                proof {
                    done = parts;
                }
                part = Vec::new();
            } else {
                part.push(c);
            }
        }
        proof {
            lemma_numeral_lines(line@);
            assert(line@.take(n as int) =~= line@);
            assert(done.push(part@).drop_last() =~= done);
        }
        match push_part(&mut values, part.as_slice()) {
            Ok(()) => {
                self.coeffs.append(&mut values);
                Ok(())
            },
            Err(e) => Err(e),
        }
    }

    /// The coefficients, if there are exactly `count` of them.
    pub fn finish_with_count(self, count: usize) -> (r: Result<Vec<u32>, CsvError>)
        ensures
            match r {
                Ok(out) => out@ == self@ && self@.len() == count,
                Err(e) => e == CsvError::WrongCount && self@.len() != count,
            },
    {
        if self.coeffs.len() != count {
            return Err(CsvError::WrongCount);
        }
        Ok(self.coeffs)
    }

    /// The coefficients, if there are as many as a committed polynomial has.
    pub fn finish(self) -> (r: Result<Vec<u32>, CsvError>)
        ensures
            match r {
                Ok(out) => out@ == self@ && self@.len() == N,
                Err(e) => e == CsvError::WrongCount && self@.len() != N,
            },
    {
        self.finish_with_count(N)
    }
}

/// A line of numerals is read as their numbers.
proof fn lemma_numeral_lines(line: Seq<char>)
    ensures
        forall|entries: Seq<Seq<char>>|
            line == #[trigger] joined(entries) && (forall|i: int|
                0 <= i < entries.len() ==> is_numeral(#[trigger] entries[i])) ==> {
                &&& coefficients_in(split_commas(line)) matches Some(values)
                &&& values.len() == entries.len()
                &&& forall|i: int|
                    0 <= i < entries.len() ==> values[i] == decimal(#[trigger] entries[i])
            },
{
    assert forall|entries: Seq<Seq<char>>|
        line == #[trigger] joined(entries) && (forall|i: int|
            0 <= i < entries.len() ==> is_numeral(#[trigger] entries[i])) implies {
        &&& coefficients_in(split_commas(line)) matches Some(values)
        &&& values.len() == entries.len()
        &&& forall|i: int| 0 <= i < entries.len() ==> values[i] == decimal(#[trigger] entries[i])
    } by {
        numerals_are_all_read(entries);
    }
}

/// A line is refused if the parts before some comma are.
proof fn lemma_refused_prefix(line: Seq<char>, k: int, parts: Seq<Seq<char>>)
    requires
        0 <= k <= line.len(),
        coefficients_in(parts) is None,
        split_commas(line.take(k)).len() > parts.len(),
        split_commas(line.take(k)).take(parts.len() as int) == parts,
    ensures
        coefficients_in(split_commas(line)) is None,
{
    lemma_split_extends(line, k, parts);
    lemma_none_prefix(split_commas(line), parts);
}

/// The parts before the last comma of a prefix are parts of the line.
proof fn lemma_split_extends(line: Seq<char>, k: int, parts: Seq<Seq<char>>)
    requires
        0 <= k <= line.len(),
        split_commas(line.take(k)).len() > parts.len(),
        split_commas(line.take(k)).take(parts.len() as int) == parts,
    ensures
        split_commas(line).len() > parts.len(),
        split_commas(line).take(parts.len() as int) == parts,
    decreases line.len(),
{
    if k == line.len() {
        assert(line.take(k) =~= line);
    } else {
        let rest = line.drop_last();
        assert(rest.take(k) =~= line.take(k));
        lemma_split_extends(rest, k, parts);
        let before = split_commas(rest);
        assert(split_commas(line).take(parts.len() as int) =~= before.take(parts.len() as int));
    }
}

/// Nothing is read from parts that begin with parts from which nothing is read.
proof fn lemma_none_prefix(all: Seq<Seq<char>>, parts: Seq<Seq<char>>)
    requires
        parts.len() <= all.len(),
        all.take(parts.len() as int) == parts,
        coefficients_in(parts) is None,
    ensures
        coefficients_in(all) is None,
    decreases all.len(),
{
    if parts.len() == all.len() {
        assert(all.take(all.len() as int) =~= all);
    } else {
        let rest = all.drop_last();
        assert(rest.take(parts.len() as int) =~= all.take(parts.len() as int));
        lemma_none_prefix(rest, parts);
    }
}

} // verus!
