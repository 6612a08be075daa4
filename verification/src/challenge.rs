//! Challenge polynomials of the Labrador distribution: 23 coefficients are zero, 31 are `1` or
//! `-1` and 10 are `2` or `-2`.
use rand::{Rng, SeedableRng};
use rand::seq::SliceRandom;
use rand_chacha::ChaCha20Rng;
use vstd::prelude::*;

use crate::norm::{magnitude, magnitude_sq, poly_norm_sq};
use crate::params::CHALLENGE_L1;
use crate::poly::{rqs, zqs, PolyRing};
use crate::rq::{Rq, DEGREE};
use crate::sums::{lemma_sum_plus, lemma_sum_same, lemma_sum_scale, lemma_sum_split, sum};
use crate::zq::{lemma_modq_small, modq, q, Zq};

verus! {

/// What shuffling `items` gives with the ChaCha20 generator for `seed` at word `pos` of its
/// stream, and the word at which the generator stands afterwards.
pub uninterp spec fn chacha_shuffled(seed: Seq<u8>, pos: u128, items: Seq<u32>) -> (
    Seq<u32>,
    u128,
);

/// The coin that the ChaCha20 generator for `seed` gives at word `pos` of its stream, and the
/// word at which it stands afterwards.
pub uninterp spec fn chacha_coin(seed: Seq<u8>, pos: u128) -> (bool, u128);

/// `SliceRandom::shuffle` with a `ChaCha20Rng` that `from_seed` and `set_word_pos` put in place:
/// the result holds the same items, in an order that depends on the seed, the position and the
/// items alone, and so does the position that `get_word_pos` gives afterwards.
#[verifier::external_body]
fn shuffle(seed: &[u8; 32], pos: u128, items: &[u32]) -> (r: (Vec<u32>, u128))
    ensures
        (r.0@, r.1) == chacha_shuffled(seed@, pos, items@),
        r.0@.to_multiset() == items@.to_multiset(),
{
    let mut rng = ChaCha20Rng::from_seed(*seed);
    rng.set_word_pos(pos);
    let mut out = items.to_vec();
    out.shuffle(&mut rng);
    (out, rng.get_word_pos())
}

/// `Rng::gen` for a `bool`, with a `ChaCha20Rng` that `from_seed` and `set_word_pos` put in
/// place: the coin, and the position that `get_word_pos` gives afterwards, depend on the seed
/// and the position alone.
#[verifier::external_body]
fn coin(seed: &[u8; 32], pos: u128) -> (r: (bool, u128))
    ensures
        r == chacha_coin(seed@, pos),
{
    let mut rng = ChaCha20Rng::from_seed(*seed);
    rng.set_word_pos(pos);
    let coin: bool = rng.gen();
    (coin, rng.get_word_pos())
}

/// The absolute values of the coefficients, before they are shuffled.
pub open spec fn base_magnitudes() -> Seq<u32> {
    Seq::new(
        64,
        |k: int|
            if k < 23 {
                0u32
            } else if k < 54 {
                1u32
            } else {
                2u32
            },
    )
}

/// The number of nonzero entries among the first `n`.
pub open spec fn nonzeros(mags: Seq<u32>, n: int) -> int
    decreases n,
{
    if n <= 0 {
        0
    } else {
        nonzeros(mags, n - 1) + indicator(mags[n - 1] != 0)
    }
}

/// The coefficient with absolute value `mag`: each nonzero one takes the next sign, and `true`
/// stands for plus.
pub open spec fn signed_coefficient(mags: Seq<u32>, signs: Seq<bool>, k: int) -> int {
    if mags[k] == 0 {
        0
    } else if signs[nonzeros(mags, k)] {
        mags[k] as int
    } else {
        modq(-mags[k])
    }
}

/// The polynomial whose coefficients have the given absolute values and signs.
pub open spec fn signed_poly(mags: Seq<u32>, signs: Seq<bool>) -> Rq {
    Seq::new(64, |k: int| signed_coefficient(mags, signs, k))
}

/// The first `n` coins from word `pos` on, and the word at which the generator stands then.
pub open spec fn coins(seed: Seq<u8>, pos: u128, n: int) -> (Seq<bool>, u128)
    decreases n,
{
    if n <= 0 {
        (Seq::empty(), pos)
    } else {
        let (before, at) = coins(seed, pos, n - 1);
        let (b, next) = chacha_coin(seed, at);
        (before.push(b), next)
    }
}

/// The challenge drawn from word `pos` on, and the word at which the generator stands then.
pub open spec fn drawn_challenge(seed: Seq<u8>, pos: u128) -> (Rq, u128) {
    let (mags, at) = chacha_shuffled(seed, pos, base_magnitudes());
    let (signs, next) = coins(seed, at, nonzeros(mags, 64));
    (signed_poly(mags, signs), next)
}

/// The first `n` challenges for a seed, and the word at which the generator stands then.
pub open spec fn drawn_challenges(seed: Seq<u8>, n: int) -> (Seq<Rq>, u128)
    decreases n,
{
    if n <= 0 {
        (Seq::empty(), 0)
    } else {
        let (before, at) = drawn_challenges(seed, n - 1);
        let (c, next) = drawn_challenge(seed, at);
        (before.push(c), next)
    }
}

/// The number of nonzero entries grows exactly at the nonzero entries.
pub proof fn lemma_nonzeros_bounds(mags: Seq<u32>, k: int, n: int)
    requires
        0 <= k <= n,
    ensures
        0 <= nonzeros(mags, k) <= nonzeros(mags, n),
        nonzeros(mags, n) <= n,
        k < n && mags[k] != 0 ==> nonzeros(mags, k) < nonzeros(mags, n),
    decreases n,
{
    if k < n {
        lemma_nonzeros_bounds(mags, k, n - 1);
    } else if n > 0 {
        lemma_nonzeros_bounds(mags, n - 1, n - 1);
    }
}

/// The polynomial whose coefficients have the given absolute values, with one sign for each
/// value that is not zero.
pub fn challenge_poly(mags: &[u32], signs: &[bool]) -> (r: PolyRing)
    requires
        mags@.len() == 64,
        signs@.len() == nonzeros(mags@, 64),
    ensures
        r@ == signed_poly(mags@, signs@),
{
    let mut coeffs: Vec<Zq> = Vec::new();
    let mut used: usize = 0;
    for k in 0..DEGREE
        invariant
            mags@.len() == 64,
            signs@.len() == nonzeros(mags@, 64),
            used == nonzeros(mags@, k as int),
            coeffs@.len() == k,
            forall|j: int|
                0 <= j < k ==> (#[trigger] coeffs@[j])@ == signed_coefficient(mags@, signs@, j),
    {
        proof {
            lemma_nonzeros_bounds(mags@, k as int, 64);
        }
        let mag: u32 = mags[k];
        if mag != 0 {
            if signs[used] {
                coeffs.push(Zq::from(mag));
            } else {
                coeffs.push(Zq::zero().minus(Zq::from(mag)));
            }
            used = used + 1;
        } else {
            coeffs.push(Zq::zero());
        }
    }
    let r = match PolyRing::from_slice(coeffs.as_slice()) {
        Some(p) => p,
        None => PolyRing::zero(),
    };
    assert(zqs(coeffs@) =~= signed_poly(mags@, signs@));
    r
}

/// The absolute values before they are shuffled.
fn magnitudes() -> (r: Vec<u32>)
    ensures
        r@ == base_magnitudes(),
{
    let mut mags: Vec<u32> = Vec::new();
    for k in 0..DEGREE
        invariant
            mags@.len() == k,
            forall|j: int| 0 <= j < k ==> #[trigger] mags@[j] == base_magnitudes()[j],
    {
        if k < 23 {
            mags.push(0);
        } else if k < 54 {
            mags.push(1);
        } else {
            mags.push(2);
        }
    }
    assert(mags@ =~= base_magnitudes());
    mags
}

/// The number of entries that are not zero.
fn count_nonzeros(mags: &[u32]) -> (r: usize)
    ensures
        r == nonzeros(mags@, mags@.len() as int),
{
    let mut n: usize = 0;
    for k in 0..mags.len()
        invariant
            n == nonzeros(mags@, k as int),
            n <= k,
    {
        if mags[k] != 0 {
            n = n + 1;
        }
    }
    n
}

/// The challenges for a seed; each has the prescribed distribution of coefficients.
pub fn generate_labrador_challenges(seed: &[u8; 32], num_challenges: usize) -> (r: Vec<PolyRing>)
    ensures
        rqs(r@) == drawn_challenges(seed@, num_challenges as int).0,
        r@.len() == num_challenges,
        forall|i: int| 0 <= i < num_challenges ==> in_challenge_space(#[trigger] r@[i]@),
{
    let base = magnitudes();
    let mut pos: u128 = 0;
    let mut challenges: Vec<PolyRing> = Vec::new();
    assert(rqs(challenges@) =~= drawn_challenges(seed@, 0).0);
    for i in 0..num_challenges
        invariant
            base@ == base_magnitudes(),
            (rqs(challenges@), pos) == drawn_challenges(seed@, i as int),
            challenges@.len() == i,
            forall|j: int| 0 <= j < i ==> in_challenge_space(#[trigger] challenges@[j]@),
    {
        let (mags, at) = shuffle(seed, pos, base.as_slice());
        proof {
            vstd::seq_lib::to_multiset_len(mags@);
            vstd::seq_lib::to_multiset_len(base@);
        }
        let n = count_nonzeros(mags.as_slice());
        let mut signs: Vec<bool> = Vec::new();
        let mut p: u128 = at;
        assert(signs@ =~= coins(seed@, at, 0).0);
        for j in 0..n
            invariant
                (signs@, p) == coins(seed@, at, j as int),
                signs@.len() == j,
        {
            let (b, next) = coin(seed, p);
            signs.push(b);
            p = next;
        }
        let c = challenge_poly(mags.as_slice(), signs.as_slice());
        proof {
            challenge_distribution(mags@, signs@);
        }
        let ghost before = challenges@;
        challenges.push(c);
        pos = p;
        assert(rqs(challenges@) =~= rqs(before).push(c@));
    }
    challenges
}

/// One where the condition holds, zero where it does not.
pub open spec fn indicator(b: bool) -> int {
    if b {
        1
    } else {
        0
    }
}

/// Marks the places where `v` occurs.
pub open spec fn occurs(s: Seq<u32>, v: u32) -> spec_fn(int) -> int {
    |i: int| indicator(s[i] == v)
}

/// How often `v` occurs.
pub open spec fn occurrences(s: Seq<u32>, v: u32) -> int {
    sum(occurs(s, v), 0, s.len() as int)
}

proof fn lemma_occurrences(s: Seq<u32>, v: u32)
    ensures
        occurrences(s, v) == s.to_multiset().count(v),
    decreases s.len(),
{
    broadcast use vstd::seq_lib::group_to_multiset_ensures;

    let f = occurs(s, v);
    if s.len() > 0 {
        let t = s.drop_last();
        let g = occurs(t, v);
        lemma_occurrences(t, v);
        lemma_sum_same(f, g, 0, s.len() - 1);
        assert(s =~= t.push(s.last()));
        assert(s.to_multiset() =~= t.to_multiset().insert(s.last()));
    } else {
        if s.to_multiset().count(v) > 0 {
            assert(s.to_multiset().contains(v));
            assert(s.contains(v));
        }
    }
}

/// A sum of `c` over a range.
proof fn lemma_sum_constant(f: spec_fn(int) -> int, c: int, lo: int, hi: int)
    requires
        lo <= hi,
        forall|i: int| lo <= i < hi ==> #[trigger] f(i) == c,
    ensures
        sum(f, lo, hi) == c * (hi - lo),
    decreases hi - lo,
{
    if lo < hi {
        lemma_sum_constant(f, c, lo, hi - 1);
        assert(c * (hi - 1 - lo) + c == c * (hi - lo)) by (nonlinear_arith);
    } else {
        assert(c * (hi - lo) == 0) by (nonlinear_arith)
            requires
                hi == lo,
        ;
    }
}

proof fn lemma_base_occurrences()
    ensures
        occurrences(base_magnitudes(), 0) == 23,
        occurrences(base_magnitudes(), 1) == 31,
        occurrences(base_magnitudes(), 2) == 10,
{
    let s = base_magnitudes();
    assert forall|v: u32| v == 0 || v == 1 || v == 2 implies occurrences(s, v) == (if v == 0 {
        23int
    } else if v == 1 {
        31int
    } else {
        10int
    }) by {
        let f = occurs(s, v);
        lemma_sum_split(f, 0, 23, 64);
        lemma_sum_split(f, 23, 54, 64);
        lemma_sum_constant(f, indicator(v == 0), 0, 23);
        lemma_sum_constant(f, indicator(v == 1), 23, 54);
        lemma_sum_constant(f, indicator(v == 2), 54, 64);
    }
}

/// How many coefficients of `c` have the absolute value `v`.
pub open spec fn coefficients_of_size(c: Rq, v: int) -> int {
    sum(|k: int| indicator(magnitude(c[k]) == v), 0, 64)
}

/// The sum of the absolute values of the coefficients.
pub open spec fn l1_norm(c: Rq) -> int {
    sum(|k: int| magnitude(c[k]), 0, 64)
}

/// 23 coefficients are zero, 31 have size one and 10 have size two, which makes the L1 norm 51
/// and the squared L2 norm 71.
pub open spec fn in_challenge_space(c: Rq) -> bool {
    &&& coefficients_of_size(c, 0) == 23
    &&& coefficients_of_size(c, 1) == 31
    &&& coefficients_of_size(c, 2) == 10
    &&& l1_norm(c) == CHALLENGE_L1
    &&& poly_norm_sq(c) == 71
}

/// Whatever the order of the absolute values and whatever the signs, a challenge has 23 zeros,
/// 31 coefficients of size one and 10 of size two, so its L1 norm is 51 and its squared L2 norm
/// is 71.
pub proof fn challenge_distribution(mags: Seq<u32>, signs: Seq<bool>)
    requires
        mags.to_multiset() == base_magnitudes().to_multiset(),
    ensures
        in_challenge_space(signed_poly(mags, signs)),
{
    broadcast use vstd::seq_lib::group_to_multiset_ensures;

    let base = base_magnitudes();
    let c = signed_poly(mags, signs);
    lemma_base_occurrences();
    vstd::seq_lib::to_multiset_len(mags);
    vstd::seq_lib::to_multiset_len(base);
    assert forall|k: int| 0 <= k < 64 implies mags[k] <= 2 && magnitude(#[trigger] c[k])
        == mags[k] by {
        assert(mags.contains(mags[k]));
        assert(mags.to_multiset().contains(mags[k]));
        assert(base.to_multiset().contains(mags[k]));
        assert(base.contains(mags[k]));
        if mags[k] > 0 {
            vstd::arithmetic::div_mod::lemma_mod_add_multiples_vanish(-mags[k], q());
            lemma_modq_small(q() - mags[k]);
        }
    }
    assert forall|v: u32| v <= 2 implies coefficients_of_size(c, v as int) == occurrences(
        base,
        v,
    ) by {
        lemma_occurrences(mags, v);
        lemma_occurrences(base, v);
        lemma_sum_same(
            |k: int| indicator(magnitude(c[k]) == v as int),
            occurs(mags, v),
            0,
            64,
        );
    }
    assert(coefficients_of_size(c, 0u32 as int) == 23);
    assert(coefficients_of_size(c, 1u32 as int) == 31);
    assert(coefficients_of_size(c, 2u32 as int) == 10);
    let ones = |k: int| indicator(magnitude(c[k]) == 1);
    let twos = |k: int| indicator(magnitude(c[k]) == 2);
    let double = |k: int| 2 * twos(k);
    lemma_sum_scale(2, twos, 0, 64);
    lemma_sum_plus(ones, double, 0, 64);
    lemma_sum_same(|k: int| magnitude(c[k]), |k: int| ones(k) + double(k), 0, 64);
    let fourfold = |k: int| 4 * twos(k);
    lemma_sum_scale(4, twos, 0, 64);
    lemma_sum_plus(ones, fourfold, 0, 64);
    assert forall|k: int| 0 <= k < 64 implies #[trigger] magnitude_sq(c[k]) == ones(k) + fourfold(
        k,
    ) by {
        assert(magnitude(c[k]) == mags[k]);
    }
    lemma_sum_same(|k: int| magnitude_sq(c[k]), |k: int| ones(k) + fourfold(k), 0, 64);
}

/// A longer request of challenges only appends to a shorter one.
pub proof fn longer_request_appends(seed: Seq<u8>, n: int, m: int)
    requires
        0 <= n <= m,
    ensures
        drawn_challenges(seed, n).0.len() == n,
        drawn_challenges(seed, m).0.take(n) == drawn_challenges(seed, n).0,
    decreases m,
{
    if n < m {
        longer_request_appends(seed, n, m - 1);
        longer_request_appends(seed, m - 1, m - 1);
        let before = drawn_challenges(seed, m - 1).0;
        assert(drawn_challenges(seed, m).0.take(n) =~= before.take(n));
    } else {
        if n > 0 {
            longer_request_appends(seed, n - 1, n - 1);
        }
        assert(drawn_challenges(seed, m).0.take(n) =~= drawn_challenges(seed, n).0);
    }
}

} // verus!
