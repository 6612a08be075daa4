//! How challenges come out of the generator's stream.
use vstd::prelude::*;

use crate::challenge::{
    base_magnitudes, chacha_coin, chacha_shuffled, coins, drawn_challenges, nonzeros, signed_poly,
};
use crate::norm::{magnitude, magnitude_is_absolute_value};
use crate::sums::sum;
use crate::zq::{lemma_modq_small, q};

verus! {

/// A run of coins is a shorter run and then the coins from where that run ended; one coin is what
/// the generator gives next.
pub proof fn coins_are_drawn_in_turn(seed: Seq<u8>, pos: u128, n: int, m: int)
    requires
        0 <= n,
        0 <= m,
    ensures
        ({
            let (first, at) = coins(seed, pos, n);
            let (rest, end) = coins(seed, at, m);
            coins(seed, pos, n + m) == (first + rest, end)
        }),
        coins(seed, pos, n).0.len() == n,
        coins(seed, pos, 0).1 == pos,
        coins(seed, pos, 1) == (seq![chacha_coin(seed, pos).0], chacha_coin(seed, pos).1),
    decreases n + m,
{
    let (first, at) = coins(seed, pos, n);
    if m == 0 {
        assert(first + coins(seed, at, 0).0 =~= first);
        if n > 0 {
            coins_are_drawn_in_turn(seed, pos, n - 1, 0);
        }
    } else {
        coins_are_drawn_in_turn(seed, pos, n, m - 1);
        let (rest, end) = coins(seed, at, m - 1);
        let b = chacha_coin(seed, end).0;
        assert((first + rest).push(b) =~= first + rest.push(b));
    }
    assert(coins(seed, pos, 0).0 =~= Seq::empty());
    assert(Seq::empty().push(chacha_coin(seed, pos).0) =~= seq![chacha_coin(seed, pos).0]);
}

/// The number of nonzero entries counts each place once.
pub proof fn nonzeros_count_each_place(mags: Seq<u32>, n: int)
    requires
        0 <= n,
    ensures
        nonzeros(mags, n) == sum(
            |k: int|
                if mags[k] == 0 {
                    0int
                } else {
                    1
                },
            0,
            n,
        ),
    decreases n,
{
    if n > 0 {
        nonzeros_count_each_place(mags, n - 1);
    }
}

/// A challenge has the given absolute values, at their places. The sign at a place with `i`
/// nonzero places before it is sign number `i`: the value itself for plus, and `q` minus the
/// value for minus.
pub proof fn challenge_has_its_values_and_signs(mags: Seq<u32>, signs: Seq<bool>, k: int)
    requires
        mags.len() == 64,
        0 <= k < 64,
    ensures
        signed_poly(mags, signs).len() == 64,
        magnitude(signed_poly(mags, signs)[k]) == mags[k],
        mags[k] != 0 && signs[nonzeros(mags, k)] ==> signed_poly(mags, signs)[k] == mags[k],
        mags[k] != 0 && !signs[nonzeros(mags, k)] ==> signed_poly(mags, signs)[k] == q() - mags[k],
        mags[k] == 0 ==> signed_poly(mags, signs)[k] == 0,
{
    let d = mags[k] as int;
    magnitude_is_absolute_value(d);
    lemma_modq_small(d);
    if d > 0 {
        vstd::arithmetic::div_mod::lemma_mod_add_multiples_vanish(-d, q());
        lemma_modq_small(q() - d);
    }
}

/// Turning one sign changes the coefficient that it belongs to and no other.
pub proof fn sign_belongs_to_one_coefficient(
    mags: Seq<u32>,
    signs: Seq<bool>,
    at: int,
    k: int,
)
    requires
        mags.len() == 64,
        0 <= at < 64,
        0 <= k < 64,
        mags[at] != 0,
        signs.len() == nonzeros(mags, 64),
    ensures
        ({
            let i = nonzeros(mags, at);
            let turned = signs.update(i, !signs[i]);
            &&& 0 <= i < signs.len()
            &&& k != at ==> signed_poly(mags, turned)[k] == signed_poly(mags, signs)[k]
            &&& signed_poly(mags, turned)[at] == q() - signed_poly(mags, signs)[at]
        }),
{
    crate::challenge::lemma_nonzeros_bounds(mags, at, 64);
    let i = nonzeros(mags, at);
    let turned = signs.update(i, !signs[i]);
    challenge_has_its_values_and_signs(mags, signs, at);
    challenge_has_its_values_and_signs(mags, turned, at);
    if k != at && mags[k] != 0 {
        crate::challenge::lemma_nonzeros_bounds(mags, k, 64);
        if k < at {
            crate::challenge::lemma_nonzeros_bounds(mags, k, at);
        } else {
            crate::challenge::lemma_nonzeros_bounds(mags, at, k);
        }
        assert(nonzeros(mags, k) != i);
    }
}

/// Challenges for one seed are drawn from one stream: the absolute values 23 times zero, 31 times
/// one and 10 times two are shuffled at the word where the challenges before end, and the signs
/// are the coins after that.
pub proof fn challenges_share_a_stream(seed: Seq<u8>, n: int)
    requires
        0 <= n,
    ensures
        drawn_challenges(seed, 0).1 == 0,
        drawn_challenges(seed, n + 1).0.len() == n + 1,
        ({
            let pos = drawn_challenges(seed, n).1;
            let base = Seq::new(23, |k: int| 0u32) + Seq::new(31, |k: int| 1u32) + Seq::new(
                10,
                |k: int| 2u32,
            );
            let (mags, at) = chacha_shuffled(seed, pos, base);
            let (signs, end) = coins(seed, at, nonzeros(mags, 64));
            &&& drawn_challenges(seed, n + 1).0[n] == signed_poly(mags, signs)
            &&& drawn_challenges(seed, n + 1).1 == end
        }),
{
    crate::challenge::longer_request_appends(seed, n, n + 1);
    crate::challenge::longer_request_appends(seed, n + 1, n + 1);
    let base = Seq::new(23, |k: int| 0u32) + Seq::new(31, |k: int| 1u32) + Seq::new(
        10,
        |k: int| 2u32,
    );
    assert(base =~= base_magnitudes());
}

} // verus!
