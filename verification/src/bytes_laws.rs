//! What the byte encodings hold, place by place.
use vstd::arithmetic::div_mod::lemma_div_denominator;
use vstd::arithmetic::power::{lemma_pow0, lemma_pow1, lemma_pow_adds, lemma_pow_positive, pow};
use vstd::prelude::*;

use crate::bytes::{
    le_bytes, lemma_le_bytes_len, lemma_polys_bytes_len, lemma_scalars_bytes_len, polys_bytes,
    scalars_bytes,
};
use crate::fiat_shamir::{lemma_params_bytes_len, statement_bytes};
use crate::params::{params_bytes, GreyhoundTranscriptParams};
use crate::rq::Rq;

verus! {

/// Byte `i` of an encoded number is its digit for `256^i`.
pub proof fn byte_of_number(v: int, n: nat, i: nat)
    requires
        0 <= v,
        i < n,
    ensures
        le_bytes(v, n).len() == n,
        le_bytes(v, n)[i as int] == (v / pow(256, i)) % 256,
    decreases n,
{
    lemma_le_bytes_len(v, n);
    let rest = le_bytes(v / 256, (n - 1) as nat);
    if i == 0 {
        lemma_pow0(256);
        assert(v / 1 == v);
    } else {
        let j = (i - 1) as nat;
        byte_of_number(v / 256, (n - 1) as nat, j);
        assert(le_bytes(v, n)[i as int] == rest[j as int]);
        lemma_pow_adds(256, 1, j);
        lemma_pow1(256);
        lemma_pow_positive(256, j);
        lemma_div_denominator(v, 256, pow(256, j));
    }
}

/// Joined lists of scalars are encoded one after the other, and one scalar is encoded in eight
/// bytes.
pub proof fn scalars_encode_in_turn(a: Seq<int>, b: Seq<int>, v: int)
    ensures
        scalars_bytes(a + b) == scalars_bytes(a) + scalars_bytes(b),
        scalars_bytes(seq![v]) == le_bytes(v, 8),
    decreases b.len(),
{
    assert(seq![v].drop_last() =~= Seq::empty());
    assert(scalars_bytes(seq![v]) =~= scalars_bytes(seq![v].drop_last()) + le_bytes(v, 8));
    assert(scalars_bytes(seq![v]) =~= le_bytes(v, 8));
    if b.len() == 0 {
        assert(a + b =~= a);
        assert(scalars_bytes(a) + scalars_bytes(b) =~= scalars_bytes(a));
    } else {
        scalars_encode_in_turn(a, b.drop_last(), v);
        assert((a + b).drop_last() =~= a + b.drop_last());
        assert((a + b).last() == b.last());
        assert(scalars_bytes(a) + scalars_bytes(b.drop_last()) + le_bytes(b.last(), 8)
            =~= scalars_bytes(a) + (scalars_bytes(b.drop_last()) + le_bytes(b.last(), 8)));
    }
}

/// Scalar `i` is encoded in the bytes from `8 i` on.
pub proof fn scalar_at_its_place(s: Seq<int>, i: int)
    requires
        0 <= i < s.len(),
    ensures
        scalars_bytes(s).len() == 8 * s.len(),
        scalars_bytes(s).subrange(8 * i, 8 * i + 8) == le_bytes(s[i], 8),
{
    let (a, b) = (s.take(i), s.skip(i + 1));
    scalars_encode_in_turn(a, seq![s[i]], s[i]);
    scalars_encode_in_turn(a + seq![s[i]], b, s[i]);
    assert(a + seq![s[i]] + b =~= s);
    lemma_scalars_bytes_len(s);
    lemma_scalars_bytes_len(a);
    lemma_le_bytes_len(s[i], 8);
    assert(scalars_bytes(s).subrange(8 * i, 8 * i + 8) =~= le_bytes(s[i], 8));
}

/// Joined lists of ring elements are encoded one after the other, and one ring element is encoded
/// as its coefficients.
pub proof fn polys_encode_in_turn(a: Seq<Rq>, b: Seq<Rq>, p: Rq)
    ensures
        polys_bytes(a + b) == polys_bytes(a) + polys_bytes(b),
        polys_bytes(seq![p]) == scalars_bytes(p),
    decreases b.len(),
{
    assert(seq![p].drop_last() =~= Seq::empty());
    assert(polys_bytes(seq![p]) =~= polys_bytes(seq![p].drop_last()) + scalars_bytes(p));
    assert(polys_bytes(seq![p]) =~= scalars_bytes(p));
    if b.len() == 0 {
        assert(a + b =~= a);
        assert(polys_bytes(a) + polys_bytes(b) =~= polys_bytes(a));
    } else {
        polys_encode_in_turn(a, b.drop_last(), p);
        assert((a + b).drop_last() =~= a + b.drop_last());
        assert((a + b).last() == b.last());
        assert(polys_bytes(a) + polys_bytes(b.drop_last()) + scalars_bytes(b.last())
            =~= polys_bytes(a) + (polys_bytes(b.drop_last()) + scalars_bytes(b.last())));
    }
}

/// Coefficient `k` of ring element `i` is encoded in the bytes from `512 i + 8 k` on.
pub proof fn coefficient_at_its_place(s: Seq<Rq>, i: int, k: int)
    requires
        forall|j: int| 0 <= j < s.len() ==> (#[trigger] s[j]).len() == 64,
        0 <= i < s.len(),
        0 <= k < 64,
    ensures
        polys_bytes(s).len() == 512 * s.len(),
        polys_bytes(s).subrange(512 * i + 8 * k, 512 * i + 8 * k + 8) == le_bytes(s[i][k], 8),
{
    let (a, b) = (s.take(i), s.skip(i + 1));
    assert forall|j: int| 0 <= j < a.len() implies (#[trigger] a[j]).len() == 64 by {
        assert(a[j] == s[j]);
    }
    polys_encode_in_turn(a, seq![s[i]], s[i]);
    polys_encode_in_turn(a + seq![s[i]], b, s[i]);
    assert(a + seq![s[i]] + b =~= s);
    lemma_polys_bytes_len(s);
    lemma_polys_bytes_len(a);
    scalar_at_its_place(s[i], k);
    let all = polys_bytes(s);
    assert(all.subrange(512 * i, 512 * i + 512) =~= scalars_bytes(s[i]));
    assert(all.subrange(512 * i + 8 * k, 512 * i + 8 * k + 8) =~= all.subrange(
        512 * i,
        512 * i + 512,
    ).subrange(8 * k, 8 * k + 8));
}

/// The parameters are encoded as eight words of four bytes: the length, the rows, the columns,
/// the commitment rows, and for each of the two decompositions the bits of its base and its
/// number of digits.
pub proof fn parameters_at_their_places(p: GreyhoundTranscriptParams)
    ensures
        params_bytes(p).len() == 32,
        params_bytes(p).subrange(0, 4) == le_bytes(p.n as int, 4),
        params_bytes(p).subrange(4, 8) == le_bytes(p.m as int, 4),
        params_bytes(p).subrange(8, 12) == le_bytes(p.r as int, 4),
        params_bytes(p).subrange(12, 16) == le_bytes(p.nrows as int, 4),
        params_bytes(p).subrange(16, 20) == le_bytes(p.b0 as int, 4),
        params_bytes(p).subrange(20, 24) == le_bytes(p.delta0 as int, 4),
        params_bytes(p).subrange(24, 28) == le_bytes(p.b1 as int, 4),
        params_bytes(p).subrange(28, 32) == le_bytes(p.delta as int, 4),
{
    lemma_le_bytes_len(p.n as int, 4);
    lemma_le_bytes_len(p.m as int, 4);
    lemma_le_bytes_len(p.r as int, 4);
    lemma_le_bytes_len(p.nrows as int, 4);
    lemma_le_bytes_len(p.b0 as int, 4);
    lemma_le_bytes_len(p.delta0 as int, 4);
    lemma_le_bytes_len(p.b1 as int, 4);
    lemma_le_bytes_len(p.delta as int, 4);
}

/// A statement is encoded as its parameters, its commitment, its point, its evaluation and the
/// prover's message, one after the other.
pub proof fn statement_parts_at_their_places(
    p: GreyhoundTranscriptParams,
    u: Seq<Rq>,
    x: int,
    y: Rq,
    v: Seq<Rq>,
)
    requires
        forall|j: int| 0 <= j < u.len() ==> (#[trigger] u[j]).len() == 64,
        forall|j: int| 0 <= j < v.len() ==> (#[trigger] v[j]).len() == 64,
        y.len() == 64,
    ensures
        ({
            let b = statement_bytes(p, u, x, y, v);
            let (m, n) = (512 * u.len() as int, 512 * v.len() as int);
            &&& b.len() == 552 + m + n
            &&& b.subrange(0, 32) == params_bytes(p)
            &&& b.subrange(32, 32 + m) == polys_bytes(u)
            &&& b.subrange(32 + m, 40 + m) == le_bytes(x, 8)
            &&& b.subrange(40 + m, 552 + m) == scalars_bytes(y)
            &&& b.subrange(552 + m, 552 + m + n) == polys_bytes(v)
        }),
{
    lemma_params_bytes_len(p);
    lemma_polys_bytes_len(u);
    lemma_polys_bytes_len(v);
    lemma_le_bytes_len(x, 8);
    lemma_scalars_bytes_len(y);
    let b = statement_bytes(p, u, x, y, v);
    let (m, n) = (512 * u.len() as int, 512 * v.len() as int);
    assert(b.subrange(0, 32) =~= params_bytes(p));
    assert(b.subrange(32, 32 + m) =~= polys_bytes(u));
    assert(b.subrange(32 + m, 40 + m) =~= le_bytes(x, 8));
    assert(b.subrange(40 + m, 552 + m) =~= scalars_bytes(y));
    assert(b.subrange(552 + m, 552 + m + n) =~= polys_bytes(v));
}

} // verus!
