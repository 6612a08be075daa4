//! Little-endian byte encodings of what goes into a transcript.
use vstd::prelude::*;

use crate::poly::{lemma_poly_len, rqs, PolyRing};
use crate::rq::{Rq, DEGREE};
use crate::zq::Zq;

verus! {

/// The `n` low bytes of `v`, least significant first.
pub open spec fn le_bytes(v: int, n: nat) -> Seq<u8>
    decreases n,
{
    if n == 0 {
        seq![]
    } else {
        seq![(v % 256) as u8] + le_bytes(v / 256, (n - 1) as nat)
    }
}

/// The encoding of a sequence of scalars: eight bytes each.
pub open spec fn scalars_bytes(s: Seq<int>) -> Seq<u8>
    decreases s.len(),
{
    if s.len() == 0 {
        seq![]
    } else {
        scalars_bytes(s.drop_last()) + le_bytes(s.last(), 8)
    }
}

/// The encoding of a sequence of ring elements: the scalars of each, constant term first.
pub open spec fn polys_bytes(s: Seq<Rq>) -> Seq<u8>
    decreases s.len(),
{
    if s.len() == 0 {
        seq![]
    } else {
        polys_bytes(s.drop_last()) + scalars_bytes(s.last())
    }
}

/// `256^n`.
pub open spec fn pow256(n: nat) -> int
    decreases n,
{
    if n == 0 {
        1
    } else {
        256 * pow256((n - 1) as nat)
    }
}

/// 64 coefficients of which each fits in eight bytes.
pub open spec fn is_encodable(a: Rq) -> bool {
    a.len() == 64 && forall|k: int| 0 <= k < 64 ==> 0 <= #[trigger] a[k] < pow256(8)
}

pub proof fn lemma_le_bytes_len(v: int, n: nat)
    ensures
        le_bytes(v, n).len() == n,
    decreases n,
{
    if n > 0 {
        lemma_le_bytes_len(v / 256, (n - 1) as nat);
    }
}

pub proof fn lemma_scalars_bytes_len(s: Seq<int>)
    ensures
        scalars_bytes(s).len() == 8 * s.len(),
    decreases s.len(),
{
    if s.len() > 0 {
        lemma_scalars_bytes_len(s.drop_last());
        lemma_le_bytes_len(s.last(), 8);
    }
}

pub proof fn lemma_polys_bytes_len(s: Seq<Rq>)
    requires
        forall|i: int| 0 <= i < s.len() ==> (#[trigger] s[i]).len() == 64,
    ensures
        polys_bytes(s).len() == 512 * s.len(),
    decreases s.len(),
{
    if s.len() > 0 {
        lemma_polys_bytes_len(s.drop_last());
        lemma_scalars_bytes_len(s.last());
    }
}

/// The encoding of ring elements takes 512 bytes for each.
pub proof fn lemma_rqs_bytes_len(s: Seq<PolyRing>)
    ensures
        polys_bytes(rqs(s)).len() == 512 * s.len(),
{
    assert forall|i: int| 0 <= i < rqs(s).len() implies (#[trigger] rqs(s)[i]).len() == 64 by {
        lemma_poly_len(s[i]);
    }
    lemma_polys_bytes_len(rqs(s));
}

/// Integers below `256^n` have different encodings in `n` bytes.
pub proof fn lemma_le_bytes_injective(v: int, w: int, n: nat)
    requires
        0 <= v < pow256(n),
        0 <= w < pow256(n),
        le_bytes(v, n) == le_bytes(w, n),
    ensures
        v == w,
    decreases n,
{
    if n > 0 {
        let (rv, rw) = (le_bytes(v / 256, (n - 1) as nat), le_bytes(w / 256, (n - 1) as nat));
        assert(le_bytes(v, n)[0] == (v % 256) as u8);
        assert(le_bytes(w, n)[0] == (w % 256) as u8);
        assert(le_bytes(v, n).subrange(1, le_bytes(v, n).len() as int) =~= rv);
        assert(le_bytes(w, n).subrange(1, le_bytes(w, n).len() as int) =~= rw);
        lemma_le_bytes_injective(v / 256, w / 256, (n - 1) as nat);
    }
}

pub proof fn lemma_pow256()
    ensures
        pow256(4) == 0x1_0000_0000,
        pow256(8) == 0x1_0000_0000_0000_0000,
{
    reveal_with_fuel(pow256, 9);
}

/// Equal encodings of equally long sequences of words come from equal sequences.
pub proof fn lemma_scalars_bytes_injective(s: Seq<int>, t: Seq<int>)
    requires
        s.len() == t.len(),
        forall|i: int| 0 <= i < s.len() ==> 0 <= #[trigger] s[i] < pow256(8),
        forall|i: int| 0 <= i < t.len() ==> 0 <= #[trigger] t[i] < pow256(8),
        scalars_bytes(s) == scalars_bytes(t),
    ensures
        s == t,
    decreases s.len(),
{
    if s.len() > 0 {
        let n = 8 * (s.len() - 1);
        lemma_scalars_bytes_len(s.drop_last());
        lemma_scalars_bytes_len(t.drop_last());
        lemma_le_bytes_len(s.last(), 8);
        lemma_le_bytes_len(t.last(), 8);
        assert(scalars_bytes(s).subrange(0, n) =~= scalars_bytes(s.drop_last()));
        assert(scalars_bytes(t).subrange(0, n) =~= scalars_bytes(t.drop_last()));
        assert(scalars_bytes(s).subrange(n, n + 8) =~= le_bytes(s.last(), 8));
        assert(scalars_bytes(t).subrange(n, n + 8) =~= le_bytes(t.last(), 8));
        lemma_scalars_bytes_injective(s.drop_last(), t.drop_last());
        lemma_pow256();
        lemma_le_bytes_injective(s.last(), t.last(), 8);
        assert(s =~= s.drop_last().push(s.last()));
        assert(t =~= t.drop_last().push(t.last()));
    }
}

/// Equal encodings of equally long sequences of ring elements come from equal sequences.
pub proof fn lemma_polys_bytes_injective(s: Seq<Rq>, t: Seq<Rq>)
    requires
        s.len() == t.len(),
        forall|i: int| 0 <= i < s.len() ==> is_encodable(#[trigger] s[i]),
        forall|i: int| 0 <= i < t.len() ==> is_encodable(#[trigger] t[i]),
        polys_bytes(s) == polys_bytes(t),
    ensures
        s == t,
    decreases s.len(),
{
    if s.len() > 0 {
        let n = 512 * (s.len() - 1);
        lemma_polys_bytes_len(s.drop_last());
        lemma_polys_bytes_len(t.drop_last());
        lemma_scalars_bytes_len(s.last());
        lemma_scalars_bytes_len(t.last());
        assert(polys_bytes(s).subrange(0, n) =~= polys_bytes(s.drop_last()));
        assert(polys_bytes(t).subrange(0, n) =~= polys_bytes(t.drop_last()));
        assert(polys_bytes(s).subrange(n, n + 512) =~= scalars_bytes(s.last()));
        assert(polys_bytes(t).subrange(n, n + 512) =~= scalars_bytes(t.last()));
        lemma_polys_bytes_injective(s.drop_last(), t.drop_last());
        lemma_scalars_bytes_injective(s.last(), t.last());
        assert(s =~= s.drop_last().push(s.last()));
        assert(t =~= t.drop_last().push(t.last()));
    }
}

/// Appends the `n` low bytes of `value`.
fn push_le(out: &mut Vec<u8>, value: u64, n: usize)
    ensures
        final(out)@ == old(out)@ + le_bytes(value as int, n as nat),
{
    let mut v: u64 = value;
    let ghost start = out@;
    assert(start + le_bytes(value as int, n as nat) =~= out@ + le_bytes(v as int, (n - 0) as nat));
    for i in 0..n
        invariant
            start + le_bytes(value as int, n as nat) == out@ + le_bytes(v as int, (n - i) as nat),
    {
        let b: u8 = (v % 256) as u8;
        let ghost before = out@;
        let ghost rest = le_bytes(v as int / 256, (n - i - 1) as nat);
        out.push(b);
        v = v / 256;
        assert(before + (seq![b] + rest) =~= out@ + rest);
    }
    assert(out@ + le_bytes(v as int, 0) =~= out@);
}

/// The four bytes of a 32-bit word.
pub fn u32_to_bytes(word: u32) -> (r: Vec<u8>)
    ensures
        r@ == le_bytes(word as int, 4),
{
    let mut out: Vec<u8> = Vec::new();
    push_le(&mut out, word as u64, 4);
    assert(Seq::<u8>::empty() + le_bytes(word as int, 4) =~= le_bytes(word as int, 4));
    out
}

/// The eight bytes of a scalar.
pub fn zq_to_bytes(scalar: &Zq) -> (r: Vec<u8>)
    ensures
        r@ == le_bytes(scalar@, 8),
{
    let mut out: Vec<u8> = Vec::new();
    push_le(&mut out, scalar.value(), 8);
    assert(Seq::<u8>::empty() + le_bytes(scalar@, 8) =~= le_bytes(scalar@, 8));
    out
}

/// The bytes of a sequence of scalars.
pub fn zqs_to_bytes(scalars: &[Zq]) -> (r: Vec<u8>)
    ensures
        r@ == scalars_bytes(crate::poly::zqs(scalars@)),
{
    let ghost all = crate::poly::zqs(scalars@);
    let mut out: Vec<u8> = Vec::new();
    assert(all.take(0) =~= seq![]);
    for i in 0..scalars.len()
        invariant
            all == crate::poly::zqs(scalars@),
            out@ == scalars_bytes(all.take(i as int)),
    {
        push_le(&mut out, scalars[i].value(), 8);
        proof {
            let t = all.take(i + 1);
            assert(t.drop_last() =~= all.take(i as int));
            assert(t.last() == scalars@[i as int]@);
        }
    }
    assert(all.take(all.len() as int) =~= all);
    out
}

/// Appends the bytes of a ring element.
fn push_poly(out: &mut Vec<u8>, p: &PolyRing)
    ensures
        final(out)@ == old(out)@ + scalars_bytes(p@),
{
    let ghost start = out@;
    proof {
        lemma_poly_len(*p);
    }
    assert(p@.take(0) =~= seq![]);
    assert(start + scalars_bytes(p@.take(0)) =~= start);
    for k in 0..DEGREE
        invariant
            p@.len() == 64,
            out@ == start + scalars_bytes(p@.take(k as int)),
    {
        push_le(out, p.coefficient(k).value(), 8);
        proof {
            let t = p@.take(k + 1);
            assert(t.drop_last() =~= p@.take(k as int));
            assert(t.last() == p@[k as int]);
            assert(start + scalars_bytes(t) =~= start + scalars_bytes(p@.take(k as int))
                + le_bytes(p@[k as int], 8));
        }
    }
    assert(p@.take(64) =~= p@);
}

/// The bytes of a ring element.
pub fn poly_to_bytes(y_ring: &PolyRing) -> (r: Vec<u8>)
    ensures
        r@ == scalars_bytes(y_ring@),
{
    let mut out: Vec<u8> = Vec::new();
    push_poly(&mut out, y_ring);
    assert(Seq::<u8>::empty() + scalars_bytes(y_ring@) =~= scalars_bytes(y_ring@));
    out
}

/// The bytes of a vector of ring elements.
pub fn to_bytes(polys: &[PolyRing]) -> (r: Vec<u8>)
    ensures
        r@ == polys_bytes(rqs(polys@)),
{
    let ghost all = rqs(polys@);
    let mut out: Vec<u8> = Vec::new();
    assert(all.take(0) =~= seq![]);
    for i in 0..polys.len()
        invariant
            all == rqs(polys@),
            out@ == polys_bytes(all.take(i as int)),
    {
        push_poly(&mut out, &polys[i]);
        proof {
            let t = all.take(i + 1);
            assert(t.drop_last() =~= all.take(i as int));
            assert(t.last() == polys@[i as int]@);
        }
    }
    assert(all.take(all.len() as int) =~= all);
    out
}

} // verus!
