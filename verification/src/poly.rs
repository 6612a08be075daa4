//! Ring elements with 64 stored coefficients, and the operations on single elements.
use vstd::prelude::*;

use crate::rq::{
    coeff, conv, lemma_coeff_stored, rq_add, rq_const, rq_mul, rq_scale, rq_zero, Rq, DEGREE,
};
use crate::sums::sum;
use crate::zq::{lemma_modq_add, lemma_modq_small, modq, q, Zq, MODULUS};

verus! {

/// An element of `Z_q[X] / (X^64 + 1)`, held by its coefficients from the constant term up.
#[derive(Clone, Copy, Debug)]
pub struct PolyRing {
    coeffs: [u64; 64],
}

impl View for PolyRing {
    type V = Rq;

    closed spec fn view(&self) -> Rq {
        Seq::new(64, |k: int| self.coeffs[k] as int)
    }
}

/// An element has 64 coefficients.
pub broadcast proof fn lemma_poly_len(p: PolyRing)
    ensures
        (#[trigger] p@).len() == 64,
{
}

/// Each coefficient is held in a word.
pub proof fn lemma_poly_encodable(p: PolyRing)
    ensures
        crate::bytes::is_encodable(p@),
{
    crate::bytes::lemma_pow256();
}

/// The ring elements that a sequence of `PolyRing` stands for.
pub open spec fn rqs(s: Seq<PolyRing>) -> Seq<Rq> {
    Seq::new(s.len(), |i: int| s[i]@)
}

/// The residues that a sequence of `Zq` stands for.
pub open spec fn zqs(s: Seq<Zq>) -> Seq<int> {
    Seq::new(s.len(), |i: int| s[i]@)
}

impl PolyRing {
    #[verifier::type_invariant]
    closed spec fn canonical(self) -> bool {
        forall|k: int| 0 <= k < 64 ==> #[trigger] self.coeffs[k] < MODULUS
    }

    /// The zero element.
    pub fn zero() -> (r: PolyRing)
        ensures
            r@ == rq_zero(),
            forall|k: int| 0 <= k < 64 ==> #[trigger] r@[k] == 0,
    {
        let r = PolyRing { coeffs: [0u64; 64] };
        assert(r@ =~= rq_zero());
        r
    }

    /// The constant polynomial `c`.
    pub fn constant(c: Zq) -> (r: PolyRing)
        ensures
            r@ == rq_const(c@),
            r@[0] == c@,
            forall|k: int| 0 < k < 64 ==> #[trigger] r@[k] == 0,
    {
        let mut coeffs: [u64; 64] = [0u64; 64];
        let v: u64 = c.value();
        coeffs[0] = v;
        let r = PolyRing { coeffs };
        proof {
            lemma_modq_small(v as int);
            lemma_modq_small(0);
            assert(r@ =~= rq_const(c@));
        }
        r
    }

    /// The element with the given coefficients, constant term first; `None` unless there are
    /// exactly 64 of them.
    pub fn from_slice(input: &[Zq]) -> (r: Option<PolyRing>)
        ensures
            r is Some == (input@.len() == 64),
            r matches Some(p) ==> p@ == zqs(input@),
            r matches Some(p) ==> forall|k: int|
                0 <= k < 64 ==> #[trigger] p@[k] == input@[k]@,
    {
        if input.len() != DEGREE {
            return None;
        }
        let mut coeffs: [u64; 64] = [0u64; 64];
        for k in 0..DEGREE
            invariant
                input@.len() == 64,
                forall|j: int| 0 <= j < 64 ==> #[trigger] coeffs[j] < MODULUS,
                forall|j: int| 0 <= j < k ==> #[trigger] coeffs[j] == input@[j]@,
        {
            let v: u64 = input[k].value();
            coeffs[k] = v;
        }
        let r = PolyRing { coeffs };
        assert(r@ =~= zqs(input@));
        Some(r)
    }

    /// The coefficient of `X^k`.
    pub fn coefficient(&self, k: usize) -> (r: Zq)
        requires
            k < 64,
        ensures
            r@ == self@[k as int],
    {
        proof {
            use_type_invariant(self);
        }
        Zq::from_reduced(self.coeffs[k])
    }
}

/// Addition in the ring.
pub fn add_poly(a: &PolyRing, b: &PolyRing) -> (r: PolyRing)
    ensures
        r@ == rq_add(a@, b@),
        forall|k: int| 0 <= k < 64 ==> #[trigger] r@[k] == (a@[k] + b@[k]) % q(),
{
    let mut coeffs: [u64; 64] = [0u64; 64];
    for k in 0..DEGREE
        invariant
            forall|j: int| 0 <= j < 64 ==> #[trigger] coeffs[j] < MODULUS,
            forall|j: int| 0 <= j < k ==> #[trigger] coeffs[j] == modq(a@[j] + b@[j]),
    {
        let v: u64 = a.coefficient(k).plus(b.coefficient(k)).value();
        coeffs[k] = v;
    }
    let r = PolyRing { coeffs };
    assert(r@ =~= rq_add(a@, b@));
    r
}

/// Multiplication of every coefficient by a scalar.
pub fn scale_poly_host(a: &PolyRing, scalar: Zq) -> (r: PolyRing)
    ensures
        r@ == rq_scale(a@, scalar@),
        forall|k: int| 0 <= k < 64 ==> #[trigger] r@[k] == (a@[k] * scalar@) % q(),
{
    let mut coeffs: [u64; 64] = [0u64; 64];
    for k in 0..DEGREE
        invariant
            forall|j: int| 0 <= j < 64 ==> #[trigger] coeffs[j] < MODULUS,
            forall|j: int| 0 <= j < k ==> #[trigger] coeffs[j] == modq(a@[j] * scalar@),
    {
        let v: u64 = a.coefficient(k).times(scalar).value();
        coeffs[k] = v;
    }
    let r = PolyRing { coeffs };
    assert(r@ =~= rq_scale(a@, scalar@));
    r
}

/// The coefficient of `X^k` in a product.
fn mul_coefficient(a: &PolyRing, b: &PolyRing, k: usize) -> (r: Zq)
    requires
        k < 64,
    ensures
        r@ == modq(conv(a@, b@, k as int)),
{
    let ghost f = |i: int| coeff(a@, i) * coeff(b@, k as int - i);
    let mut acc = Zq::zero();
    proof {
        lemma_modq_small(0);
    }
    for i in 0..DEGREE
        invariant
            k < 64,
            f == (|i: int| coeff(a@, i) * coeff(b@, k as int - i)),
            acc@ == modq(sum(f, 0, i as int)),
    {
        proof {
            lemma_coeff_stored(a@, i as int);
            lemma_coeff_stored(b@, k as int - i as int);
        }
        let ghost before = sum(f, 0, i as int);
        if i <= k {
            let t = a.coefficient(i).times(b.coefficient(k - i));
            acc = acc.plus(t);
            proof {
                let x = a@[i as int] * b@[k as int - i as int];
                lemma_modq_add(before, x);
            }
        } else {
            let t = a.coefficient(i).times(b.coefficient(k + DEGREE - i));
            acc = acc.minus(t);
            proof {
                let (u, v) = (a@[i as int], b@[k as int + 64 - i as int]);
                let x = u * v;
                assert(u * (-v) == -x) by (nonlinear_arith)
                    requires
                        x == u * v,
                ;
                lemma_modq_add(before, x);
                lemma_modq_add(modq(before), x);
            }
        }
    }
    acc
}

/// Multiplication modulo `X^64 + 1`.
pub fn mul_poly(a: &PolyRing, b: &PolyRing) -> (r: PolyRing)
    ensures
        r@ == rq_mul(a@, b@),
{
    let mut coeffs: [u64; 64] = [0u64; 64];
    for k in 0..DEGREE
        invariant
            forall|j: int| 0 <= j < 64 ==> #[trigger] coeffs[j] < MODULUS,
            forall|j: int| 0 <= j < k ==> #[trigger] coeffs[j] == modq(conv(a@, b@, j)),
    {
        let v: u64 = mul_coefficient(a, b, k).value();
        coeffs[k] = v;
    }
    let r = PolyRing { coeffs };
    assert(r@ =~= rq_mul(a@, b@));
    r
}

/// Equality of two elements.
pub fn poly_equal(a: &PolyRing, b: &PolyRing) -> (r: bool)
    ensures
        r == (a@ == b@),
{
    for k in 0..DEGREE
        invariant
            forall|j: int| 0 <= j < k ==> #[trigger] a.coeffs[j] == b.coeffs[j],
    {
        if a.coeffs[k] != b.coeffs[k] {
            proof {
                assert(a@[k as int] != b@[k as int]);
            }
            return false;
        }
    }
    assert(a@ =~= b@);
    true
}

/// Equality of two vectors: the same length and the same elements.
pub fn poly_vecs_equal(a: &[PolyRing], b: &[PolyRing]) -> (r: bool)
    ensures
        r == (rqs(a@) == rqs(b@)),
        r == (a@.len() == b@.len() && forall|i: int|
            0 <= i < a@.len() ==> (#[trigger] a@[i])@ == b@[i]@),
{
    if a.len() != b.len() {
        proof {
            assert(rqs(a@).len() != rqs(b@).len());
        }
        return false;
    }
    for i in 0..a.len()
        invariant
            a@.len() == b@.len(),
            forall|j: int| 0 <= j < i ==> #[trigger] a@[j]@ == b@[j]@,
    {
        if !poly_equal(&a[i], &b[i]) {
            proof {
                assert(rqs(a@)[i as int] != rqs(b@)[i as int]);
            }
            return false;
        }
    }
    assert(rqs(a@) =~= rqs(b@));
    true
}

/// The constant term.
pub fn constant_term(y: &PolyRing) -> (r: Zq)
    ensures
        r@ == y@[0],
{
    y.coefficient(0)
}

/// Adds one to the constant term.
pub fn tamper_poly(poly: &mut PolyRing)
    ensures
        final(poly)@ == old(poly)@.update(0, modq(old(poly)@[0] + 1)),
        final(poly)@[0] == (old(poly)@[0] + 1) % q(),
        forall|k: int| 0 < k < 64 ==> #[trigger] final(poly)@[k] == old(poly)@[k],
{
    let c: u64 = poly.coefficient(0).plus(Zq::one()).value();
    proof {
        use_type_invariant(&*poly);
    }
    let mut coeffs: [u64; 64] = poly.coeffs;
    coeffs[0] = c;
    *poly = PolyRing { coeffs };
    assert(poly@ =~= old(poly)@.update(0, modq(old(poly)@[0] + 1)));
}

} // verus!
