//! Scalars: the integers modulo the BabyKoala modulus.
use vstd::prelude::*;

verus! {

/// The modulus `q`: the product of the BabyBear prime `2^31 - 2^27 + 1` and the KoalaBear
/// prime `2^31 - 2^24 + 1`.
pub const MODULUS: u64 = 0x3b88_0000_f700_0001;

/// The modulus as a mathematical integer.
pub open spec fn q() -> int {
    MODULUS as int
}

/// The residue of `a` modulo `q`.
pub open spec fn modq(a: int) -> int {
    a % q()
}

/// `x` raised to the power `e` modulo `q`.
pub open spec fn zq_pow(x: int, e: nat) -> int
    decreases e,
{
    if e == 0 {
        1
    } else {
        modq(zq_pow(x, (e - 1) as nat) * x)
    }
}

/// `b` is a multiplicative inverse of `a` modulo `q`.
pub open spec fn is_inverse(a: int, b: int) -> bool {
    modq(a * b) == 1
}

/// `a` has a multiplicative inverse modulo `q`.
pub open spec fn is_unit(a: int) -> bool {
    exists|b: int| #[trigger] is_inverse(a, b)
}

/// An integer modulo `q`, held by its representative in `0..q`.
#[derive(Clone, Copy, Debug)]
pub struct Zq {
    value: u64,
}

impl View for Zq {
    type V = int;

    closed spec fn view(&self) -> int {
        self.value as int
    }
}

impl Zq {
    #[verifier::type_invariant]
    closed spec fn canonical(self) -> bool {
        self.value < MODULUS
    }

    /// The scalar zero.
    pub fn zero() -> (r: Zq)
        ensures
            r@ == 0,
    {
        Zq { value: 0 }
    }

    /// The scalar one.
    pub fn one() -> (r: Zq)
        ensures
            r@ == 1,
    {
        Zq { value: 1 }
    }

    /// The scalar with representative `value`; every 32-bit integer is below `q`.
    pub fn from(value: u32) -> (r: Zq)
        ensures
            r@ == value,
    {
        Zq { value: value as u64 }
    }

    /// The residue of a 64-bit integer.
    pub fn from_u64(value: u64) -> (r: Zq)
        ensures
            r@ == modq(value as int),
    {
        Zq { value: value % MODULUS }
    }

    /// The scalar with a representative that is already in `0..q`.
    pub(crate) fn from_reduced(value: u64) -> (r: Zq)
        requires
            value < MODULUS,
        ensures
            r@ == value,
    {
        Zq { value }
    }

    /// The representative in `0..q`.
    pub fn value(&self) -> (r: u64)
        ensures
            r == self@,
            r < MODULUS,
    {
        proof {
            use_type_invariant(self);
        }
        self.value
    }

    /// Addition modulo `q`.
    pub fn plus(self, other: Zq) -> (r: Zq)
        ensures
            r@ == modq(self@ + other@),
            0 <= r@ < q(),
    {
        proof {
            use_type_invariant(&self);
            use_type_invariant(&other);
        }
        let s: u64 = self.value + other.value;
        Zq { value: s % MODULUS }
    }

    /// Subtraction modulo `q`.
    pub fn minus(self, other: Zq) -> (r: Zq)
        ensures
            r@ == modq(self@ - other@),
            0 <= r@ < q(),
    {
        proof {
            use_type_invariant(&self);
            use_type_invariant(&other);
        }
        proof {
            vstd::arithmetic::div_mod::lemma_mod_add_multiples_vanish(self@ - other@, q());
        }
        let s: u64 = self.value + (MODULUS - other.value);
        Zq { value: s % MODULUS }
    }

    /// Multiplication modulo `q`.
    pub fn times(self, other: Zq) -> (r: Zq)
        ensures
            r@ == modq(self@ * other@),
            0 <= r@ < q(),
    {
        proof {
            use_type_invariant(&self);
            use_type_invariant(&other);
            let a = self.value as int;
            let b = other.value as int;
            assert(0 <= a * b < 0x1_0000_0000_0000_0000 * 0x1_0000_0000_0000_0000)
                by (nonlinear_arith)
                requires
                    0 <= a < 0x1_0000_0000_0000_0000,
                    0 <= b < 0x1_0000_0000_0000_0000,
            ;
        }
        let p: u128 = (self.value as u128) * (other.value as u128);
        Zq { value: (p % (MODULUS as u128)) as u64 }
    }

    /// The multiplicative inverse, if there is one; `q` is composite, so not every nonzero
    /// scalar has one.
    pub fn try_inv(&self) -> (r: Option<Zq>)
        ensures
            r matches Some(b) ==> is_inverse(self@, b@) && 0 <= b@ < q(),
            r is None ==> !is_unit(self@),
            r matches Some(b) ==> (self@ * b@) % q() == 1,
            r is None ==> forall|b: int| (#[trigger] (self@ * b)) % q() != 1,
    {
        proof {
            use_type_invariant(self);
        }
        let a: u64 = self.value;
        // Euclid's algorithm on `(q, a)`: each remainder is kept as a multiple of `a` modulo `q`,
        // and `a` and `q` stay integer combinations of the two current remainders.
        let mut r0: u64 = MODULUS;
        let mut r1: u64 = a;
        let mut t0 = Zq::zero();
        let mut t1 = Zq::one();
        let ghost mut ua: int = 0;
        let ghost mut va: int = 1;
        let ghost mut uq: int = 1;
        let ghost mut vq: int = 0;
        proof {
            vstd::arithmetic::div_mod::lemma_mod_self_0(q());
            lemma_modq_range(0);
            lemma_modq_small(0);
        }
        while r1 != 0
            invariant
                0 < r0 <= MODULUS,
                r1 < r0,
                a == self@,
                modq(r0 as int) == modq(t0@ * a),
                modq(r1 as int) == modq(t1@ * a),
                a == ua * r0 + va * r1,
                MODULUS == uq * r0 + vq * r1,
            decreases r1,
        {
            let k: u64 = r0 / r1;
            let r2: u64 = r0 % r1;
            let t2 = t0.minus(Zq::from_u64(k).times(t1));
            proof {
                let (r0i, r1i, r2i, ki) = (r0 as int, r1 as int, r2 as int, k as int);
                vstd::arithmetic::div_mod::lemma_fundamental_div_mod(r0i, r1i);
                assert(r0i == r1i * ki + r2i);
                assert(r2i == r0i - ki * r1i) by (nonlinear_arith)
                    requires
                        r0i == r1i * ki + r2i,
                ;
                let ai = a as int;
                // modq(t2 * a) == modq((t0 - k * t1) * a) == modq(r0 - k * r1)
                lemma_modq_mul(ki, t1@);
                lemma_modq_add(t0@, ki * t1@);
                assert(t2@ == modq(t0@ - ki * t1@));
                lemma_modq_mul(t0@ - ki * t1@, ai);
                assert((t0@ - ki * t1@) * ai == t0@ * ai - ki * (t1@ * ai)) by (nonlinear_arith);
                lemma_modq_mul(ki, t1@ * ai);
                lemma_modq_mul(ki, r1i);
                lemma_modq_add(t0@ * ai, ki * (t1@ * ai));
                lemma_modq_add(r0i, ki * r1i);
                lemma_modq_add(modq(t0@ * ai), modq(ki * (t1@ * ai)));
                lemma_modq_add(modq(r0i), modq(ki * r1i));
                lemma_modq_add(modq(t0@ * ai), ki * (t1@ * ai));
                lemma_modq_add(modq(r0i), ki * r1i);
                assert(modq(t2@ * ai) == modq(r2i));
                let (ua0, va0, uq0, vq0) = (ua, va, uq, vq);
                ua = ua0 * ki + va0;
                va = ua0;
                uq = uq0 * ki + vq0;
                vq = uq0;
                assert(ua * r1i + va * r2i == ua0 * r0i + va0 * r1i) by (nonlinear_arith)
                    requires
                        r0i == r1i * ki + r2i,
                        ua == ua0 * ki + va0,
                        va == ua0,
                ;
                assert(uq * r1i + vq * r2i == uq0 * r0i + vq0 * r1i) by (nonlinear_arith)
                    requires
                        r0i == r1i * ki + r2i,
                        uq == uq0 * ki + vq0,
                        vq == uq0,
                ;
            }
            r0 = r1;
            r1 = r2;
            t0 = t1;
            t1 = t2;
        }
        if r0 == 1 {
            proof {
                use_type_invariant(&t0);
                lemma_modq_small(1);
                assert(t0@ * (a as int) == (a as int) * t0@) by (nonlinear_arith);
            }
            Some(t0)
        } else {
            proof {
                let (g, ai) = (r0 as int, a as int);
                assert(ai == ua * g);
                assert(q() == uq * g);
                assert forall|b: int| !(#[trigger] is_inverse(ai, b)) by {
                    if is_inverse(ai, b) {
                        let t = (ai * b) / q();
                        vstd::arithmetic::div_mod::lemma_fundamental_div_mod(ai * b, q());
                        assert(ai * b == q() * t + 1);
                        let m = ua * b - uq * t;
                        assert(g * m == 1) by (nonlinear_arith)
                            requires
                                ai * b == q() * t + 1,
                                ai == ua * g,
                                q() == uq * g,
                                m == ua * b - uq * t,
                        ;
                        assert(false) by (nonlinear_arith)
                            requires
                                g * m == 1,
                                g > 1,
                        ;
                    }
                }
                assert forall|b: int| (#[trigger] (self@ * b)) % q() != 1 by {
                    assert(!is_inverse(ai, b));
                }
            }
            None
        }
    }
}

/// A residue lies in `0..q`.
pub proof fn lemma_modq_range(a: int)
    ensures
        0 <= modq(a) < q(),
        modq(modq(a)) == modq(a),
{
    vstd::arithmetic::div_mod::lemma_mod_twice(a, q());
}

/// A value in `0..q` is its own residue.
pub proof fn lemma_modq_small(a: int)
    requires
        0 <= a < q(),
    ensures
        modq(a) == a,
{
}

/// Residues may be taken before or after an addition or a subtraction.
pub proof fn lemma_modq_add(a: int, b: int)
    ensures
        modq(modq(a) + b) == modq(a + b),
        modq(a + modq(b)) == modq(a + b),
        modq(modq(a) + modq(b)) == modq(a + b),
        modq(modq(a) - b) == modq(a - b),
        modq(a - modq(b)) == modq(a - b),
{
    vstd::arithmetic::div_mod::lemma_add_mod_noop(a, b, q());
    vstd::arithmetic::div_mod::lemma_add_mod_noop(modq(a), b, q());
    vstd::arithmetic::div_mod::lemma_add_mod_noop(a, modq(b), q());
    vstd::arithmetic::div_mod::lemma_sub_mod_noop(a, b, q());
    vstd::arithmetic::div_mod::lemma_sub_mod_noop(modq(a), b, q());
    vstd::arithmetic::div_mod::lemma_sub_mod_noop(a, modq(b), q());
}

/// Residues may be taken before or after a multiplication.
pub proof fn lemma_modq_mul(a: int, b: int)
    ensures
        modq(modq(a) * b) == modq(a * b),
        modq(a * modq(b)) == modq(a * b),
        modq(modq(a) * modq(b)) == modq(a * b),
{
    vstd::arithmetic::div_mod::lemma_mul_mod_noop_left(a, b, q());
    vstd::arithmetic::div_mod::lemma_mul_mod_noop_right(a, b, q());
    vstd::arithmetic::div_mod::lemma_mul_mod_noop(a, b, q());
}

/// A scalar fits in eight bytes.
pub proof fn lemma_scalar_word(a: Zq)
    ensures
        0 <= a@ < 0x1_0000_0000_0000_0000,
{
}

/// Equality of scalars.
pub fn zq_equal(a: &Zq, b: &Zq) -> (r: bool)
    ensures
        r == (a@ == b@),
{
    a.value == b.value
}

} // verus!
