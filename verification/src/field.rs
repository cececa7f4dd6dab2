//! Elements of the BLS12-381 scalar field, held as four canonical
//! little-endian 64-bit limbs. Arithmetic is delegated to `ark_ff`.
use ark_bls12_381::Fr;
use ark_ff::{BigInt, BigInteger, Field, PrimeField};
use vstd::arithmetic::div_mod::{
    lemma_add_mod_noop, lemma_fundamental_div_mod_converse, lemma_mod_bound, lemma_mod_twice,
    lemma_small_mod,
};
use vstd::prelude::*;

verus! {

/// The order of the BLS12-381 scalar field.
pub open spec fn modulus() -> nat {
    52435875175126190479447740508185965837690552500527637822603658699938581184513nat
}

/// Two to the 64.
pub open spec fn limb_base() -> nat {
    0x1_0000_0000_0000_0000nat
}

/// The integer encoded by four little-endian 64-bit limbs.
pub open spec fn limbs_value(l: [u64; 4]) -> nat {
    l[0] as nat + limb_base() * (l[1] as nat + limb_base() * (l[2] as nat + limb_base()
        * l[3] as nat))
}

/// The integer encoded by a little-endian byte string.
pub open spec fn bytes_le_value(s: Seq<u8>) -> nat
    decreases s.len(),
{
    if s.len() == 0 {
        0
    } else {
        s[0] as nat + 256 * bytes_le_value(s.drop_first())
    }
}

/// The `n` little-endian bytes of `v` (the low `8 n` bits).
pub open spec fn le_bytes(v: nat, n: nat) -> Seq<u8>
    decreases n,
{
    if n == 0 {
        Seq::empty()
    } else {
        seq![(v % 256) as u8] + le_bytes(v / 256, (n - 1) as nat)
    }
}

/// The number of binary digits of `n` (zero has none).
pub open spec fn bit_length(n: nat) -> nat
    decreases n,
{
    if n == 0 {
        0
    } else {
        1 + bit_length(n / 2)
    }
}

/// Field addition on values.
pub open spec fn fadd(a: nat, b: nat) -> nat {
    (a + b) % modulus()
}

/// Field multiplication on values.
pub open spec fn fmul(a: nat, b: nat) -> nat {
    (a * b) % modulus()
}

/// Field subtraction on values.
pub open spec fn fsub(a: nat, b: nat) -> nat {
    (a + (modulus() - b % modulus())) as nat % modulus()
}

/// `a` raised to the power `n` in the field.
pub open spec fn fpow(a: nat, n: nat) -> nat
    decreases n,
{
    if n == 0 {
        1
    } else {
        fmul(fpow(a, (n - 1) as nat), a)
    }
}

/// The values of a sequence of field elements.
pub open spec fn values(s: Seq<Scalar>) -> Seq<nat> {
    s.map_values(|x: Scalar| x@)
}

/// A field element in canonical form: the value of its limbs is below the modulus.
#[derive(Clone, Copy, Debug)]
pub struct Scalar {
    limbs: [u64; 4],
}

impl Scalar {
    #[verifier::type_invariant]
    pub open spec fn canonical(self) -> bool {
        self@ < modulus()
    }
}

impl View for Scalar {
    type V = nat;

    closed spec fn view(&self) -> nat {
        limbs_value(self.limbs)
    }
}

/// `x` and `y` leave the same remainder modulo the field order.
pub open spec fn congruent(x: int, y: int) -> bool {
    x % (modulus() as int) == y % (modulus() as int)
}

/// Each field operation is congruent to the integer operation it reduces.
pub(crate) proof fn lemma_ops_congruent(a: nat, b: nat)
    ensures
        congruent(fadd(a, b) as int, a as int + b as int),
        congruent(fmul(a, b) as int, a as int * b as int),
        congruent(fsub(a, b) as int, a as int - b as int),
        fadd(a, b) < modulus(),
        fmul(a, b) < modulus(),
        fsub(a, b) < modulus(),
{
    let p = modulus() as int;
    let (ai, bi) = (a as int, b as int);
    lemma_mod_twice(ai + bi, p);
    lemma_mod_twice(ai * bi, p);
    lemma_mod_bound(ai + bi, p);
    lemma_mod_bound(ai * bi, p);
    lemma_mod_bound(bi, p);
    let s = ai + (p - bi % p);
    lemma_mod_bound(s, p);
    lemma_mod_twice(s, p);
    vstd::arithmetic::div_mod::lemma_sub_mod_noop_right(ai + p, bi, p);
    vstd::arithmetic::div_mod::lemma_mod_multiples_vanish(1, ai - bi, p);
    assert(ai + (p - bi % p) == (ai + p) - bi % p);
    assert(p * 1 + (ai - bi) == (ai + p) - bi);
}

/// Congruence is kept by sums, differences and products.
pub(crate) proof fn lemma_congruent_ops(x: int, y: int, x2: int, y2: int)
    requires
        congruent(x, x2),
        congruent(y, y2),
    ensures
        congruent(x + y, x2 + y2),
        congruent(x - y, x2 - y2),
        congruent(x * y, x2 * y2),
{
    let p = modulus() as int;
    lemma_add_mod_noop(x, y, p);
    lemma_add_mod_noop(x2, y2, p);
    vstd::arithmetic::div_mod::lemma_sub_mod_noop(x, y, p);
    vstd::arithmetic::div_mod::lemma_sub_mod_noop(x2, y2, p);
    vstd::arithmetic::div_mod::lemma_mul_mod_noop(x, y, p);
    vstd::arithmetic::div_mod::lemma_mul_mod_noop(x2, y2, p);
}

/// Two field values that are congruent are equal.
pub(crate) proof fn lemma_congruent_values(x: nat, y: nat)
    requires
        congruent(x as int, y as int),
        x < modulus(),
        y < modulus(),
    ensures
        x == y,
{
    lemma_small_mod(x, modulus());
    lemma_small_mod(y, modulus());
}

/// Field addition is associative.
pub(crate) proof fn lemma_fadd_assoc(a: nat, b: nat, c: nat)
    ensures
        fadd(fadd(a, b), c) == fadd(a, fadd(b, c)),
{
    let p = modulus() as int;
    let (ai, bi, ci) = (a as int, b as int, c as int);
    lemma_mod_twice(ci, p);
    lemma_mod_twice(ai, p);
    lemma_add_mod_noop(ai + bi, ci, p);
    lemma_add_mod_noop(ai, bi + ci, p);
    assert(((ai + bi) % p + ci % p) % p == ((ai + bi) + ci) % p);
    assert((ai % p + (bi + ci) % p) % p == (ai + (bi + ci)) % p);
    lemma_add_mod_noop((ai + bi) % p, ci, p);
    lemma_add_mod_noop(ai, (bi + ci) % p, p);
    lemma_mod_twice(ai + bi, p);
    lemma_mod_twice(bi + ci, p);
}

/// Zero is the neutral element of field addition on field values.
pub(crate) proof fn lemma_fadd_zero(a: nat)
    requires
        a < modulus(),
    ensures
        fadd(a, 0) == a,
        fadd(0, a) == a,
{
    lemma_small_mod(a, modulus());
}

/// Adding the difference of two field values to the first gives the second.
pub(crate) proof fn lemma_fadd_fsub_cancel(lo: nat, hi: nat)
    requires
        lo < modulus(),
        hi < modulus(),
    ensures
        fadd(lo, fsub(hi, lo)) == hi,
{
    let p = modulus() as int;
    let (l, h) = (lo as int, hi as int);
    lemma_small_mod(lo, modulus());
    lemma_small_mod(hi, modulus());
    lemma_mod_twice(l, p);
    lemma_add_mod_noop(l, h + (p - l), p);
    assert(l + (h + (p - l)) == h + p);
    vstd::arithmetic::div_mod::lemma_mod_add_multiples_vanish(h, p);
}

/// Equal limb values give equal limbs.
proof fn lemma_limbs_injective(a: [u64; 4], b: [u64; 4])
    requires
        limbs_value(a) == limbs_value(b),
    ensures
        a == b,
{
    let bs = limb_base() as int;
    let ra2 = a[2] as int + bs * a[3] as int;
    let rb2 = b[2] as int + bs * b[3] as int;
    let ra1 = a[1] as int + bs * ra2;
    let rb1 = b[1] as int + bs * rb2;
    let v = limbs_value(a) as int;
    assert(v == a[0] as int + bs * ra1);
    assert(v == b[0] as int + bs * rb1);
    lemma_fundamental_div_mod_converse(v, bs, ra1, a[0] as int);
    lemma_fundamental_div_mod_converse(v, bs, rb1, b[0] as int);
    lemma_fundamental_div_mod_converse(ra1, bs, ra2, a[1] as int);
    lemma_fundamental_div_mod_converse(ra1, bs, rb2, b[1] as int);
    lemma_fundamental_div_mod_converse(ra2, bs, a[3] as int, a[2] as int);
    lemma_fundamental_div_mod_converse(ra2, bs, b[3] as int, b[2] as int);
    assert(a =~= b);
}

/// The field element whose value is `v`.
pub open spec fn scalar_of(v: nat) -> Scalar {
    choose|s: Scalar| s@ == v
}

/// A field element is the one its value names.
pub proof fn lemma_scalar_of(s: Scalar)
    ensures
        scalar_of(s@) == s,
{
    assert(exists|t: Scalar| t@ == s@) by {
        assert(s@ == s@);
    }
    let c = scalar_of(s@);
    lemma_limbs_injective(c.limbs, s.limbs);
}

impl Scalar {
    /// The additive identity.
    pub fn zero() -> (r: Scalar)
        ensures
            r@ == 0,
    {
        Scalar { limbs: [0, 0, 0, 0] }
    }

    /// The multiplicative identity.
    pub fn one() -> (r: Scalar)
        ensures
            r@ == 1,
    {
        Scalar { limbs: [1, 0, 0, 0] }
    }

    /// The field element with the value of a machine integer.
    pub fn from_u64(v: u64) -> (r: Scalar)
        ensures
            r@ == v as nat,
    {
        Scalar { limbs: [v, 0, 0, 0] }
    }

    /// The canonical limbs of this element.
    pub fn limbs(&self) -> (r: [u64; 4])
        ensures
            limbs_value(r) == self@,
    {
        self.limbs
    }

    /// Whether two elements are the same field element.
    pub fn equals(&self, other: &Scalar) -> (r: bool)
        ensures
            r == (self@ == other@),
    {
        proof {
            if self@ == other@ {
                lemma_limbs_injective(self.limbs, other.limbs);
            }
        }
        self.limbs[0] == other.limbs[0] && self.limbs[1] == other.limbs[1] && self.limbs[2]
            == other.limbs[2] && self.limbs[3] == other.limbs[3]
    }

    /// Whether this is the zero element.
    pub fn is_zero(&self) -> (r: bool)
        ensures
            r == (self@ == 0),
    {
        self.equals(&Scalar::zero())
    }

    /// Whether this is the one element.
    pub fn is_one(&self) -> (r: bool)
        ensures
            r == (self@ == 1),
    {
        self.equals(&Scalar::one())
    }

    /// `ark_ff` `PrimeField::from_bigint`: the element with the given limbs
    /// when their value lies below the modulus, `None` otherwise.
    #[verifier::external_body]
    fn ark_from_limbs(limbs: [u64; 4]) -> (r: Option<Scalar>)
        ensures
            r is Some <==> limbs_value(limbs) < modulus(),
            r matches Some(x) ==> x@ == limbs_value(limbs),
    {
        match Fr::from_bigint(BigInt::new(limbs)) {
            Some(x) => Some(Scalar { limbs: x.into_bigint().0 }),
            None => None,
        }
    }

    /// `ark_ff` field addition: `(a + b) mod p`.
    #[verifier::external_body]
    fn ark_add(self, b: Scalar) -> (r: Scalar)
        ensures
            r@ == fadd(self@, b@),
    {
        let x = Fr::from_bigint(BigInt::new(self.limbs)).unwrap() + Fr::from_bigint(
            BigInt::new(b.limbs),
        ).unwrap();
        Scalar { limbs: x.into_bigint().0 }
    }

    /// `ark_ff` field subtraction: `(a - b) mod p`.
    #[verifier::external_body]
    fn ark_sub(self, b: Scalar) -> (r: Scalar)
        ensures
            r@ == fsub(self@, b@),
    {
        let x = Fr::from_bigint(BigInt::new(self.limbs)).unwrap() - Fr::from_bigint(
            BigInt::new(b.limbs),
        ).unwrap();
        Scalar { limbs: x.into_bigint().0 }
    }

    /// `ark_ff` field multiplication: `(a * b) mod p`.
    #[verifier::external_body]
    fn ark_mul(self, b: Scalar) -> (r: Scalar)
        ensures
            r@ == fmul(self@, b@),
    {
        let x = Fr::from_bigint(BigInt::new(self.limbs)).unwrap() * Fr::from_bigint(
            BigInt::new(b.limbs),
        ).unwrap();
        Scalar { limbs: x.into_bigint().0 }
    }

    /// `ark_ff` `Field::pow` with a one-limb exponent: `a^e mod p`.
    #[verifier::external_body]
    fn ark_pow(self, e: u64) -> (r: Scalar)
        ensures
            r@ == fpow(self@, e as nat),
    {
        let x = Fr::from_bigint(BigInt::new(self.limbs)).unwrap().pow([e]);
        Scalar { limbs: x.into_bigint().0 }
    }

    /// `ark_ff` `Field::inverse` of a nonzero element: the `r` with `a * r = 1 mod p`.
    #[verifier::external_body]
    fn ark_inverse(self) -> (r: Scalar)
        requires
            self@ != 0,
        ensures
            fmul(self@, r@) == 1,
    {
        let x = Fr::from_bigint(BigInt::new(self.limbs)).unwrap().inverse().unwrap();
        Scalar { limbs: x.into_bigint().0 }
    }

    /// `ark_ff` `BigInteger::num_bits` of the canonical integer: its number of binary digits.
    #[verifier::external_body]
    fn ark_num_bits(&self) -> (r: u32)
        ensures
            r as nat == bit_length(self@),
    {
        BigInt::new(self.limbs).num_bits()
    }

    /// `ark_ff` `BigInteger::to_bits_le` of the canonical integer: its 256
    /// binary digits, least significant first.
    #[verifier::external_body]
    fn ark_to_bits_le(&self) -> (r: Vec<bool>)
        ensures
            r.len() == 256,
            forall|i: int| 0 <= i < 256 ==> #[trigger] r@[i] == ((self@ / vstd::arithmetic::power2::pow2(i as nat)) % 2 == 1),
    {
        BigInt::new(self.limbs).to_bits_le()
    }

    /// `ark_ff` `BigInteger::to_bytes_le` of the canonical integer: 32 little-endian bytes.
    #[verifier::external_body]
    fn ark_to_bytes_le(&self) -> (r: Vec<u8>)
        ensures
            r@ == le_bytes(self@, 32),
    {
        BigInt::new(self.limbs).to_bytes_le()
    }

    /// `ark_ff` `PrimeField::from_le_bytes_mod_order`: the little-endian integer reduced mod p.
    #[verifier::external_body]
    fn ark_from_le_bytes_mod_order(bytes: &[u8]) -> (r: Scalar)
        ensures
            r@ == bytes_le_value(bytes@) % modulus(),
    {
        Scalar { limbs: Fr::from_le_bytes_mod_order(bytes).into_bigint().0 }
    }
}

impl Scalar {
    /// The element with the given little-endian limbs when their value lies
    /// below the modulus, `None` otherwise.
    pub fn from_limbs(limbs: [u64; 4]) -> (r: Option<Scalar>)
        ensures
            r is Some <==> limbs_value(limbs) < modulus(),
            r matches Some(x) ==> x@ == limbs_value(limbs),
    {
        Self::ark_from_limbs(limbs)
    }

    /// `self + b`.
    pub fn add(self, b: Scalar) -> (r: Scalar)
        ensures
            r@ == fadd(self@, b@),
    {
        self.ark_add(b)
    }

    /// `self - b`.
    pub fn sub(self, b: Scalar) -> (r: Scalar)
        ensures
            r@ == fsub(self@, b@),
    {
        self.ark_sub(b)
    }

    /// `self * b`.
    pub fn mul(self, b: Scalar) -> (r: Scalar)
        ensures
            r@ == fmul(self@, b@),
    {
        self.ark_mul(b)
    }

    /// `self^e`.
    pub fn pow(self, e: u64) -> (r: Scalar)
        ensures
            r@ == fpow(self@, e as nat),
    {
        self.ark_pow(e)
    }

    /// The multiplicative inverse of a nonzero element.
    pub fn inverse(self) -> (r: Scalar)
        requires
            self@ != 0,
        ensures
            fmul(self@, r@) == 1,
    {
        self.ark_inverse()
    }

    /// The number of binary digits of the canonical integer.
    pub fn num_bits(&self) -> (r: u32)
        ensures
            r as nat == bit_length(self@),
    {
        self.ark_num_bits()
    }

    /// The 256 binary digits of the canonical integer, least significant first.
    pub fn to_bits_le(&self) -> (r: Vec<bool>)
        ensures
            r.len() == 256,
            forall|i: int| 0 <= i < 256 ==> #[trigger] r@[i] == ((self@ / vstd::arithmetic::power2::pow2(i as nat)) % 2 == 1),
    {
        self.ark_to_bits_le()
    }

    /// The 32 little-endian bytes of the canonical integer.
    pub fn to_bytes_le(&self) -> (r: Vec<u8>)
        ensures
            r@ == le_bytes(self@, 32),
    {
        self.ark_to_bytes_le()
    }

    /// The little-endian integer `bytes` reduced modulo the field order.
    pub fn from_le_bytes_mod_order(bytes: &[u8]) -> (r: Scalar)
        ensures
            r@ == bytes_le_value(bytes@) % modulus(),
    {
        Self::ark_from_le_bytes_mod_order(bytes)
    }
}

} // verus!
