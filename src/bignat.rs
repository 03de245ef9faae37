//! Arbitrary-precision natural numbers.
//!
//! A `BigNat` holds base-2^32 digits, least significant first; its view is the
//! natural number they denote. The arithmetic itself is done by `num_bigint`.
use num_bigint::BigUint;
use vstd::prelude::*;

verus! {

/// The value of little-endian base-2^32 digits.
pub open spec fn limbs_val(s: Seq<u32>) -> nat
    decreases s.len(),
{
    if s.len() == 0 {
        0
    } else {
        s[0] as nat + 0x1_0000_0000 * limbs_val(s.drop_first())
    }
}

/// The value of big-endian bytes.
pub open spec fn be_val(s: Seq<u8>) -> nat
    decreases s.len(),
{
    if s.len() == 0 {
        0
    } else {
        be_val(s.drop_last()) * 256 + s.last() as nat
    }
}

/// An arbitrary-precision natural number.
#[derive(Debug)]
pub struct BigNat {
    limbs: Vec<u32>,
}

impl View for BigNat {
    type V = nat;

    closed spec fn view(&self) -> nat {
        limbs_val(self.limbs@)
    }
}

/// Relies on `BigUint + BigUint`: the sum.
#[verifier::external_body]
pub(crate) fn big_add(a: &BigNat, b: &BigNat) -> (r: BigNat)
    ensures
        r@ == a@ + b@,
{
    let s = BigUint::new(a.limbs.clone()) + BigUint::new(b.limbs.clone());
    BigNat { limbs: s.to_u32_digits() }
}

/// Relies on `BigUint - BigUint`: the difference, which panics when negative.
#[verifier::external_body]
pub(crate) fn big_sub(a: &BigNat, b: &BigNat) -> (r: BigNat)
    requires
        b@ <= a@,
    ensures
        r@ == a@ - b@,
{
    let s = BigUint::new(a.limbs.clone()) - BigUint::new(b.limbs.clone());
    BigNat { limbs: s.to_u32_digits() }
}

/// Relies on `BigUint * BigUint`: the product.
#[verifier::external_body]
pub(crate) fn big_mul(a: &BigNat, b: &BigNat) -> (r: BigNat)
    ensures
        r@ == a@ * b@,
{
    let s = BigUint::new(a.limbs.clone()) * BigUint::new(b.limbs.clone());
    BigNat { limbs: s.to_u32_digits() }
}

/// Relies on `BigUint / BigUint`: the floored quotient, which panics on a zero divisor.
#[verifier::external_body]
pub(crate) fn big_div(a: &BigNat, b: &BigNat) -> (r: BigNat)
    requires
        b@ > 0,
    ensures
        r@ == a@ / b@,
{
    let s = BigUint::new(a.limbs.clone()) / BigUint::new(b.limbs.clone());
    BigNat { limbs: s.to_u32_digits() }
}

/// Relies on `BigUint % BigUint`: the remainder, which panics on a zero divisor.
#[verifier::external_body]
pub(crate) fn big_rem(a: &BigNat, b: &BigNat) -> (r: BigNat)
    requires
        b@ > 0,
    ensures
        r@ == a@ % b@,
{
    let s = BigUint::new(a.limbs.clone()) % BigUint::new(b.limbs.clone());
    BigNat { limbs: s.to_u32_digits() }
}

/// Relies on `BigUint::modpow`: `(base ^ exponent) % modulus` by
/// square-and-multiply, which panics on a zero modulus.
#[verifier::external_body]
pub(crate) fn big_modpow(base: &BigNat, exponent: &BigNat, modulus: &BigNat) -> (r: BigNat)
    requires
        modulus@ >= 2,
    ensures
        r@ == vstd::arithmetic::power::pow(base@ as int, exponent@) % (modulus@ as int),
{
    let b = BigUint::new(base.limbs.clone());
    let s = b.modpow(&BigUint::new(exponent.limbs.clone()), &BigUint::new(modulus.limbs.clone()));
    BigNat { limbs: s.to_u32_digits() }
}

/// Relies on `BigUint == BigUint`: equality of the values.
#[verifier::external_body]
pub(crate) fn big_eq(a: &BigNat, b: &BigNat) -> (r: bool)
    ensures
        r == (a@ == b@),
{
    BigUint::new(a.limbs.clone()) == BigUint::new(b.limbs.clone())
}

/// Relies on `BigUint < BigUint`: the order of the values.
#[verifier::external_body]
pub(crate) fn big_lt(a: &BigNat, b: &BigNat) -> (r: bool)
    ensures
        r == (a@ < b@),
{
    BigUint::new(a.limbs.clone()) < BigUint::new(b.limbs.clone())
}

/// Relies on `BigUint::from_bytes_be`: the value of big-endian bytes.
#[verifier::external_body]
pub(crate) fn big_from_bytes_be(b: &[u8]) -> (r: BigNat)
    ensures
        r@ == be_val(b@),
{
    BigNat { limbs: BigUint::from_bytes_be(b).to_u32_digits() }
}

/// Relies on `BigUint::to_bytes_be`: big-endian bytes of the value.
#[verifier::external_body]
pub(crate) fn big_to_bytes_be(a: &BigNat) -> (r: Vec<u8>)
    ensures
        be_val(r@) == a@,
{
    BigUint::new(a.limbs.clone()).to_bytes_be()
}

proof fn lemma_limbs_val_one(s: Seq<u32>)
    requires
        s.len() == 1,
    ensures
        limbs_val(s) == s[0] as nat,
{
    assert(s.drop_first() =~= Seq::<u32>::empty());
    reveal_with_fuel(limbs_val, 2);
}

proof fn lemma_limbs_val_two(s: Seq<u32>)
    requires
        s.len() == 2,
    ensures
        limbs_val(s) == s[0] as nat + 0x1_0000_0000 * (s[1] as nat),
{
    lemma_limbs_val_one(s.drop_first());
}

impl BigNat {
    /// The number zero.
    pub fn zero() -> (r: BigNat)
        ensures
            r@ == 0,
    {
        BigNat { limbs: Vec::new() }
    }

    /// The value of a `u32`.
    pub fn from_u32(v: u32) -> (r: BigNat)
        ensures
            r@ == v as nat,
    {
        let mut limbs: Vec<u32> = Vec::new();
        limbs.push(v);
        proof {
            lemma_limbs_val_one(limbs@);
        }
        BigNat { limbs }
    }

    /// The value of a `u64`.
    pub fn from_u64(v: u64) -> (r: BigNat)
        ensures
            r@ == v as nat,
    {
        let lo: u32 = (v & 0xffff_ffff) as u32;
        let hi: u32 = (v >> 32) as u32;
        assert(v == lo as u64 + 0x1_0000_0000 * (hi as u64)) by (bit_vector)
            requires
                lo == (v & 0xffff_ffff) as u32,
                hi == (v >> 32) as u32,
        ;
        let mut limbs: Vec<u32> = Vec::new();
        limbs.push(lo);
        limbs.push(hi);
        proof {
            lemma_limbs_val_two(limbs@);
        }
        BigNat { limbs }
    }

    /// The number whose base-2^32 digits, least significant first, are `digits`.
    pub fn from_u32_digits(digits: Vec<u32>) -> (r: BigNat)
        ensures
            r@ == limbs_val(digits@),
    {
        BigNat { limbs: digits }
    }

    /// Base-2^32 digits of the value, least significant first.
    pub fn to_u32_digits(&self) -> (r: Vec<u32>)
        ensures
            limbs_val(r@) == self@,
    {
        let mut out: Vec<u32> = Vec::new();
        let mut i: usize = 0;
        while i < self.limbs.len()
            invariant
                i <= self.limbs@.len(),
                out@ == self.limbs@.subrange(0, i as int),
            decreases self.limbs@.len() - i,
        {
            out.push(self.limbs[i]);
            i = i + 1;
        }
        assert(out@ =~= self.limbs@);
        out
    }

    /// The number whose base-2^32 digits, most significant first, are `digits`.
    pub fn from_be_u32_digits(digits: &[u32]) -> (r: BigNat)
        ensures
            r@ == limbs_val(digits@.reverse()),
    {
        let mut limbs: Vec<u32> = Vec::new();
        let mut i: usize = digits.len();
        while i > 0
            invariant
                i <= digits@.len(),
                limbs@ =~= digits@.subrange(i as int, digits@.len() as int).reverse(),
            decreases i,
        {
            i = i - 1;
            limbs.push(digits[i]);
            assert(limbs@ =~= digits@.subrange(i as int, digits@.len() as int).reverse());
        }
        assert(digits@.subrange(0, digits@.len() as int) =~= digits@);
        BigNat { limbs }
    }

    /// The number whose big-endian bytes are `bytes`.
    pub fn from_bytes_be(bytes: &[u8]) -> (r: BigNat)
        ensures
            r@ == be_val(bytes@),
    {
        big_from_bytes_be(bytes)
    }

    /// A second number with the same value.
    pub fn duplicate(&self) -> (r: BigNat)
        ensures
            r@ == self@,
    {
        BigNat { limbs: self.to_u32_digits() }
    }
}

impl PartialEq for BigNat {
    fn eq(&self, other: &BigNat) -> (r: bool) {
        big_eq(self, other)
    }
}

impl vstd::std_specs::cmp::PartialEqSpecImpl for BigNat {
    open spec fn obeys_eq_spec() -> bool {
        true
    }

    open spec fn eq_spec(&self, other: &BigNat) -> bool {
        self@ == other@
    }
}

} // verus!
