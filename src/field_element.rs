//! Elements of a prime field Z/pZ.
use crate::bignat::{big_add, big_eq, big_lt, big_modpow, big_mul, big_rem, big_sub, BigNat};
use crate::number_theory::{is_prime, lemma_fermat};
use vstd::arithmetic::div_mod::{
    lemma_mul_mod_noop_left, lemma_mul_mod_noop_right, lemma_small_mod, lemma_sub_mod_noop,
};
use vstd::arithmetic::power::pow;
use vstd::prelude::*;

verus! {

/// `(u + v) mod p`.
pub open spec fn fadd(u: nat, v: nat, p: nat) -> nat {
    (u + v) % p
}

/// `(u - v) mod p`, never negative.
pub open spec fn fsub(u: nat, v: nat, p: nat) -> nat {
    ((u - v) % (p as int)) as nat
}

/// `(u * v) mod p`.
pub open spec fn fmul(u: nat, v: nat, p: nat) -> nat {
    (u * v) % p
}

/// `u^e mod p`.
pub open spec fn fpow(u: nat, e: nat, p: nat) -> nat {
    (pow(u as int, e) % (p as int)) as nat
}

/// `u * v^(p-2) mod p`: division through Fermat's inverse. A field of one
/// element only holds zero.
pub open spec fn fdiv(u: nat, v: nat, p: nat) -> nat {
    if p >= 2 {
        fmul(u, fpow(v, (p - 2) as nat, p), p)
    } else {
        0
    }
}

/// The mathematical value of a field element.
pub struct FieldValue {
    pub number: nat,
    pub prime: nat,
}

impl FieldValue {
    /// The element's invariant: `0 <= number < prime`.
    pub open spec fn wf(self) -> bool {
        self.number < self.prime
    }
}

/// What a failed field operation reports.
pub enum FieldErrorValue {
    InvalidNumber(nat, nat),
    MismatchPrimes(nat, nat),
}

/// Construction of `number` in the field of `prime`.
pub open spec fn field_new(number: nat, prime: nat) -> Result<FieldValue, FieldErrorValue> {
    if number < prime {
        Ok(FieldValue { number, prime })
    } else {
        Err(FieldErrorValue::InvalidNumber(number, prime))
    }
}

/// A binary operation whose result, when the primes agree, is `number`.
pub open spec fn field_binary(a: FieldValue, b: FieldValue, number: nat) -> Result<
    FieldValue,
    FieldErrorValue,
> {
    if a.prime == b.prime {
        Ok(FieldValue { number, prime: a.prime })
    } else {
        Err(FieldErrorValue::MismatchPrimes(a.prime, b.prime))
    }
}

/// Addition: `(a + b) mod p`, or `MismatchPrimes`.
pub open spec fn field_add(a: FieldValue, b: FieldValue) -> Result<FieldValue, FieldErrorValue> {
    field_binary(a, b, fadd(a.number, b.number, a.prime))
}

/// Subtraction: `(a - b) mod p`, or `MismatchPrimes`.
pub open spec fn field_sub(a: FieldValue, b: FieldValue) -> Result<FieldValue, FieldErrorValue> {
    field_binary(a, b, fsub(a.number, b.number, a.prime))
}

/// Multiplication: `(a * b) mod p`, or `MismatchPrimes`.
pub open spec fn field_mul(a: FieldValue, b: FieldValue) -> Result<FieldValue, FieldErrorValue> {
    field_binary(a, b, fmul(a.number, b.number, a.prime))
}

/// Division: `a * b^(p-2) mod p`, or `MismatchPrimes`.
pub open spec fn field_div(a: FieldValue, b: FieldValue) -> Result<FieldValue, FieldErrorValue> {
    field_binary(a, b, fdiv(a.number, b.number, a.prime))
}

/// Exponentiation: `a^e mod p`, with the exponent taken as it is.
pub open spec fn field_pow(a: FieldValue, e: nat) -> FieldValue {
    FieldValue { number: fpow(a.number, e, a.prime), prime: a.prime }
}

/// Why a field element could not be built or combined.
#[derive(Debug)]
pub enum FieldError {
    /// The number was not below the prime: `(number, prime)`.
    InvalidNumber(BigNat, BigNat),
    /// The two operands belong to different fields: `(left prime, right prime)`.
    MismatchPrimes(BigNat, BigNat),
}

impl View for FieldError {
    type V = FieldErrorValue;

    open spec fn view(&self) -> FieldErrorValue {
        match self {
            FieldError::InvalidNumber(n, p) => FieldErrorValue::InvalidNumber(n@, p@),
            FieldError::MismatchPrimes(l, r) => FieldErrorValue::MismatchPrimes(l@, r@),
        }
    }
}

/// An element of the field of integers modulo `prime`.
#[derive(Debug)]
pub struct FieldElement {
    number: BigNat,
    prime: BigNat,
}

impl View for FieldElement {
    type V = FieldValue;

    closed spec fn view(&self) -> FieldValue {
        FieldValue { number: self.number@, prime: self.prime@ }
    }
}

/// The value of a fallible field result.
pub open spec fn field_result(r: Result<FieldElement, FieldError>) -> Result<
    FieldValue,
    FieldErrorValue,
> {
    match r {
        Ok(e) => Ok(e@),
        Err(e) => Err(e@),
    }
}

proof fn lemma_mod_one(x: int)
    ensures
        x % 1 == 0,
{
}

impl FieldElement {
    /// The element `number` of the field of `prime`; fails with `InvalidNumber`
    /// unless `number < prime`.
    pub fn new(number: BigNat, prime: BigNat) -> (r: Result<FieldElement, FieldError>)
        ensures
            field_result(r) == field_new(number@, prime@),
    {
        if big_lt(&number, &prime) {
            Ok(FieldElement { number, prime })
        } else {
            Err(FieldError::InvalidNumber(number, prime))
        }
    }

    /// The element with the same number and prime.
    pub fn duplicate(&self) -> (r: FieldElement)
        ensures
            r@ == self@,
    {
        FieldElement { number: self.number.duplicate(), prime: self.prime.duplicate() }
    }

    /// `number^exponent mod prime`, for any exponent, by square-and-multiply.
    pub fn pow(&self, exponent: &BigNat) -> (r: FieldElement)
        requires
            self@.wf(),
        ensures
            r@ == field_pow(self@, exponent@),
            r@.wf(),
    {
        let two = BigNat::from_u32(2);
        if big_lt(&self.prime, &two) {
            proof {
                lemma_mod_one(pow(self@.number as int, exponent@));
            }
            FieldElement { number: BigNat::zero(), prime: self.prime.duplicate() }
        } else {
            let number = big_modpow(&self.number, exponent, &self.prime);
            FieldElement { number, prime: self.prime.duplicate() }
        }
    }

    /// The element's number, below its prime.
    pub fn number(&self) -> (r: &BigNat)
        ensures
            r@ == self@.number,
    {
        &self.number
    }

    /// The prime of the element's field.
    pub fn prime(&self) -> (r: &BigNat)
        ensures
            r@ == self@.prime,
    {
        &self.prime
    }

    /// `number mod prime`, as an element of the field of `prime`.
    pub(crate) fn reduced(number: &BigNat, prime: &BigNat) -> (r: FieldElement)
        requires
            prime@ > 0,
        ensures
            r@ == (FieldValue { number: number@ % prime@, prime: prime@ }),
            r@.wf(),
    {
        FieldElement { number: big_rem(number, prime), prime: prime.duplicate() }
    }

    fn mismatch(&self, rhs: &FieldElement) -> (r: FieldError)
        ensures
            r@ == FieldErrorValue::MismatchPrimes(self@.prime, rhs@.prime),
    {
        FieldError::MismatchPrimes(self.prime.duplicate(), rhs.prime.duplicate())
    }

    /// `add` of two elements of one field, whose primes the caller has compared.
    pub(crate) fn add_in_field(&self, rhs: &FieldElement) -> (r: FieldElement)
        requires
            self@.wf(),
            rhs@.wf(),
            self@.prime == rhs@.prime,
        ensures
            r@ == (FieldValue {
                number: fadd(self@.number, rhs@.number, self@.prime),
                prime: self@.prime,
            }),
            r@.wf(),
    {
        let s = big_add(&self.number, &rhs.number);
        let number = big_rem(&s, &self.prime);
        FieldElement { number, prime: self.prime.duplicate() }
    }

    /// `(self + rhs) mod prime`; fails with `MismatchPrimes` across fields.
    pub fn add(&self, rhs: &FieldElement) -> (r: Result<FieldElement, FieldError>)
        requires
            self@.wf(),
            rhs@.wf(),
        ensures
            field_result(r) == field_add(self@, rhs@),
            r is Ok ==> r->Ok_0@.wf(),
    {
        if !big_eq(&self.prime, &rhs.prime) {
            return Err(self.mismatch(rhs));
        }
        Ok(self.add_in_field(rhs))
    }

    /// `sub` of two elements of one field, whose primes the caller has compared.
    pub(crate) fn sub_in_field(&self, rhs: &FieldElement) -> (r: FieldElement)
        requires
            self@.wf(),
            rhs@.wf(),
            self@.prime == rhs@.prime,
        ensures
            r@ == (FieldValue {
                number: fsub(self@.number, rhs@.number, self@.prime),
                prime: self@.prime,
            }),
            r@.wf(),
    {
        let s = big_add(&self.number, &self.prime);
        let d = big_sub(&s, &rhs.number);
        let number = big_rem(&d, &self.prime);
        proof {
            let p = self@.prime as int;
            vstd::arithmetic::div_mod::lemma_mod_add_multiples_vanish(
                self@.number - rhs@.number,
                p,
            );
        }
        FieldElement { number, prime: self.prime.duplicate() }
    }

    /// `(self - rhs) mod prime`, computed as `(self + prime - rhs) mod prime`;
    /// fails with `MismatchPrimes` across fields.
    pub fn sub(&self, rhs: &FieldElement) -> (r: Result<FieldElement, FieldError>)
        requires
            self@.wf(),
            rhs@.wf(),
        ensures
            field_result(r) == field_sub(self@, rhs@),
            r is Ok ==> r->Ok_0@.wf(),
    {
        if !big_eq(&self.prime, &rhs.prime) {
            return Err(self.mismatch(rhs));
        }
        Ok(self.sub_in_field(rhs))
    }

    /// `mul` of two elements of one field, whose primes the caller has compared.
    pub(crate) fn mul_in_field(&self, rhs: &FieldElement) -> (r: FieldElement)
        requires
            self@.wf(),
            rhs@.wf(),
            self@.prime == rhs@.prime,
        ensures
            r@ == (FieldValue {
                number: fmul(self@.number, rhs@.number, self@.prime),
                prime: self@.prime,
            }),
            r@.wf(),
    {
        let s = big_mul(&self.number, &rhs.number);
        let number = big_rem(&s, &self.prime);
        FieldElement { number, prime: self.prime.duplicate() }
    }

    /// `(self * rhs) mod prime`; fails with `MismatchPrimes` across fields.
    pub fn mul(&self, rhs: &FieldElement) -> (r: Result<FieldElement, FieldError>)
        requires
            self@.wf(),
            rhs@.wf(),
        ensures
            field_result(r) == field_mul(self@, rhs@),
            r is Ok ==> r->Ok_0@.wf(),
    {
        if !big_eq(&self.prime, &rhs.prime) {
            return Err(self.mismatch(rhs));
        }
        Ok(self.mul_in_field(rhs))
    }

    /// `div` of two elements of one field, whose primes the caller has compared.
    pub(crate) fn div_in_field(&self, rhs: &FieldElement) -> (r: FieldElement)
        requires
            self@.wf(),
            rhs@.wf(),
            self@.prime == rhs@.prime,
        ensures
            r@ == (FieldValue {
                number: fdiv(self@.number, rhs@.number, self@.prime),
                prime: self@.prime,
            }),
            r@.wf(),
    {
        let two = BigNat::from_u32(2);
        if big_lt(&self.prime, &two) {
            return FieldElement { number: BigNat::zero(), prime: self.prime.duplicate() };
        }
        let e = big_sub(&self.prime, &two);
        let inv = big_modpow(&rhs.number, &e, &self.prime);
        let s = big_mul(&self.number, &inv);
        let number = big_rem(&s, &self.prime);
        FieldElement { number, prime: self.prime.duplicate() }
    }

    /// `self * rhs^(prime-2) mod prime`, the quotient by Fermat's inverse;
    /// fails with `MismatchPrimes` across fields.
    pub fn div(&self, rhs: &FieldElement) -> (r: Result<FieldElement, FieldError>)
        requires
            self@.wf(),
            rhs@.wf(),
        ensures
            field_result(r) == field_div(self@, rhs@),
            r is Ok ==> r->Ok_0@.wf(),
    {
        if !big_eq(&self.prime, &rhs.prime) {
            return Err(self.mismatch(rhs));
        }
        Ok(self.div_in_field(rhs))
    }
}

impl PartialEq for FieldElement {
    fn eq(&self, other: &FieldElement) -> (r: bool) {
        big_eq(&self.number, &other.number) && big_eq(&self.prime, &other.prime)
    }
}

impl vstd::std_specs::cmp::PartialEqSpecImpl for FieldElement {
    open spec fn obeys_eq_spec() -> bool {
        true
    }

    open spec fn eq_spec(&self, other: &FieldElement) -> bool {
        self@ == other@
    }
}

/// In any field, `(a + b) - b == a`.
pub proof fn lemma_add_sub_cancel(a: FieldValue, b: FieldValue)
    requires
        a.wf(),
        b.wf(),
        a.prime == b.prime,
    ensures
        field_add(a, b) is Ok,
        field_sub(field_add(a, b)->Ok_0, b) == Ok::<FieldValue, FieldErrorValue>(a),
{
    let p = a.prime as int;
    let s = (a.number + b.number) as int % p;
    lemma_sub_mod_noop((a.number + b.number) as int, b.number as int, p);
    lemma_small_mod(b.number, a.prime);
    lemma_small_mod(a.number, a.prime);
    assert((s - b.number) % p == a.number);
}

/// In a field of prime order, `(a * b) / b == a` for `b != 0`.
pub proof fn lemma_mul_div_cancel(a: FieldValue, b: FieldValue)
    requires
        a.wf(),
        b.wf(),
        a.prime == b.prime,
        is_prime(a.prime),
        b.number != 0,
    ensures
        field_mul(a, b) is Ok,
        field_div(field_mul(a, b)->Ok_0, b) == Ok::<FieldValue, FieldErrorValue>(a),
{
    reveal(pow);
    let p = a.prime as int;
    let (x, y) = (a.number as int, b.number as int);
    let e = pow(y, (a.prime - 2) as nat);
    let ab = (x * y) % p;
    lemma_small_mod(b.number, a.prime);
    lemma_fermat(a.prime, b.number);
    assert(pow(y, (a.prime - 1) as nat) == y * e);
    lemma_mul_mod_noop_right(ab, e, p);
    lemma_mul_mod_noop_left(x * y, e, p);
    assert((x * y) * e == x * (y * e)) by (nonlinear_arith);
    lemma_mul_mod_noop_right(x, y * e, p);
    lemma_small_mod(a.number, a.prime);
    assert(fdiv(ab as nat, b.number, a.prime) == a.number);
}

/// Fermat's little theorem in a field of prime order: `a^(p-1) == 1` for
/// `a != 0`.
pub proof fn lemma_pow_prime_minus_one(a: FieldValue)
    requires
        a.wf(),
        is_prime(a.prime),
        a.number != 0,
    ensures
        field_pow(a, (a.prime - 1) as nat) == (FieldValue { number: 1, prime: a.prime }),
{
    lemma_small_mod(a.number, a.prime);
    lemma_fermat(a.prime, a.number);
}

} // verus!
