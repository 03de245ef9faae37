//! ECDSA: private keys, signing with a nonce, and verification against a
//! public point of secp256k1.
use crate::bignat::{
    big_add, big_div, big_eq, big_lt, big_modpow, big_mul, big_rem, big_sub, limbs_val, BigNat,
};
use crate::elliptic_curve::{point_add, point_mul, Point, PointError, PointErrorValue, PointValue};
use crate::field_element::{fmul, fpow};
use crate::secp256k1::{order_n, secp_g, secp_n, BitcoinPoint};
use vstd::arithmetic::power::pow;
use vstd::prelude::*;

verus! {

/// Relies on `rand::random`: a value drawn from the thread-local generator;
/// nothing is known of it.
pub assume_specification<T>[ rand::random::<T> ]() -> T
    where
        rand::distributions::Standard: rand::distributions::Distribution<T>,
;

proof fn lemma_limbs_bound(s: Seq<u32>)
    ensures
        limbs_val(s) < pow(0x1_0000_0000, s.len()),
    decreases s.len(),
{
    reveal(pow);
    if s.len() > 0 {
        lemma_limbs_bound(s.drop_first());
        let rest = limbs_val(s.drop_first());
        let bound = pow(0x1_0000_0000, s.drop_first().len());
        assert(s[0] as nat + 0x1_0000_0000 * rest < 0x1_0000_0000 * bound) by (nonlinear_arith)
            requires
                s[0] < 0x1_0000_0000,
                rest < bound,
        ;
    }
}

/// A number of 256 random bits, drawn as eight 32-bit digits.
pub fn random_biguint() -> (r: BigNat)
    ensures
        r@ < pow(0x1_0000_0000, 8),
{
    let mut digits: Vec<u32> = Vec::new();
    let mut i: usize = 0;
    while i < 8
        invariant
            i <= 8,
            digits@.len() == i,
        decreases 8 - i,
    {
        digits.push(rand::random::<u32>());
        i = i + 1;
    }
    proof {
        lemma_limbs_bound(digits@);
    }
    BigNat::from_u32_digits(digits)
}

/// The value of a signature.
pub struct SignatureValue {
    pub r: nat,
    pub s: nat,
}

/// An ECDSA signature `(r, s)`.
#[derive(Debug)]
pub struct Signature {
    r: BigNat,
    s: BigNat,
}

impl View for Signature {
    type V = SignatureValue;

    closed spec fn view(&self) -> SignatureValue {
        SignatureValue { r: self.r@, s: self.s@ }
    }
}

impl Signature {
    pub fn new(r: BigNat, s: BigNat) -> (sig: Signature)
        ensures
            sig@ == (SignatureValue { r: r@, s: s@ }),
    {
        Signature { r, s }
    }

    pub fn s(&self) -> (r: &BigNat)
        ensures
            r@ == self@.s,
    {
        &self.s
    }

    pub fn r(&self) -> (r: &BigNat)
        ensures
            r@ == self@.r,
    {
        &self.r
    }
}

/// The value of a fallible signing result.
pub open spec fn signature_result(r: Result<Signature, PointError>) -> Result<
    SignatureValue,
    PointErrorValue,
> {
    match r {
        Ok(s) => Ok(s@),
        Err(e) => Err(e@),
    }
}

/// The low-s form: `s` or `n - s`, whichever is at most `n / 2`.
pub open spec fn low_s(s: nat, n: nat) -> nat {
    if s > n / 2 {
        (n - s) as nat
    } else {
        s
    }
}

/// The signature of digest `z` by `secret` with generator `g` of order `n`,
/// for the nonce `nonce mod n`: `r` is the x-coordinate of `k*g`, and
/// `s = (z + r*secret) * k^(n-2) mod n` in low-s form. A nonce whose point is
/// the identity gives `PointAtInfinity`.
pub open spec fn sign_with(secret: nat, g: PointValue, n: nat, z: nat, nonce: nat) -> Result<
    SignatureValue,
    PointErrorValue,
> {
    let k = nonce % n;
    match point_mul(g, k) {
        Err(e) => Err(e),
        Ok(big_r) => match big_r.x {
            None => Err(PointErrorValue::PointAtInfinity),
            Some(x) => {
                let r = x.number;
                let s = ((z + r * secret) * fpow(k, (n - 2) as nat, n)) % n;
                Ok(SignatureValue { r, s: low_s(s, n) })
            },
        },
    }
}

/// The value of a private key.
pub struct PrivateKeyValue {
    pub secret: nat,
    pub g: PointValue,
    pub n: nat,
    pub point: PointValue,
}

/// A private key: the secret scalar, the generator, its order, and the public
/// point `secret * g`, computed once.
pub struct PrivateKey {
    secret: BigNat,
    g: Point,
    n: BigNat,
    point: Point,
}

impl View for PrivateKey {
    type V = PrivateKeyValue;

    closed spec fn view(&self) -> PrivateKeyValue {
        PrivateKeyValue { secret: self.secret@, g: self.g@, n: self.n@, point: self.point@ }
    }
}

/// The number of nonces `sign` draws before it reports a degenerate one.
pub const MAX_NONCE_DRAWS: u32 = 16;

impl PrivateKey {
    #[verifier::type_invariant]
    spec fn inv(self) -> bool {
        &&& self.g@.wf()
        &&& self.point@.wf()
        &&& self.n@ >= 2
        &&& point_mul(self.g@, self.secret@) == Ok::<PointValue, PointErrorValue>(self.point@)
    }

    /// The key of `secret` for generator `g` of order `n`; fails when
    /// `secret * g` does.
    pub fn new(secret: BigNat, g: Point, n: BigNat) -> (r: Result<PrivateKey, PointError>)
        requires
            g@.wf(),
            n@ >= 2,
        ensures
            match r {
                Ok(key) => point_mul(g@, secret@) == Ok::<PointValue, PointErrorValue>(key@.point)
                    && key@.secret == secret@ && key@.g == g@ && key@.n == n@,
                Err(e) => point_mul(g@, secret@) == Err::<PointValue, PointErrorValue>(e@),
            },
    {
        match g.mul(&secret) {
            Ok(point) => Ok(PrivateKey { secret, g, n, point }),
            Err(e) => Err(e),
        }
    }

    /// The public point `secret * g`.
    pub fn point(&self) -> (r: &Point)
        ensures
            r@ == self@.point,
            r@.wf(),
    {
        proof {
            use_type_invariant(self);
        }
        &self.point
    }

    /// The signature of digest `z` with the given nonce, reduced modulo `n`.
    pub fn sign_with_nonce(&self, z: &BigNat, nonce: &BigNat) -> (r: Result<Signature, PointError>)
        ensures
            signature_result(r) == sign_with(self@.secret, self@.g, self@.n, z@, nonce@),
    {
        proof {
            use_type_invariant(self);
        }
        let two = BigNat::from_u32(2);
        let k = big_rem(nonce, &self.n);
        let big_r = match self.g.mul(&k) {
            Ok(p) => p,
            Err(e) => {
                return Err(e);
            },
        };
        let r = match big_r.x() {
            Some(x) => x.number().duplicate(),
            None => {
                return Err(PointError::PointAtInfinity);
            },
        };
        let e = big_sub(&self.n, &two);
        let k_inv = big_modpow(&k, &e, &self.n);
        let t = big_add(z, &big_mul(&r, &self.secret));
        let s = big_rem(&big_mul(&t, &k_inv), &self.n);
        let half = big_div(&self.n, &two);
        let s = if big_lt(&half, &s) {
            big_sub(&self.n, &s)
        } else {
            s
        };
        Ok(Signature::new(r, s))
    }

    /// The signature of digest `z` with a freshly drawn random nonce; a nonce
    /// whose point is the identity is drawn again, up to `MAX_NONCE_DRAWS`
    /// draws in all.
    pub fn sign(&self, z: &BigNat) -> (r: Result<Signature, PointError>)
        ensures
            exists|nonce: nat|
                #[trigger] sign_with(self@.secret, self@.g, self@.n, z@, nonce) == signature_result(r),
    {
        let nonce = random_biguint();
        let ghost mut used: nat = nonce@;
        let mut out = self.sign_with_nonce(z, &nonce);
        let mut draws: u32 = 1;
        while draws < MAX_NONCE_DRAWS && matches!(out, Err(PointError::PointAtInfinity))
            invariant
                sign_with(self@.secret, self@.g, self@.n, z@, used) == signature_result(out),
            decreases MAX_NONCE_DRAWS - draws,
        {
            let nonce = random_biguint();
            proof {
                used = nonce@;
            }
            out = self.sign_with_nonce(z, &nonce);
            draws = draws + 1;
        }
        out
    }
}

/// A private key on secp256k1, with generator `G` and order `n`.
pub struct BitcoinPrivateKey(PrivateKey);

impl View for BitcoinPrivateKey {
    type V = PrivateKeyValue;

    closed spec fn view(&self) -> PrivateKeyValue {
        self.0@
    }
}

impl BitcoinPrivateKey {
    #[verifier::type_invariant]
    spec fn inv(self) -> bool {
        self.0@.g == secp_g() && self.0@.n == secp_n()
    }

    /// The key of `secret`, with public point `secret * G`.
    pub fn new(secret: BigNat) -> (r: Result<BitcoinPrivateKey, PointError>)
        ensures
            match r {
                Ok(key) => point_mul(secp_g(), secret@) == Ok::<PointValue, PointErrorValue>(key@.point)
                    && key@.secret == secret@ && key@.g == secp_g() && key@.n == secp_n(),
                Err(e) => point_mul(secp_g(), secret@) == Err::<PointValue, PointErrorValue>(e@),
            },
    {
        let g = BitcoinPoint::g().into_point();
        match PrivateKey::new(secret, g, order_n()) {
            Ok(key) => Ok(BitcoinPrivateKey(key)),
            Err(e) => Err(e),
        }
    }

    /// The public point `secret * G`.
    pub fn point(&self) -> (r: &Point)
        ensures
            r@ == self@.point,
            r@.wf(),
    {
        self.0.point()
    }

    /// The signature of digest `z` with the given nonce, reduced modulo `n`.
    pub fn sign_with_nonce(&self, z: &BigNat, nonce: &BigNat) -> (r: Result<Signature, PointError>)
        ensures
            signature_result(r) == sign_with(self@.secret, secp_g(), secp_n(), z@, nonce@),
    {
        proof {
            use_type_invariant(self);
        }
        self.0.sign_with_nonce(z, nonce)
    }

    /// The signature of digest `z` with a freshly drawn random nonce.
    pub fn sign(&self, z: &BigNat) -> (r: Result<Signature, PointError>)
        ensures
            exists|nonce: nat|
                #[trigger] sign_with(self@.secret, secp_g(), secp_n(), z@, nonce) == signature_result(r),
    {
        proof {
            use_type_invariant(self);
        }
        self.0.sign(z)
    }
}

/// Acceptance of `sig` on digest `z` for the public point `point`: with
/// `w = s^(n-2) mod n`, `u = z*w mod n` and `v = r*w mod n`, the point
/// `u*G + v*point` must not be the identity and its x-coordinate must be `r`.
pub open spec fn verify_with(point: PointValue, z: nat, sig: SignatureValue) -> Result<
    bool,
    PointErrorValue,
> {
    let n = secp_n();
    let w = fpow(sig.s, (n - 2) as nat, n);
    let u = fmul(z, w, n);
    let v = fmul(sig.r, w, n);
    match point_mul(secp_g(), u % n) {
        Err(e) => Err(e),
        Ok(ug) => match point_mul(point, v) {
            Err(e) => Err(e),
            Ok(vp) => match point_add(ug, vp) {
                Err(e) => Err(e),
                Ok(total) => Ok(
                    match total.x {
                        Some(x) => x.number == sig.r,
                        None => false,
                    },
                ),
            },
        },
    }
}

/// The value of a fallible verification.
pub open spec fn verify_result(r: Result<bool, PointError>) -> Result<bool, PointErrorValue> {
    match r {
        Ok(b) => Ok(b),
        Err(e) => Err(e@),
    }
}

impl Point {
    /// Whether `signature` signs digest `z` for this public point on secp256k1.
    pub fn verify_signature(&self, z: &BigNat, signature: &Signature) -> (r: Result<bool, PointError>)
        requires
            self@.wf(),
        ensures
            verify_result(r) == verify_with(self@, z@, signature@),
    {
        let n = order_n();
        let two = BigNat::from_u32(2);
        let e = big_sub(&n, &two);
        let w = big_modpow(signature.s(), &e, &n);
        let u = big_rem(&big_mul(z, &w), &n);
        let v = big_rem(&big_mul(signature.r(), &w), &n);
        let ug = match BitcoinPoint::g().mul(&u) {
            Ok(p) => p.into_point(),
            Err(e) => {
                return Err(e);
            },
        };
        let vp = match self.mul(&v) {
            Ok(p) => p,
            Err(e) => {
                return Err(e);
            },
        };
        let total = match ug.add(&vp) {
            Ok(p) => p,
            Err(e) => {
                return Err(e);
            },
        };
        match total.x() {
            Some(x) => Ok(big_eq(x.number(), signature.r())),
            None => Ok(false),
        }
    }
}

} // verus!
