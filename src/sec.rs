//! The SEC encoding of secp256k1 points: `04 || x || y` uncompressed, or
//! `02 || x` / `03 || x` compressed by the parity of `y`, each coordinate as 32
//! big-endian bytes.
use crate::bignat::{
    be_val, big_eq, big_from_bytes_be, big_rem, big_sub, big_to_bytes_be, BigNat,
};
use crate::elliptic_curve::{point_new, PointError, PointValue};
use crate::field_element::{fadd, fmul, fpow, FieldError, FieldValue};
use crate::number_theory::{is_prime, lemma_euclid, lemma_fermat};
use crate::secp256k1::{
    prime_p, secp_curve, secp_p, two_128, BitcoinFieldElement, BitcoinPoint,
};
use vstd::arithmetic::div_mod::{lemma_mul_mod_noop, lemma_small_mod};
use vstd::arithmetic::power::{
    lemma_pow_adds, lemma_pow_mod_noop, lemma_pow_multiplies, lemma_square_is_pow2, pow,
};
use vstd::prelude::*;

verus! {

/// The `len` big-endian bytes of `v mod 256^len`.
pub open spec fn be_bytes(v: nat, len: nat) -> Seq<u8>
    decreases len,
{
    if len == 0 {
        Seq::empty()
    } else {
        be_bytes(v / 256, (len - 1) as nat).push((v % 256) as u8)
    }
}

proof fn lemma_be_concat(a: Seq<u8>, b: Seq<u8>)
    ensures
        be_val(a + b) == be_val(a) * pow(256, b.len()) + be_val(b),
    decreases b.len(),
{
    reveal(pow);
    if b.len() == 0 {
        assert(a + b =~= a);
    } else {
        let c = a + b;
        assert(c.drop_last() =~= a + b.drop_last());
        lemma_be_concat(a, b.drop_last());
        let k = pow(256, b.drop_last().len());
        assert((be_val(a) * k + be_val(b.drop_last())) * 256 + b.last() == be_val(a) * (256 * k)
            + (be_val(b.drop_last()) * 256 + b.last())) by (nonlinear_arith);
    }
}

proof fn lemma_be_bound(s: Seq<u8>)
    ensures
        be_val(s) < pow(256, s.len()),
    decreases s.len(),
{
    reveal(pow);
    if s.len() > 0 {
        lemma_be_bound(s.drop_last());
        let k = pow(256, s.drop_last().len());
        let v = be_val(s.drop_last());
        assert(v * 256 + s.last() < 256 * k) by (nonlinear_arith)
            requires
                v < k,
                s.last() < 256,
        ;
    }
}

proof fn lemma_be_zeros(s: Seq<u8>)
    requires
        forall|i: int| 0 <= i < s.len() ==> s[i] == 0,
    ensures
        be_val(s) == 0,
    decreases s.len(),
{
    if s.len() > 0 {
        lemma_be_zeros(s.drop_last());
    }
}

proof fn lemma_be_bytes(v: nat, len: nat)
    ensures
        be_bytes(v, len).len() == len,
        be_val(be_bytes(v, len)) == v % (pow(256, len) as nat),
    decreases len,
{
    reveal(pow);
    vstd::arithmetic::power::lemma_pow_positive(256, len);
    if len == 0 {
        assert(v % 1 == 0);
    } else {
        lemma_be_bytes(v / 256, (len - 1) as nat);
        let s = be_bytes(v, len);
        assert(s.drop_last() =~= be_bytes(v / 256, (len - 1) as nat));
        let k = pow(256, (len - 1) as nat);
        vstd::arithmetic::power::lemma_pow_positive(256, (len - 1) as nat);
        vstd::arithmetic::div_mod::lemma_breakdown(v as int, 256, k);
        assert(be_val(s) == ((v / 256) % (k as nat)) * 256 + v % 256);
        assert(256 * k == k * 256) by (nonlinear_arith);
    }
}

proof fn lemma_be_unique(s: Seq<u8>, v: nat)
    requires
        be_val(s) == v,
    ensures
        s == be_bytes(v, s.len()),
    decreases s.len(),
{
    if s.len() > 0 {
        let t = s.drop_last();
        vstd::arithmetic::div_mod::lemma_fundamental_div_mod_converse(
            v as int,
            256,
            be_val(t) as int,
            s.last() as int,
        );
        lemma_be_unique(t, be_val(t));
        assert(s =~= be_bytes(v, s.len()));
    }
}

/// The 32 big-endian bytes of `v`.
fn be_32(v: &BigNat) -> (r: Vec<u8>)
    requires
        v@ < pow(256, 32),
    ensures
        r@ == be_bytes(v@, 32),
{
    let raw = big_to_bytes_be(v);
    let mut out: Vec<u8> = Vec::new();
    if raw.len() >= 32 {
        let start = raw.len() - 32;
        let mut i: usize = start;
        while i < raw.len()
            invariant
                start <= i <= raw@.len(),
                out@ == raw@.subrange(start as int, i as int),
            decreases raw@.len() - i,
        {
            out.push(raw[i]);
            i = i + 1;
        }
        proof {
            let head = raw@.subrange(0, start as int);
            assert(raw@ =~= head + out@);
            lemma_be_concat(head, out@);
            lemma_be_bound(out@);
            let k = pow(256, 32);
            vstd::arithmetic::power::lemma_pow_positive(256, 32);
            assert(be_val(head) == 0) by (nonlinear_arith)
                requires
                    k > 0,
                    be_val(head) * k + be_val(out@) < k,
                    be_val(out@) >= 0,
                    be_val(head) >= 0,
            ;
            lemma_be_unique(out@, v@);
        }
    } else {
        let pad = 32 - raw.len();
        let mut i: usize = 0;
        while i < pad
            invariant
                i <= pad,
                out@.len() == i,
                forall|j: int| 0 <= j < i ==> out@[j] == 0,
            decreases pad - i,
        {
            out.push(0);
            i = i + 1;
        }
        let ghost zeros = out@;
        let mut j: usize = 0;
        while j < raw.len()
            invariant
                j <= raw@.len(),
                out@ == zeros + raw@.subrange(0, j as int),
            decreases raw@.len() - j,
        {
            out.push(raw[j]);
            j = j + 1;
        }
        proof {
            assert(raw@.subrange(0, raw@.len() as int) =~= raw@);
            lemma_be_zeros(zeros);
            lemma_be_concat(zeros, raw@);
            lemma_be_unique(out@, v@);
        }
    }
    out
}

proof fn lemma_prime_fits()
    ensures
        secp_p() < pow(256, 32),
{
    let b = two_128() as int;
    lemma_square_is_pow2(256);
    lemma_pow_multiplies(256, 2, 16);
    assert(pow(256, 32) == pow(0x1_0000, 16));
    lemma_square_is_pow2(0x1_0000);
    lemma_pow_multiplies(0x1_0000, 2, 8);
    assert(pow(256, 32) == pow(0x1_0000_0000, 8));
    lemma_square_is_pow2(0x1_0000_0000);
    lemma_pow_multiplies(0x1_0000_0000, 2, 4);
    assert(pow(256, 32) == pow(0x1_0000_0000_0000_0000, 4));
    lemma_square_is_pow2(0x1_0000_0000_0000_0000);
    lemma_pow_multiplies(0x1_0000_0000_0000_0000, 2, 2);
    assert(pow(256, 32) == pow(b, 2));
    lemma_square_is_pow2(b);
    assert(secp_p() < b * b) by (nonlinear_arith)
        requires
            secp_p() < 0xFFFF_FFFF_FFFF_FFFF_FFFF_FFFF_FFFF_FFFF * b + b,
            b == 0x1_0000_0000_0000_0000_0000_0000_0000_0000,
    ;
}

/// The SEC bytes of a point, or `None` for the identity, which has no
/// coordinates to encode.
pub open spec fn sec_encoding(p: PointValue, compressed: bool) -> Option<Seq<u8>> {
    match (p.x, p.y) {
        (Some(x), Some(y)) => Some(
            if compressed {
                seq![if y.number % 2 == 0 { 2u8 } else { 3u8 }] + be_bytes(x.number, 32)
            } else {
                seq![4u8] + be_bytes(x.number, 32) + be_bytes(y.number, 32)
            },
        ),
        _ => None,
    }
}

/// The identity has no SEC encoding.
#[derive(Debug)]
pub struct SerializeSECError;

/// Encoding in SEC format.
pub trait SerializeSEC {
    fn serialize_sec(&self, compressed: bool) -> Result<Vec<u8>, SerializeSECError>;
}

/// Why SEC bytes could not be decoded.
#[derive(Debug, PartialEq, Eq, Structural)]
pub enum DeserializeSECError {
    /// The input is empty, its leading tag is not `02`, `03` or `04`, or its
    /// length does not fit the tag.
    InvalidFormat,
    /// A coordinate is not below `p`, or the point is not on the curve.
    InvalidValue,
}

/// Decoding from SEC format.
pub trait DeserializeSEC: Sized {
    fn deserialize_sec(s: &[u8]) -> Result<Self, DeserializeSECError>;
}

impl From<FieldError> for DeserializeSECError {
    fn from(e: FieldError) -> (r: DeserializeSECError) {
        DeserializeSECError::InvalidValue
    }
}

impl vstd::std_specs::convert::FromSpecImpl<FieldError> for DeserializeSECError {
    open spec fn obeys_from_spec() -> bool {
        true
    }

    open spec fn from_spec(e: FieldError) -> DeserializeSECError {
        DeserializeSECError::InvalidValue
    }
}

impl From<PointError> for DeserializeSECError {
    fn from(e: PointError) -> (r: DeserializeSECError) {
        DeserializeSECError::InvalidValue
    }
}

impl vstd::std_specs::convert::FromSpecImpl<PointError> for DeserializeSECError {
    open spec fn obeys_from_spec() -> bool {
        true
    }

    open spec fn from_spec(e: PointError) -> DeserializeSECError {
        DeserializeSECError::InvalidValue
    }
}

/// The point with coordinates `x` and `y`, or `InvalidValue`.
pub open spec fn decode_point(x: nat, y: nat) -> Result<PointValue, DeserializeSECError> {
    if x >= secp_p() || y >= secp_p() {
        Err(DeserializeSECError::InvalidValue)
    } else {
        match point_new(
            FieldValue { number: x, prime: secp_p() },
            FieldValue { number: y, prime: secp_p() },
            secp_curve(),
        ) {
            Ok(p) => Ok(p),
            Err(_) => Err(DeserializeSECError::InvalidValue),
        }
    }
}

/// The root of `x^3 + 7` whose parity the tag asks for: `beta = alpha^((p+1)/4)`
/// or `p - beta`.
pub open spec fn decompressed_y(x: nat, odd: bool) -> nat {
    let alpha = fadd(fpow(x, 3, secp_p()), 7, secp_p());
    let beta = fpow(alpha, (secp_p() + 1) / 4, secp_p());
    if (beta % 2 == 1) == odd {
        beta
    } else {
        (secp_p() - beta) as nat
    }
}

/// The point that SEC bytes encode, or why there is none.
pub open spec fn sec_decoding(b: Seq<u8>) -> Result<PointValue, DeserializeSECError> {
    if b.len() == 0 {
        Err(DeserializeSECError::InvalidFormat)
    } else if b[0] == 4 {
        if b.len() != 65 {
            Err(DeserializeSECError::InvalidFormat)
        } else {
            decode_point(be_val(b.subrange(1, 33)), be_val(b.subrange(33, 65)))
        }
    } else if b[0] == 2 || b[0] == 3 {
        if b.len() != 33 {
            Err(DeserializeSECError::InvalidFormat)
        } else {
            let x = be_val(b.subrange(1, 33));
            if x >= secp_p() {
                Err(DeserializeSECError::InvalidValue)
            } else {
                decode_point(x, decompressed_y(x, b[0] == 3))
            }
        }
    } else {
        Err(DeserializeSECError::InvalidFormat)
    }
}

impl SerializeSEC for BitcoinPoint {
    /// `04 || x || y`, or `02 || x` for even `y` and `03 || x` for odd `y`
    /// when compressed; the identity fails.
    fn serialize_sec(&self, compressed: bool) -> (r: Result<Vec<u8>, SerializeSECError>)
        ensures
            match r {
                Ok(b) => sec_encoding(self@, compressed) == Some(b@),
                Err(_) => sec_encoding(self@, compressed) is None,
            },
    {
        let (x, y) = match (self.x(), self.y()) {
            (Some(x), Some(y)) => (x, y),
            _ => {
                return Err(SerializeSECError);
            },
        };
        proof {
            lemma_prime_fits();
            use_type_invariant(self);
        }
        let mut xb = be_32(x.number());
        let mut out: Vec<u8> = Vec::new();
        if compressed {
            let parity = big_rem(y.number(), &BigNat::from_u32(2));
            if big_eq(&parity, &BigNat::zero()) {
                out.push(2);
            } else {
                out.push(3);
            }
            out.append(&mut xb);
        } else {
            out.push(4);
            out.append(&mut xb);
            let mut yb = be_32(y.number());
            out.append(&mut yb);
        }
        Ok(out)
    }
}

impl DeserializeSEC for BitcoinPoint {
    /// Tag `04` reads `x` and `y`; tags `02` and `03` read `x` and recover `y`
    /// as the square root of `x^3 + 7` with the tag's parity. An empty input,
    /// another tag or a length that does not fit the tag is `InvalidFormat`; a
    /// coordinate not below `p` or a point off the curve is `InvalidValue`.
    fn deserialize_sec(s: &[u8]) -> (r: Result<BitcoinPoint, DeserializeSECError>)
        ensures
            match r {
                Ok(p) => sec_decoding(s@) == Ok::<PointValue, DeserializeSECError>(p@),
                Err(e) => sec_decoding(s@) == Err::<PointValue, DeserializeSECError>(e),
            },
    {
        if s.len() == 0 {
            return Err(DeserializeSECError::InvalidFormat);
        }
        let tag = s[0];
        if tag == 4 {
            if s.len() != 65 {
                return Err(DeserializeSECError::InvalidFormat);
            }
            let x = big_from_bytes_be(&s[1..33]);
            let y = big_from_bytes_be(&s[33..65]);
            decode_coordinates(x, y)
        } else if tag == 2 || tag == 3 {
            if s.len() != 33 {
                return Err(DeserializeSECError::InvalidFormat);
            }
            let x = match BitcoinFieldElement::new(big_from_bytes_be(&s[1..33])) {
                Ok(x) => x,
                Err(_) => {
                    return Err(DeserializeSECError::InvalidValue);
                },
            };
            let b = match BitcoinFieldElement::new(BigNat::from_u32(7)) {
                Ok(b) => b,
                Err(_) => {
                    return Err(DeserializeSECError::InvalidValue);
                },
            };
            let alpha = match x.pow(&BigNat::from_u32(3)).add(&b) {
                Ok(a) => a,
                Err(_) => {
                    return Err(DeserializeSECError::InvalidValue);
                },
            };
            let beta = alpha.sqrt();
            let two = BigNat::from_u32(2);
            let beta_odd = big_eq(&big_rem(beta.number(), &two), &BigNat::from_u32(1));
            let y = if beta_odd == (tag == 3) {
                beta.number().duplicate()
            } else {
                big_sub(&prime_p(), beta.number())
            };
            decode_coordinates(x.number().duplicate(), y)
        } else {
            Err(DeserializeSECError::InvalidFormat)
        }
    }
}

fn decode_coordinates(x: BigNat, y: BigNat) -> (r: Result<BitcoinPoint, DeserializeSECError>)
    ensures
        match r {
            Ok(p) => decode_point(x@, y@) == Ok::<PointValue, DeserializeSECError>(p@),
            Err(e) => decode_point(x@, y@) == Err::<PointValue, DeserializeSECError>(e),
        },
{
    let x = match BitcoinFieldElement::new(x) {
        Ok(x) => x,
        Err(_) => {
            return Err(DeserializeSECError::InvalidValue);
        },
    };
    let y = match BitcoinFieldElement::new(y) {
        Ok(y) => y,
        Err(_) => {
            return Err(DeserializeSECError::InvalidValue);
        },
    };
    match BitcoinPoint::new(x, y) {
        Ok(p) => Ok(p),
        Err(_) => Err(DeserializeSECError::InvalidValue),
    }
}

/// For a prime `p = 3 (mod 4)`, `(y^2)^((p+1)/4)` is `y` or `-y`.
proof fn lemma_sqrt_of_square(p: nat, y: nat)
    requires
        is_prime(p),
        p % 4 == 3,
        y < p,
    ensures
        fpow(fpow(y, 2, p), (p + 1) / 4, p) == y || fpow(fpow(y, 2, p), (p + 1) / 4, p) == p - y,
{
    let m = p as int;
    let k = ((p + 1) / 4) as nat;
    let sq = fpow(y, 2, p);
    let beta = fpow(sq, k, p);
    lemma_square_is_pow2(y as int);
    lemma_pow_mod_noop(pow(y as int, 2), k, m);
    lemma_pow_multiplies(y as int, 2, k);
    let h = pow(y as int, 2 * k);
    assert(beta == h % m);
    if y == 0 {
        vstd::arithmetic::power::lemma0_pow(2 * k);
        lemma_small_mod(0, p);
    } else {
        // beta^2 = y^(p+1) = y^2 * y^(p-1) = y^2
        let (yi, bi) = (y as int, beta as int);
        lemma_mul_mod_noop(h, h, m);
        lemma_pow_adds(yi, 2 * k, 2 * k);
        assert(2 * k + 2 * k == 2 + (p - 1));
        lemma_pow_adds(yi, 2, (p - 1) as nat);
        lemma_small_mod(y, p);
        lemma_fermat(p, y);
        let f = pow(yi, (p - 1) as nat);
        vstd::arithmetic::div_mod::lemma_mul_mod_noop_right(yi * yi, f, m);
        assert((bi * bi) % m == (yi * yi) % m);
        vstd::arithmetic::div_mod::lemma_mod_equivalence(bi * bi, yi * yi, m);
        if bi >= yi {
            assert(bi * bi - yi * yi == (bi - yi) * (bi + yi)) by (nonlinear_arith);
            lemma_euclid(p, (bi - yi) as nat, (bi + yi) as nat);
            lemma_small_mod((bi - yi) as nat, p);
            if (bi + yi) % m == 0 && bi != yi {
                vstd::arithmetic::div_mod::lemma_fundamental_div_mod(bi + yi, m);
                assert(bi + yi == m) by (nonlinear_arith)
                    requires
                        bi + yi == m * ((bi + yi) / m) + 0,
                        0 < bi + yi < 2 * m,
                ;
            }
        } else {
            lemma_mod_equivalence_sym(bi * bi, yi * yi, m);
            assert(yi * yi - bi * bi == (yi - bi) * (yi + bi)) by (nonlinear_arith);
            lemma_euclid(p, (yi - bi) as nat, (yi + bi) as nat);
            lemma_small_mod((yi - bi) as nat, p);
            if (yi + bi) % m == 0 {
                vstd::arithmetic::div_mod::lemma_fundamental_div_mod(yi + bi, m);
                assert(yi + bi == m) by (nonlinear_arith)
                    requires
                        yi + bi == m * ((yi + bi) / m) + 0,
                        0 < yi + bi < 2 * m,
                ;
            }
        }
    }
}

proof fn lemma_mod_equivalence_sym(a: int, b: int, m: int)
    requires
        m > 0,
        a % m == b % m,
    ensures
        (b - a) % m == 0,
{
    vstd::arithmetic::div_mod::lemma_mod_equivalence(b, a, m);
}

proof fn lemma_secp_facts()
    ensures
        secp_p() % 4 == 3,
        secp_p() > 7,
{
}

proof fn lemma_coordinate_bytes(v: nat)
    requires
        v < secp_p(),
    ensures
        be_bytes(v, 32).len() == 32,
        be_val(be_bytes(v, 32)) == v,
{
    lemma_prime_fits();
    lemma_be_bytes(v, 32);
    lemma_small_mod(v, pow(256, 32) as nat);
}

/// Decoding the uncompressed SEC bytes of a point of secp256k1 gives the
/// point back.
pub proof fn lemma_sec_round_trip_uncompressed(p: PointValue)
    requires
        p.wf(),
        p.curve == secp_curve(),
        !p.is_identity(),
    ensures
        sec_decoding(sec_encoding(p, false)->Some_0) == Ok::<PointValue, DeserializeSECError>(p),
{
    let x = p.x->Some_0.number;
    let y = p.y->Some_0.number;
    lemma_coordinate_bytes(x);
    lemma_coordinate_bytes(y);
    let b = sec_encoding(p, false)->Some_0;
    assert(b.subrange(1, 33) =~= be_bytes(x, 32));
    assert(b.subrange(33, 65) =~= be_bytes(y, 32));
}

/// Decoding the compressed SEC bytes of a point of secp256k1 gives the point
/// back, given that the curve's `p` is prime (the square root of `x^3 + 7` is
/// then `y` or `p - y`, and the tag's parity picks `y`).
pub proof fn lemma_sec_round_trip_compressed(p: PointValue)
    requires
        p.wf(),
        p.curve == secp_curve(),
        !p.is_identity(),
        is_prime(secp_p()),
    ensures
        sec_decoding(sec_encoding(p, true)->Some_0) == Ok::<PointValue, DeserializeSECError>(p),
{
    let pr = secp_p();
    let x = p.x->Some_0.number;
    let y = p.y->Some_0.number;
    lemma_coordinate_bytes(x);
    let b = sec_encoding(p, true)->Some_0;
    assert(b.subrange(1, 33) =~= be_bytes(x, 32));
    lemma_secp_facts();
    // alpha = x^3 + 7 = y^2
    let c = fpow(x, 3, pr);
    lemma_small_mod(0, pr);
    assert(fmul(0, x, pr) == 0);
    vstd::arithmetic::div_mod::lemma_mod_bound(pow(x as int, 3), pr as int);
    lemma_small_mod(c, pr);
    assert(fadd(c, 0, pr) == c);
    assert(fadd(c, 7, pr) == fadd(7, c, pr));
    assert(fadd(c, 7, pr) == fpow(y, 2, pr));
    lemma_sqrt_of_square(pr, y);
    let odd = b[0] == 3;
    assert(odd == (y % 2 == 1));
    assert(decompressed_y(x, odd) == y);
}

} // verus!
