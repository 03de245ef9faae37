//! The parameters of secp256k1, the curve `y^2 = x^3 + 7` used by Bitcoin, and
//! the field, curve and point types bound to them.
use crate::bignat::{big_add, big_div, big_rem, limbs_val, BigNat};
use crate::elliptic_curve::{
    identity_of, on_curve, opt_view, point_add, point_mul, point_new, Curve, CurveValue, Point,
    PointError, PointErrorValue, PointValue,
};
use crate::field_element::{
    fadd, fmul, fpow, field_add, field_div, field_mul, field_new, field_pow, field_sub,
    FieldElement, FieldError, FieldErrorValue, FieldValue,
};
use vstd::arithmetic::power::pow;
use vstd::prelude::*;

verus! {

/// 2^128.
pub open spec fn two_128() -> nat {
    0x1_0000_0000_0000_0000 * 0x1_0000_0000_0000_0000
}

/// The field prime `p = 2^256 - 2^32 - 977`.
pub open spec fn secp_p() -> nat {
    0xFFFF_FFFF_FFFF_FFFF_FFFF_FFFF_FFFF_FFFF * two_128()
        + 0xFFFF_FFFF_FFFF_FFFF_FFFF_FFFE_FFFF_FC2F
}

/// The order `n` of the generator.
pub open spec fn secp_n() -> nat {
    0xFFFF_FFFF_FFFF_FFFF_FFFF_FFFF_FFFF_FFFE * two_128()
        + 0xBAAE_DCE6_AF48_A03B_BFD2_5E8C_D036_4141
}

/// The generator's x-coordinate.
pub open spec fn secp_gx() -> nat {
    0x79BE_667E_F9DC_BBAC_55A0_6295_CE87_0B07 * two_128()
        + 0x029B_FCDB_2DCE_28D9_59F2_815B_16F8_1798
}

/// The generator's y-coordinate.
pub open spec fn secp_gy() -> nat {
    0x483A_DA77_26A3_C465_5DA4_FBFC_0E11_08A8 * two_128()
        + 0xFD17_B448_A685_5419_9C47_D08F_FB10_D4B8
}

/// The curve's parameters, each as eight 32-bit digits, most significant first.
pub struct Secp256k1Config {
    pub p: [u32; 8],
    pub a: [u32; 8],
    pub b: [u32; 8],
    pub gx: [u32; 8],
    pub gy: [u32; 8],
    pub n: [u32; 8],
}

/// The value of eight 32-bit digits, most significant first.
pub open spec fn be_limbs_val(digits: Seq<u32>) -> nat {
    limbs_val(digits.reverse())
}

/// The parameters of secp256k1.
pub fn bitcoin_secp256k1_config() -> (r: Secp256k1Config)
    ensures
        be_limbs_val(r.p@) == secp_p(),
        be_limbs_val(r.a@) == 0,
        be_limbs_val(r.b@) == 7,
        be_limbs_val(r.gx@) == secp_gx(),
        be_limbs_val(r.gy@) == secp_gy(),
        be_limbs_val(r.n@) == secp_n(),
{
    let r = Secp256k1Config {
        p: [
            0xFFFFFFFF,
            0xFFFFFFFF,
            0xFFFFFFFF,
            0xFFFFFFFF,
            0xFFFFFFFF,
            0xFFFFFFFF,
            0xFFFFFFFE,
            0xFFFFFC2F,
        ],
        a: [0, 0, 0, 0, 0, 0, 0, 0],
        b: [0, 0, 0, 0, 0, 0, 0, 7],
        gx: [
            0x79BE667E,
            0xF9DCBBAC,
            0x55A06295,
            0xCE870B07,
            0x029BFCDB,
            0x2DCE28D9,
            0x59F2815B,
            0x16F81798,
        ],
        gy: [
            0x483ADA77,
            0x26A3C465,
            0x5DA4FBFC,
            0x0E1108A8,
            0xFD17B448,
            0xA6855419,
            0x9C47D08F,
            0xFB10D4B8,
        ],
        n: [
            0xFFFFFFFF,
            0xFFFFFFFF,
            0xFFFFFFFF,
            0xFFFFFFFE,
            0xBAAEDCE6,
            0xAF48A03B,
            0xBFD25E8C,
            0xD0364141,
        ],
    };
    proof {
        reveal_with_fuel(limbs_val, 9);
        assert(be_limbs_val(r.p@) == secp_p());
        assert(be_limbs_val(r.a@) == 0);
        assert(be_limbs_val(r.b@) == 7);
        assert(be_limbs_val(r.gx@) == secp_gx());
        assert(be_limbs_val(r.gy@) == secp_gy());
        assert(be_limbs_val(r.n@) == secp_n());
    }
    r
}

/// The prime `p` as a number.
pub fn prime_p() -> (r: BigNat)
    ensures
        r@ == secp_p(),
{
    BigNat::from_be_u32_digits(bitcoin_secp256k1_config().p.as_slice())
}

/// The group order `n` as a number.
pub fn order_n() -> (r: BigNat)
    ensures
        r@ == secp_n(),
{
    BigNat::from_be_u32_digits(bitcoin_secp256k1_config().n.as_slice())
}

/// The curve `y^2 = x^3 + 0*x + 7` over the field of `p`.
pub open spec fn secp_curve() -> CurveValue {
    CurveValue {
        a: FieldValue { number: 0, prime: secp_p() },
        b: FieldValue { number: 7, prime: secp_p() },
    }
}

/// The generator point.
pub open spec fn secp_g() -> PointValue {
    PointValue {
        x: Some(FieldValue { number: secp_gx(), prime: secp_p() }),
        y: Some(FieldValue { number: secp_gy(), prime: secp_p() }),
        curve: secp_curve(),
    }
}

/// `G` satisfies `y^2 = x^3 + 7 (mod p)`: both sides leave the same remainder,
/// checked on the literal values with their quotients.
proof fn lemma_generator_on_curve()
    ensures
        secp_g().wf(),
{
    let (x, y, p) = (secp_gx() as int, secp_gy() as int, secp_p() as int);
    let b = two_128() as int;
    let q1 = 0x1461_286a_be28_c5f1_df2d_7d4b_ca39_1b50 * b
        + 0x70f6_ec67_8fe7_5b56_871b_f154_987e_3e12;
    let q2 = ((0x1b88_8e01_a06e_9740_17a2_8a5b_4da4_3616 * b
        + 0x9761_c973_0b7a_eedf_75fc_60f6_a33c_fc77) * b
        + 0xa75f_9cdb_dd2b_234a_ea3e_62ca_e573_9834) * b
        + 0x00f3_38ef_ec38_b3eb_3b78_0b1e_8c92_23fb;
    let r = 0x4866_d6a5_ab41_ab2c_6bcc_57cc_d373_5da5 * b
        + 0xf16f_80a5_48e5_e20a_44e4_e9b8_118c_26f2;
    assert(y * y == q1 * p + r) by (nonlinear_arith)
        requires
            y == 0x483A_DA77_26A3_C465_5DA4_FBFC_0E11_08A8 * b
                + 0xFD17_B448_A685_5419_9C47_D08F_FB10_D4B8,
            p == 0xFFFF_FFFF_FFFF_FFFF_FFFF_FFFF_FFFF_FFFF * b
                + 0xFFFF_FFFF_FFFF_FFFF_FFFF_FFFE_FFFF_FC2F,
            q1 == 0x1461_286a_be28_c5f1_df2d_7d4b_ca39_1b50 * b
                + 0x70f6_ec67_8fe7_5b56_871b_f154_987e_3e12,
            r == 0x4866_d6a5_ab41_ab2c_6bcc_57cc_d373_5da5 * b
                + 0xf16f_80a5_48e5_e20a_44e4_e9b8_118c_26f2,
            b == 0x1_0000_0000_0000_0000 * 0x1_0000_0000_0000_0000,
    ;
    assert(x * (x * x) + 7 == q2 * p + r) by (nonlinear_arith)
        requires
            x == 0x79BE_667E_F9DC_BBAC_55A0_6295_CE87_0B07 * b
                + 0x029B_FCDB_2DCE_28D9_59F2_815B_16F8_1798,
            p == 0xFFFF_FFFF_FFFF_FFFF_FFFF_FFFF_FFFF_FFFF * b
                + 0xFFFF_FFFF_FFFF_FFFF_FFFF_FFFE_FFFF_FC2F,
            q2 == ((0x1b88_8e01_a06e_9740_17a2_8a5b_4da4_3616 * b
                + 0x9761_c973_0b7a_eedf_75fc_60f6_a33c_fc77) * b
                + 0xa75f_9cdb_dd2b_234a_ea3e_62ca_e573_9834) * b
                + 0x00f3_38ef_ec38_b3eb_3b78_0b1e_8c92_23fb,
            r == 0x4866_d6a5_ab41_ab2c_6bcc_57cc_d373_5da5 * b
                + 0xf16f_80a5_48e5_e20a_44e4_e9b8_118c_26f2,
            b == 0x1_0000_0000_0000_0000 * 0x1_0000_0000_0000_0000,
    ;
    vstd::arithmetic::div_mod::lemma_fundamental_div_mod_converse(y * y, p, q1, r);
    vstd::arithmetic::div_mod::lemma_fundamental_div_mod_converse(x * (x * x) + 7, p, q2, r);
    reveal(pow);
    reveal_with_fuel(pow, 4);
    assert(pow(x, 3) == x * (x * x));
    assert(pow(y, 2) == y * y);
    vstd::arithmetic::div_mod::lemma_add_mod_noop(7, x * (x * x), p);
    vstd::arithmetic::div_mod::lemma_small_mod(7, secp_p());
    let c = fpow(secp_gx(), 3, secp_p());
    assert(c == (x * (x * x)) % p);
    assert(fpow(secp_gy(), 2, secp_p()) == r);
    assert(0 * secp_gx() == 0);
    vstd::arithmetic::div_mod::lemma_small_mod(0, secp_p());
    assert(fmul(0, secp_gx(), secp_p()) == 0);
    vstd::arithmetic::div_mod::lemma_mod_twice(x * (x * x), p);
    assert(fadd(c, 0, secp_p()) == c);
    assert(fadd(7, c, secp_p()) == r);
    assert(on_curve(secp_gx(), secp_gy(), 0, 7, secp_p()));
}

/// The value of a fallible result in the field of `p`.
pub open spec fn bitcoin_field_result(r: Result<BitcoinFieldElement, FieldError>) -> Result<
    FieldValue,
    FieldErrorValue,
> {
    match r {
        Ok(e) => Ok(e@),
        Err(e) => Err(e@),
    }
}

/// An element of the field of secp256k1's prime `p`.
#[derive(Debug)]
pub struct BitcoinFieldElement(FieldElement);

impl View for BitcoinFieldElement {
    type V = FieldValue;

    closed spec fn view(&self) -> FieldValue {
        self.0@
    }
}

impl BitcoinFieldElement {
    #[verifier::type_invariant]
    spec fn inv(self) -> bool {
        self.0@.wf() && self.0@.prime == secp_p()
    }

    /// `number` in the field of `p`; fails with `InvalidNumber` unless `number < p`.
    pub fn new(number: BigNat) -> (r: Result<BitcoinFieldElement, FieldError>)
        ensures
            bitcoin_field_result(r) == field_new(number@, secp_p()),
            r is Ok ==> r->Ok_0@.wf() && r->Ok_0@.prime == secp_p(),
    {
        match FieldElement::new(number, prime_p()) {
            Ok(e) => Ok(BitcoinFieldElement(e)),
            Err(e) => Err(e),
        }
    }

    /// `number^exponent mod p`.
    pub fn pow(&self, exponent: &BigNat) -> (r: BitcoinFieldElement)
        ensures
            r@ == field_pow(self@, exponent@),
            r@.wf() && r@.prime == secp_p(),
    {
        proof {
            use_type_invariant(self);
        }
        BitcoinFieldElement(self.0.pow(exponent))
    }

    /// `number^((p+1)/4) mod p`: a square root of the element whenever it has
    /// one, since `p = 3 mod 4`.
    pub fn sqrt(&self) -> (r: BitcoinFieldElement)
        ensures
            r@ == field_pow(self@, (secp_p() + 1) / 4),
            r@.wf() && r@.prime == secp_p(),
    {
        let e = big_div(&big_add(&prime_p(), &BigNat::from_u32(1)), &BigNat::from_u32(4));
        self.pow(&e)
    }

    pub fn number(&self) -> (r: &BigNat)
        ensures
            r@ == self@.number,
    {
        self.0.number()
    }

    pub fn prime(&self) -> (r: &BigNat)
        ensures
            r@ == self@.prime,
    {
        self.0.prime()
    }

    /// The element as one of the general field type.
    pub fn into_field_element(self) -> (r: FieldElement)
        ensures
            r@ == self@,
            r@.wf() && r@.prime == secp_p(),
    {
        proof {
            use_type_invariant(&self);
        }
        self.0
    }

    /// `(self + rhs) mod p`.
    pub fn add(&self, rhs: &BitcoinFieldElement) -> (r: Result<BitcoinFieldElement, FieldError>)
        ensures
            bitcoin_field_result(r) == field_add(self@, rhs@),
            r is Ok,
    {
        proof {
            use_type_invariant(self);
            use_type_invariant(rhs);
        }
        Ok(BitcoinFieldElement(self.0.add_in_field(&rhs.0)))
    }

    /// `(self - rhs) mod p`.
    pub fn sub(&self, rhs: &BitcoinFieldElement) -> (r: Result<BitcoinFieldElement, FieldError>)
        ensures
            bitcoin_field_result(r) == field_sub(self@, rhs@),
            r is Ok,
    {
        proof {
            use_type_invariant(self);
            use_type_invariant(rhs);
        }
        Ok(BitcoinFieldElement(self.0.sub_in_field(&rhs.0)))
    }

    /// `(self * rhs) mod p`.
    pub fn mul(&self, rhs: &BitcoinFieldElement) -> (r: Result<BitcoinFieldElement, FieldError>)
        ensures
            bitcoin_field_result(r) == field_mul(self@, rhs@),
            r is Ok,
    {
        proof {
            use_type_invariant(self);
            use_type_invariant(rhs);
        }
        Ok(BitcoinFieldElement(self.0.mul_in_field(&rhs.0)))
    }

    /// `self * rhs^(p-2) mod p`.
    pub fn div(&self, rhs: &BitcoinFieldElement) -> (r: Result<BitcoinFieldElement, FieldError>)
        ensures
            bitcoin_field_result(r) == field_div(self@, rhs@),
            r is Ok,
    {
        proof {
            use_type_invariant(self);
            use_type_invariant(rhs);
        }
        Ok(BitcoinFieldElement(self.0.div_in_field(&rhs.0)))
    }
}

impl PartialEq for BitcoinFieldElement {
    fn eq(&self, other: &BitcoinFieldElement) -> (r: bool) {
        self.0 == other.0
    }
}

impl vstd::std_specs::cmp::PartialEqSpecImpl for BitcoinFieldElement {
    open spec fn obeys_eq_spec() -> bool {
        true
    }

    open spec fn eq_spec(&self, other: &BitcoinFieldElement) -> bool {
        self@ == other@
    }
}

/// The curve `y^2 = x^3 + 7` over the field of `p`.
#[derive(Debug)]
pub struct BitcoinCurve(Curve);

impl View for BitcoinCurve {
    type V = CurveValue;

    closed spec fn view(&self) -> CurveValue {
        self.0@
    }
}

impl BitcoinCurve {
    /// secp256k1's curve, from its parameters.
    pub fn new() -> (r: BitcoinCurve)
        ensures
            r@ == secp_curve(),
    {
        let config = bitcoin_secp256k1_config();
        let p = prime_p();
        let a = FieldElement::reduced(&BigNat::from_be_u32_digits(config.a.as_slice()), &p);
        let b = FieldElement::reduced(&BigNat::from_be_u32_digits(config.b.as_slice()), &p);
        proof {
            vstd::arithmetic::div_mod::lemma_small_mod(0, secp_p());
            vstd::arithmetic::div_mod::lemma_small_mod(7, secp_p());
        }
        BitcoinCurve(Curve::new(a, b))
    }

    /// The curve as one of the general curve type.
    pub fn into_curve(self) -> (r: Curve)
        ensures
            r@ == self@,
    {
        self.0
    }
}

/// The value of a fallible result on secp256k1.
pub open spec fn bitcoin_point_result(r: Result<BitcoinPoint, PointError>) -> Result<
    PointValue,
    PointErrorValue,
> {
    match r {
        Ok(p) => Ok(p@),
        Err(e) => Err(e@),
    }
}

/// A point of secp256k1, or its identity.
#[derive(Debug)]
pub struct BitcoinPoint(Point);

impl View for BitcoinPoint {
    type V = PointValue;

    closed spec fn view(&self) -> PointValue {
        self.0@
    }
}

impl BitcoinPoint {
    #[verifier::type_invariant]
    pub open spec fn inv(self) -> bool {
        self@.wf() && self@.curve == secp_curve()
    }

    fn wrap(point: Point) -> (r: BitcoinPoint)
        requires
            point@.wf(),
            point@.curve == secp_curve(),
        ensures
            r@ == point@,
    {
        BitcoinPoint(point)
    }

    /// The affine point `(x, y)`; fails with `NotOnCurve` unless
    /// `y^2 = x^3 + 7`.
    pub fn new(x: BitcoinFieldElement, y: BitcoinFieldElement) -> (r: Result<BitcoinPoint, PointError>)
        ensures
            bitcoin_point_result(r) == point_new(x@, y@, secp_curve()),
    {
        let x = x.into_field_element();
        let y = y.into_field_element();
        let curve = BitcoinCurve::new().into_curve();
        match Point::new(x, y, curve) {
            Ok(p) => Ok(BitcoinPoint::wrap(p)),
            Err(e) => Err(e),
        }
    }

    /// The generator `G`.
    pub fn g() -> (r: BitcoinPoint)
        ensures
            r@ == secp_g(),
    {
        let config = bitcoin_secp256k1_config();
        let x = BitcoinFieldElement::new(BigNat::from_be_u32_digits(config.gx.as_slice()));
        let y = BitcoinFieldElement::new(BigNat::from_be_u32_digits(config.gy.as_slice()));
        proof {
            lemma_generator_on_curve();
        }
        match (x, y) {
            (Ok(x), Ok(y)) => match BitcoinPoint::new(x, y) {
                Ok(p) => p,
                Err(_) => vstd::pervasive::unreached(),
            },
            _ => vstd::pervasive::unreached(),
        }
    }

    /// The identity of secp256k1.
    pub fn identity() -> (r: BitcoinPoint)
        ensures
            r@ == identity_of(secp_curve()),
    {
        BitcoinPoint::wrap(Point::identity(BitcoinCurve::new().into_curve()))
    }

    /// The identity of secp256k1, also called the point at infinity.
    pub fn infinity() -> (r: BitcoinPoint)
        ensures
            r@ == identity_of(secp_curve()),
    {
        BitcoinPoint::identity()
    }

    pub fn is_identity(&self) -> (r: bool)
        ensures
            r == self@.is_identity(),
    {
        self.0.is_identity()
    }

    pub fn x(&self) -> (r: &Option<FieldElement>)
        ensures
            opt_view(*r) == self@.x,
    {
        self.0.x()
    }

    pub fn y(&self) -> (r: &Option<FieldElement>)
        ensures
            opt_view(*r) == self@.y,
    {
        self.0.y()
    }

    /// The point as one of the general point type.
    pub fn into_point(self) -> (r: Point)
        ensures
            r@ == self@,
            r@.wf(),
            r@.curve == secp_curve(),
    {
        proof {
            use_type_invariant(&self);
        }
        self.0
    }

    /// The group law on secp256k1.
    pub fn add(&self, rhs: &BitcoinPoint) -> (r: Result<BitcoinPoint, PointError>)
        ensures
            bitcoin_point_result(r) == point_add(self@, rhs@),
    {
        proof {
            use_type_invariant(self);
            use_type_invariant(rhs);
        }
        match self.0.add(&rhs.0) {
            Ok(p) => Ok(BitcoinPoint::wrap(p)),
            Err(e) => Err(e),
        }
    }

    /// `(scalar mod n) * self`: the scalar is first reduced modulo the group
    /// order.
    pub fn mul(&self, scalar: &BigNat) -> (r: Result<BitcoinPoint, PointError>)
        ensures
            bitcoin_point_result(r) == point_mul(self@, scalar@ % secp_n()),
    {
        proof {
            use_type_invariant(self);
        }
        let k = big_rem(scalar, &order_n());
        match self.0.mul(&k) {
            Ok(p) => Ok(BitcoinPoint::wrap(p)),
            Err(e) => Err(e),
        }
    }
}

impl PartialEq for BitcoinPoint {
    fn eq(&self, other: &BitcoinPoint) -> (r: bool) {
        self.0 == other.0
    }
}

impl vstd::std_specs::cmp::PartialEqSpecImpl for BitcoinPoint {
    open spec fn obeys_eq_spec() -> bool {
        true
    }

    open spec fn eq_spec(&self, other: &BitcoinPoint) -> bool {
        self@ == other@
    }
}

} // verus!
