use bitcoin_ecc::bignat::BigNat;
use bitcoin_ecc::secp256k1::{bitcoin_secp256k1_config, BitcoinCurve, BitcoinFieldElement, BitcoinPoint};

fn from_hex(s: &str) -> BigNat {
    BigNat::from_bytes_be(&hex::decode(s).unwrap())
}

const P_HEX: &str = "fffffffffffffffffffffffffffffffffffffffffffffffffffffffefffffc2f";
const N_HEX: &str = "fffffffffffffffffffffffffffffffebaaedce6af48a03bbfd25e8cd0364141";

#[test]
fn secp256k1_test_new() {
    BitcoinFieldElement::new(BigNat::from_u32(7)).unwrap();
}

#[test]
fn secp_field_rejects_prime() {
    assert!(BitcoinFieldElement::new(from_hex(P_HEX)).is_err());
    let below = "fffffffffffffffffffffffffffffffffffffffffffffffffffffffefffffc2e";
    assert!(BitcoinFieldElement::new(from_hex(below)).is_ok());
}

#[test]
fn secp_config_limbs() {
    let c = bitcoin_secp256k1_config();
    assert_eq!(c.p[7], 0xFFFFFC2F);
    assert_eq!(c.b, [0, 0, 0, 0, 0, 0, 0, 7]);
    assert_eq!(BigNat::from_be_u32_digits(&c.p), from_hex(P_HEX));
    assert_eq!(BigNat::from_be_u32_digits(&c.n), from_hex(N_HEX));
}

#[test]
fn secp_field_element_prime() {
    let e = BitcoinFieldElement::new(BigNat::from_u32(7)).unwrap();
    assert_eq!(e.prime(), &from_hex(P_HEX));
    assert_eq!(e.number(), &BigNat::from_u32(7));
}

#[test]
fn secp_field_operations() {
    let a = BitcoinFieldElement::new(BigNat::from_u32(5)).unwrap();
    let b = BitcoinFieldElement::new(BigNat::from_u32(8)).unwrap();
    let d = a.sub(&b).unwrap();
    let p_minus_3 = from_hex("fffffffffffffffffffffffffffffffffffffffffffffffffffffffefffffc2c");
    assert_eq!(d.number(), &p_minus_3);
    assert_eq!(a.add(&b).unwrap().number(), &BigNat::from_u32(13));
    assert_eq!(a.mul(&b).unwrap().number(), &BigNat::from_u32(40));
    let q = a.mul(&b).unwrap().div(&b).unwrap();
    assert!(q == a);
    assert_eq!(a.pow(&BigNat::from_u32(3)).number(), &BigNat::from_u32(125));
}

#[test]
fn secp_sqrt_of_square() {
    let y = BitcoinFieldElement::new(BigNat::from_u32(1234)).unwrap();
    let sq = y.pow(&BigNat::from_u32(2));
    let root = sq.sqrt();
    let neg = BitcoinFieldElement::new(BigNat::zero()).unwrap().sub(&y).unwrap();
    assert!(root == y || root == neg);
    assert!(root.pow(&BigNat::from_u32(2)) == sq);
}

#[test]
fn secp_generator_on_curve() {
    let g = BitcoinPoint::g();
    assert!(!g.is_identity());
    let x = g.x().as_ref().unwrap();
    let y = g.y().as_ref().unwrap();
    assert_eq!(x.number(), &from_hex("79be667ef9dcbbac55a06295ce870b07029bfcdb2dce28d959f2815b16f81798"));
    let gx = BitcoinFieldElement::new(x.number().duplicate()).unwrap();
    let gy = BitcoinFieldElement::new(y.number().duplicate()).unwrap();
    assert!(BitcoinPoint::new(gx, gy).unwrap() == g);
}

#[test]
fn secp_order_times_generator_is_identity() {
    let g = BitcoinPoint::g().into_point();
    assert!(g.mul(&from_hex(N_HEX)).unwrap().is_identity());
}

#[test]
fn secp_scalar_reduced_by_order() {
    let g = BitcoinPoint::g();
    let n_plus_one = from_hex("fffffffffffffffffffffffffffffffebaaedce6af48a03bbfd25e8cd0364142");
    assert!(g.mul(&n_plus_one).unwrap() == g);
    assert!(g.mul(&from_hex(N_HEX)).unwrap().is_identity());
    assert!(BitcoinPoint::identity() == BitcoinPoint::infinity());
}

#[test]
fn secp_double_generator() {
    let g = BitcoinPoint::g();
    let two_g = g.add(&g).unwrap();
    let expected = "c6047f9441ed7d6d3045406e95c07cd85c778e4b8cef3ca7abac09b95c709ee5";
    assert_eq!(two_g.x().as_ref().unwrap().number(), &from_hex(expected));
    assert!(g.mul(&BigNat::from_u32(2)).unwrap() == two_g);
}

#[test]
fn secp_curve_coefficients() {
    let c = BitcoinCurve::new().into_curve();
    assert_eq!(c.a().number(), &BigNat::zero());
    assert_eq!(c.b().number(), &BigNat::from_u32(7));
}
