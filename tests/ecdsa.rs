use bitcoin_ecc::bignat::BigNat;
use bitcoin_ecc::ecdsa::{random_biguint, BitcoinPrivateKey, PrivateKey, Signature};
use bitcoin_ecc::secp256k1::{order_n, BitcoinPoint};

fn from_hex(s: &str) -> BigNat {
    BigNat::from_bytes_be(&hex::decode(s).unwrap())
}

const Z_HEX: &str = "88f8cba5f9f85d648f82e794c11bdce98e6c54345b93e2840ca2f457116be9da";
const R_HEX: &str = "2b698a0f0a4041b77e63488ad48c23e8e8838dd1fb7520408b121697b782ef22";
const S_HEX: &str = "07434d0bca21c07fc9c1d94994a8e6f49cc8840fcd0afe1b84293a6305889895";

fn flip_byte(s: &str, i: usize) -> BigNat {
    let mut b = hex::decode(s).unwrap();
    b[i] ^= 0x01;
    BigNat::from_bytes_be(&b)
}

#[test]
fn ecdsa_fixed_nonce_signature() {
    let key = BitcoinPrivateKey::new(BigNat::from_u32(12345)).unwrap();
    let sig = key.sign_with_nonce(&from_hex(Z_HEX), &BigNat::from_u32(1234567890)).unwrap();
    assert_eq!(sig.r(), &from_hex(R_HEX));
    assert_eq!(sig.s(), &from_hex(S_HEX));
}

#[test]
fn ecdsa_recorded_signature_verifies() {
    let key = BitcoinPrivateKey::new(BigNat::from_u32(12345)).unwrap();
    let sig = Signature::new(from_hex(R_HEX), from_hex(S_HEX));
    assert_eq!(key.point().verify_signature(&from_hex(Z_HEX), &sig).unwrap(), true);
}

#[test]
fn ecdsa_mutated_digest_fails() {
    let key = BitcoinPrivateKey::new(BigNat::from_u32(12345)).unwrap();
    let sig = Signature::new(from_hex(R_HEX), from_hex(S_HEX));
    for i in [0usize, 17, 31] {
        assert_eq!(key.point().verify_signature(&flip_byte(Z_HEX, i), &sig).unwrap(), false);
    }
}

#[test]
fn ecdsa_mutated_r_fails() {
    let key = BitcoinPrivateKey::new(BigNat::from_u32(12345)).unwrap();
    let sig = Signature::new(flip_byte(R_HEX, 31), from_hex(S_HEX));
    assert_eq!(key.point().verify_signature(&from_hex(Z_HEX), &sig).unwrap(), false);
}

#[test]
fn ecdsa_mutated_s_fails() {
    let key = BitcoinPrivateKey::new(BigNat::from_u32(12345)).unwrap();
    let sig = Signature::new(from_hex(R_HEX), flip_byte(S_HEX, 5));
    assert_eq!(key.point().verify_signature(&from_hex(Z_HEX), &sig).unwrap(), false);
}

#[test]
fn ecdsa_public_point() {
    let key = BitcoinPrivateKey::new(BigNat::from_u32(12345)).unwrap();
    let x = key.point().x().as_ref().unwrap().number().duplicate();
    assert_eq!(x, from_hex("f01d6b9018ab421dd410404cb869072065522bf85734008f105cf385a023a80f"));
}

#[test]
fn ecdsa_random_nonce_signature_verifies() {
    let key = BitcoinPrivateKey::new(from_hex("1f2e3d4c5b6a79880f1e2d3c4b5a69788796a5b4c3d2e1f00112233445566778")).unwrap();
    let z = from_hex(Z_HEX);
    let sig = key.sign(&z).unwrap();
    assert!(key.point().verify_signature(&z, &sig).unwrap());
    let again = key.sign(&z).unwrap();
    assert!(key.point().verify_signature(&z, &again).unwrap());
    assert!(again.r() != sig.r());
}

#[test]
fn ecdsa_general_private_key() {
    let g = BitcoinPoint::g().into_point();
    let key = PrivateKey::new(BigNat::from_u32(12345), g, order_n()).unwrap();
    let sig = key.sign_with_nonce(&from_hex(Z_HEX), &BigNat::from_u32(1234567890)).unwrap();
    assert_eq!(sig.r(), &from_hex(R_HEX));
    assert_eq!(sig.s(), &from_hex(S_HEX));
}

#[test]
fn ecdsa_nonce_multiple_of_order_is_rejected() {
    let key = BitcoinPrivateKey::new(BigNat::from_u32(12345)).unwrap();
    let r = key.sign_with_nonce(&from_hex(Z_HEX), &order_n());
    assert!(matches!(r, Err(bitcoin_ecc::elliptic_curve::PointError::PointAtInfinity)));
}

#[test]
fn ecdsa_random_biguint_draws() {
    let a = random_biguint();
    let b = random_biguint();
    assert!(a.to_u32_digits().len() <= 8);
    assert!(a != b);
}
