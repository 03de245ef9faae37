use bitcoin_ecc::bignat::BigNat;
use bitcoin_ecc::ecdsa::BitcoinPrivateKey;
use bitcoin_ecc::sec::{DeserializeSEC, DeserializeSECError, SerializeSEC};
use bitcoin_ecc::secp256k1::{BitcoinFieldElement, BitcoinPoint};

const UNCOMPRESSED: &str = "04f01d6b9018ab421dd410404cb869072065522bf85734008f105cf385a023a80f0eba29d0f0c5408ed681984dc525982abefccd9f7ff01dd26da4999cf3f6a295";
const COMPRESSED: &str = "03f01d6b9018ab421dd410404cb869072065522bf85734008f105cf385a023a80f";

fn key_point() -> BitcoinPoint {
    let key = BitcoinPrivateKey::new(BigNat::from_u32(12345)).unwrap();
    let p = key.point();
    let x = BitcoinFieldElement::new(p.x().as_ref().unwrap().number().duplicate()).unwrap();
    let y = BitcoinFieldElement::new(p.y().as_ref().unwrap().number().duplicate()).unwrap();
    BitcoinPoint::new(x, y).unwrap()
}

#[test]
fn sec_empty_is_invalid_format() {
    assert_eq!(BitcoinPoint::deserialize_sec(&[]).err(), Some(DeserializeSECError::InvalidFormat));
}

#[test]
fn sec_unknown_tag_is_invalid_format() {
    let mut b = hex::decode(COMPRESSED).unwrap();
    b[0] = 0x05;
    assert_eq!(BitcoinPoint::deserialize_sec(&b).err(), Some(DeserializeSECError::InvalidFormat));
}

#[test]
fn sec_wrong_length_is_invalid_format() {
    let b = hex::decode(UNCOMPRESSED).unwrap();
    assert_eq!(BitcoinPoint::deserialize_sec(&b[..64]).err(), Some(DeserializeSECError::InvalidFormat));
    let c = hex::decode(COMPRESSED).unwrap();
    assert_eq!(BitcoinPoint::deserialize_sec(&c[..32]).err(), Some(DeserializeSECError::InvalidFormat));
}

#[test]
fn sec_uncompressed_bytes() {
    let b = key_point().serialize_sec(false).unwrap();
    assert_eq!(hex::encode(b), UNCOMPRESSED);
}

#[test]
fn sec_compressed_bytes() {
    let b = key_point().serialize_sec(true).unwrap();
    assert_eq!(hex::encode(b), COMPRESSED);
}

#[test]
fn sec_round_trip_both_forms() {
    let p = key_point();
    for compressed in [false, true] {
        let b = p.serialize_sec(compressed).unwrap();
        assert!(BitcoinPoint::deserialize_sec(&b).unwrap() == p);
    }
    let g = BitcoinPoint::g();
    for compressed in [false, true] {
        let b = g.serialize_sec(compressed).unwrap();
        assert!(BitcoinPoint::deserialize_sec(&b).unwrap() == g);
    }
}

#[test]
fn sec_even_y_uses_tag_two() {
    let g = BitcoinPoint::g();
    let b = g.serialize_sec(true).unwrap();
    assert_eq!(b[0], 2);
    assert_eq!(b.len(), 33);
}

#[test]
fn sec_short_x_is_padded() {
    let q = BitcoinPoint::g().mul(&BigNat::from_u32(153)).unwrap();
    let b = q.serialize_sec(true).unwrap();
    assert_eq!(hex::encode(&b), "0200e3ae1974566ca06cc516d47e0fb165a674a3dabcfca15e722f0e3450f45889");
    assert!(BitcoinPoint::deserialize_sec(&b).unwrap() == q);
    let u = q.serialize_sec(false).unwrap();
    assert_eq!(u.len(), 65);
    assert_eq!(u[1], 0);
    assert!(BitcoinPoint::deserialize_sec(&u).unwrap() == q);
}

#[test]
fn sec_identity_cannot_be_serialized() {
    assert!(BitcoinPoint::identity().serialize_sec(true).is_err());
    assert!(BitcoinPoint::identity().serialize_sec(false).is_err());
}

#[test]
fn sec_x_not_below_prime_is_invalid_value() {
    let mut b = vec![2u8];
    b.extend_from_slice(&[0xff; 32]);
    assert_eq!(BitcoinPoint::deserialize_sec(&b).err(), Some(DeserializeSECError::InvalidValue));
}

#[test]
fn sec_point_off_curve_is_invalid_value() {
    let mut b = hex::decode(UNCOMPRESSED).unwrap();
    b[64] ^= 0x01;
    assert_eq!(BitcoinPoint::deserialize_sec(&b).err(), Some(DeserializeSECError::InvalidValue));
}
