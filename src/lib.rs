//! Prime-field arithmetic, elliptic-curve group law, ECDSA over secp256k1 and
//! the SEC point codec, with contracts checked by Verus.

pub mod bignat;
pub mod number_theory;
pub mod field_element;
pub mod elliptic_curve;
pub mod secp256k1;
pub mod ecdsa;
pub mod sec;
