use bitcoin_ecc::bignat::BigNat;
use bitcoin_ecc::field_element::{FieldElement, FieldError};

fn num(n: u32) -> BigNat {
    BigNat::from_u32(n)
}

fn fe(n: u32, p: u32) -> FieldElement {
    FieldElement::new(num(n), num(p)).unwrap()
}

#[test]
fn mod_test_new() {
    assert!(FieldElement::new(num(2), num(13)).is_ok())
}

#[test]
fn mod_test_new_invalid() {
    assert!(FieldElement::new(num(13), num(3)).is_err())
}

#[test]
fn test_pow() {
    let fe = fe(5, 13);
    let powd = fe.pow(&num(2));
    assert_eq!(powd.number(), &num(12))
}

#[test]
fn mod_test_add() {
    let f1 = fe(12, 13);
    let f2 = fe(11, 13);
    let f3 = f1.add(&f2).unwrap();
    assert_eq!(f3.number(), &num(10));
}

#[test]
fn mod_test_add_invalid() {
    let f1 = fe(12, 13);
    let f2 = fe(11, 12);
    assert!(f1.add(&f2).is_err());
}

#[test]
fn test_sub() {
    let f1 = fe(5, 13);
    let f2 = fe(8, 13);
    let f3 = f1.sub(&f2).unwrap();
    assert_eq!(f3.number(), &num(10));
}

#[test]
fn test_sub_invalid() {
    let f1 = fe(12, 13);
    let f2 = fe(11, 12);
    assert!(f1.sub(&f2).is_err());
}

#[test]
fn test_mul() {
    let f1 = fe(5, 13);
    let f2 = fe(10, 13);
    let f3 = f1.mul(&f2).unwrap();
    assert_eq!(f3.number(), &num(11));
}

#[test]
fn test_mul_invalid() {
    let f1 = fe(12, 13);
    let f2 = fe(11, 12);
    assert!(f1.mul(&f2).is_err());
}

#[test]
fn test_div() {
    let f1 = fe(10, 13);
    let f2 = fe(5, 13);
    let f3 = f1.div(&f2).unwrap();
    assert_eq!(f3.number(), &num(2));
}

#[test]
fn test_div_invalid() {
    let f1 = fe(12, 13);
    let f2 = fe(11, 12);
    assert!(f1.div(&f2).is_err());
}

#[test]
fn field_sum_of_seven_and_twelve() {
    assert!(fe(7, 13).add(&fe(12, 13)).unwrap() == fe(6, 13));
}

#[test]
fn field_invalid_number_reports_both_values() {
    match FieldElement::new(num(13), num(13)) {
        Err(FieldError::InvalidNumber(n, p)) => {
            assert_eq!(n, num(13));
            assert_eq!(p, num(13));
        },
        other => panic!("unexpected {:?}", other),
    }
}

#[test]
fn field_mismatch_reports_both_primes() {
    match fe(1, 13).mul(&fe(1, 7)) {
        Err(FieldError::MismatchPrimes(l, r)) => {
            assert_eq!(l, num(13));
            assert_eq!(r, num(7));
        },
        other => panic!("unexpected {:?}", other),
    }
}

#[test]
fn field_add_then_sub_gives_back() {
    for a in 0..13u32 {
        for b in 0..13u32 {
            let s = fe(a, 13).add(&fe(b, 13)).unwrap();
            assert!(s.sub(&fe(b, 13)).unwrap() == fe(a, 13));
        }
    }
}

#[test]
fn field_mul_then_div_gives_back() {
    for a in 0..13u32 {
        for b in 1..13u32 {
            let m = fe(a, 13).mul(&fe(b, 13)).unwrap();
            assert!(m.div(&fe(b, 13)).unwrap() == fe(a, 13));
        }
    }
}

#[test]
fn field_fermat_little_theorem() {
    for a in 1..13u32 {
        assert_eq!(fe(a, 13).pow(&num(12)).number(), &num(1));
    }
    assert_eq!(fe(0, 13).pow(&num(12)).number(), &num(0));
}

#[test]
fn field_zero_to_the_zero_is_one() {
    assert_eq!(fe(0, 13).pow(&num(0)).number(), &num(1));
}

#[test]
fn field_pow_with_exponent_beyond_u64() {
    let e = BigNat::from_u32_digits(vec![5, 0, 1]);
    assert_eq!(fe(3, 13).pow(&e).number(), &num(1));
    assert_eq!(fe(2, 13).pow(&e).number(), &num(5));
}

#[test]
fn field_div_by_zero_element_gives_zero() {
    assert_eq!(fe(5, 13).div(&fe(0, 13)).unwrap().number(), &num(0));
}

#[test]
fn field_of_one_element() {
    let z = fe(0, 1);
    assert_eq!(z.pow(&num(3)).number(), &num(0));
    assert_eq!(z.div(&z).unwrap().number(), &num(0));
    assert_eq!(z.add(&z).unwrap().number(), &num(0));
}

#[test]
fn field_sub_wraps_around() {
    assert_eq!(fe(0, 13).sub(&fe(1, 13)).unwrap().number(), &num(12));
    assert_eq!(fe(4, 13).sub(&fe(4, 13)).unwrap().number(), &num(0));
}

#[test]
fn field_equality_needs_equal_prime() {
    assert!(fe(3, 13) != fe(3, 7));
    assert!(fe(3, 13) == fe(3, 13));
    assert!(fe(3, 13) != fe(4, 13));
}

#[test]
fn bignat_from_u64_and_digits() {
    let v = BigNat::from_u64(0x1_0000_0005);
    assert_eq!(v, BigNat::from_u32_digits(vec![5, 1]));
    assert_eq!(BigNat::from_u32_digits(vec![5, 1, 0]), v);
    assert_eq!(BigNat::from_bytes_be(&[1, 0, 0, 0, 5]), v);
    assert_eq!(BigNat::zero(), BigNat::from_u32_digits(vec![]));
}
