use bitcoin_ecc::bignat::BigNat;
use bitcoin_ecc::elliptic_curve::{Curve, Point, PointError};
use bitcoin_ecc::field_element::FieldElement;

fn fe(n: u32, p: u32) -> FieldElement {
    FieldElement::new(BigNat::from_u32(n), BigNat::from_u32(p)).unwrap()
}

fn curve(a: u32, b: u32, p: u32) -> Curve {
    Curve::new(fe(a, p), fe(b, p))
}

fn pt(x: u32, y: u32, c: &Curve) -> Point {
    let p = c.a().prime();
    let x = FieldElement::new(BigNat::from_u32(x), p.duplicate()).unwrap();
    let y = FieldElement::new(BigNat::from_u32(y), p.duplicate()).unwrap();
    Point::new(x, y, c.duplicate()).unwrap()
}

#[test]
fn mod_element_on_curve() {
    let prime: u32 = 223;
    let curve = Curve::new(fe(0, prime), fe(7, prime));

    Point::new(fe(192, prime), fe(105, prime), curve.duplicate()).unwrap();
    Point::new(fe(17, prime), fe(56, prime), curve.duplicate()).unwrap();
    Point::new(fe(1, prime), fe(193, prime), curve.duplicate()).unwrap();
    assert!(Point::new(fe(200, prime), fe(119, prime), curve.duplicate()).is_err());
    assert!(Point::new(fe(42, prime), fe(99, prime), curve).is_err());
}

#[test]
fn point_test_new() {
    assert!(Point::new(fe(3, 13), fe(6, 13), curve(2, 3, 13)).is_ok());
}

#[test]
fn point_test_new_invalid() {
    assert!(Point::new(fe(3, 13), fe(8, 13), curve(2, 3, 13)).is_err());
}

#[test]
fn point_test_is_identity() {
    assert!(Point::identity(curve(2, 3, 13)).is_identity());
}

#[test]
fn point_test_eq() {
    let c = curve(2, 3, 13);
    let x = fe(3, 13);
    let y = fe(6, 13);
    let p1 = Point::new(x.duplicate(), y.duplicate(), c.duplicate()).unwrap();
    let p2 = Point::new(x, y, c).unwrap();
    assert_eq!(p1, p2)
}

#[test]
fn point_test_add() {
    let c = curve(2, 3, 13);
    let p1 = pt(3, 6, &c);
    let p2 = pt(6, 6, &c);
    p1.add(&p2).unwrap();
}

#[test]
fn point_test_add_result() {
    let c = curve(0, 7, 223);
    let p1 = pt(192, 105, &c);
    let p2 = pt(17, 56, &c);
    let expected = pt(170, 142, &c);
    let actual = p1.add(&p2).unwrap();
    assert_eq!(expected, actual)
}

#[test]
fn point_test_add_invalid() {
    let p1 = Point::new(fe(3, 13), fe(6, 13), curve(2, 3, 13)).unwrap();
    let p2 = Point::new(fe(2, 13), fe(4, 13), curve(2, 4, 13)).unwrap();
    assert!(p1.add(&p2).is_err());
}

#[test]
fn point_test_add_eq() {
    let c = curve(2, 3, 13);
    let p1 = pt(3, 6, &c);
    let p2 = pt(3, 6, &c);
    p1.add(&p2).unwrap();
}

#[test]
fn point_test_add_identity() {
    let c = curve(2, 3, 13);
    let p = pt(3, 6, &c);
    let identity = Point::identity(curve(2, 3, 13));
    assert_eq!(p.add(&identity).unwrap(), p);
    assert_eq!(identity.add(&p).unwrap(), p);
}

#[test]
fn point_sum_values_small_field() {
    let c = curve(2, 3, 13);
    assert_eq!(pt(3, 6, &c).add(&pt(6, 6, &c)).unwrap(), pt(4, 7, &c));
    assert_eq!(pt(3, 6, &c).add(&pt(3, 6, &c)).unwrap(), pt(3, 7, &c));
}

#[test]
fn point_identity_plus_identity() {
    let c = curve(0, 7, 223);
    let i = Point::infinity(c.duplicate());
    assert!(i.add(&Point::identity(c)).unwrap().is_identity());
}

#[test]
fn point_plus_reflection_is_identity() {
    let c = curve(0, 7, 223);
    let p = pt(192, 105, &c);
    let neg = pt(192, 223 - 105, &c);
    assert!(p.add(&neg).unwrap().is_identity());
    assert!(neg.add(&p).unwrap().is_identity());
}

#[test]
fn point_vertical_tangent_is_identity() {
    let c = curve(0, 7, 223);
    let p = pt(6, 0, &c);
    assert!(p.add(&p).unwrap().is_identity());
}

#[test]
fn point_triple_by_scalar() {
    let c = curve(0, 7, 223);
    let p = pt(192, 105, &c);
    let three = p.mul(&BigNat::from_u32(3)).unwrap();
    let sum = p.add(&p).unwrap().add(&p).unwrap();
    assert_eq!(three, sum);
    assert_eq!(three, pt(18, 189, &c));
    assert_eq!(p.mul(&BigNat::from_u32(2)).unwrap(), pt(49, 71, &c));
}

#[test]
fn point_scalar_edge_cases() {
    let c = curve(0, 7, 223);
    let p = pt(47, 71, &c);
    assert!(p.mul(&BigNat::zero()).unwrap().is_identity());
    assert_eq!(p.mul(&BigNat::from_u32(1)).unwrap(), p);
    assert!(p.mul(&BigNat::from_u32(21)).unwrap().is_identity());
    assert_eq!(p.mul(&BigNat::from_u32(22)).unwrap(), p);
}

#[test]
fn point_not_on_curve_reports_coordinates() {
    match Point::new(fe(200, 223), fe(119, 223), curve(0, 7, 223)) {
        Err(PointError::NotOnCurve(x, y, c)) => {
            assert_eq!(x, fe(200, 223));
            assert_eq!(y, fe(119, 223));
            assert_eq!(c, curve(0, 7, 223));
        },
        other => panic!("unexpected {:?}", other),
    }
}

#[test]
fn point_mismatched_curves_reported() {
    let p1 = Point::new(fe(3, 13), fe(6, 13), curve(2, 3, 13)).unwrap();
    let p2 = Point::new(fe(2, 13), fe(4, 13), curve(2, 4, 13)).unwrap();
    assert!(matches!(p1.add(&p2), Err(PointError::MismatchCurves(_, _))));
}

#[test]
fn point_coordinates_of_another_field() {
    let r = Point::new(fe(3, 7), fe(6, 7), curve(2, 3, 13));
    assert!(matches!(r, Err(PointError::FieldError(_))));
}
