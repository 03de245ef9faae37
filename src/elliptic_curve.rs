//! Weierstrass curves `y^2 = x^3 + a*x + b` over a prime field, their points
//! and the group law.
use crate::bignat::{big_div, big_eq, big_rem, BigNat};
use crate::field_element::{
    fadd, fdiv, fmul, fpow, fsub, FieldElement, FieldError, FieldErrorValue, FieldValue,
};
use crate::number_theory::{is_prime, lemma_cancel, lemma_inverse_times};
use vstd::arithmetic::div_mod::{
    lemma_fundamental_div_mod, lemma_mod_add_multiples_vanish, lemma_mod_equivalence,
    lemma_mod_multiples_basic, lemma_mod_multiples_vanish, lemma_mul_mod_noop_right,
    lemma_small_mod, lemma_sub_mod_noop,
};
use vstd::prelude::*;

verus! {

/// The mathematical value of a curve: its two coefficients.
pub struct CurveValue {
    pub a: FieldValue,
    pub b: FieldValue,
}

impl CurveValue {
    /// Both coefficients are elements of one field.
    pub open spec fn wf(self) -> bool {
        self.a.wf() && self.b.wf() && self.a.prime == self.b.prime
    }

    pub open spec fn prime(self) -> nat {
        self.a.prime
    }
}

/// The mathematical value of a point: both coordinates, or neither for the
/// identity, and its curve.
pub struct PointValue {
    pub x: Option<FieldValue>,
    pub y: Option<FieldValue>,
    pub curve: CurveValue,
}

/// `y^2 == x^3 + a*x + b` in the field of `p`.
pub open spec fn on_curve(x: nat, y: nat, a: nat, b: nat, p: nat) -> bool {
    fpow(y, 2, p) == fadd(b, fadd(fpow(x, 3, p), fmul(a, x, p), p), p)
}

/// The identity of the group of `curve`.
pub open spec fn identity_of(curve: CurveValue) -> PointValue {
    PointValue { x: None, y: None, curve }
}

impl PointValue {
    /// The point invariant: a well-formed curve, and either no coordinates or
    /// two elements of the curve's field that satisfy its equation.
    pub open spec fn wf(self) -> bool {
        &&& self.curve.wf()
        &&& match (self.x, self.y) {
            (None, None) => true,
            (Some(x), Some(y)) => {
                &&& x.wf()
                &&& y.wf()
                &&& x.prime == self.curve.prime()
                &&& y.prime == self.curve.prime()
                &&& on_curve(x.number, y.number, self.curve.a.number, self.curve.b.number, x.prime)
            },
            _ => false,
        }
    }

    pub open spec fn is_identity(self) -> bool {
        self.x is None
    }
}

/// What a failed point construction or operation reports.
pub enum PointErrorValue {
    NotOnCurve(FieldValue, FieldValue, CurveValue),
    MismatchCurves(CurveValue, CurveValue),
    Field(FieldErrorValue),
    PointAtInfinity,
}

/// Construction of the affine point `(x, y)` on `curve`: `a * x` is computed
/// first and fails across fields; then the curve equation is checked.
pub open spec fn point_new(x: FieldValue, y: FieldValue, curve: CurveValue) -> Result<
    PointValue,
    PointErrorValue,
> {
    if curve.a.prime != x.prime {
        Err(PointErrorValue::Field(FieldErrorValue::MismatchPrimes(curve.a.prime, x.prime)))
    } else if y.prime == x.prime && on_curve(
        x.number,
        y.number,
        curve.a.number,
        curve.b.number,
        x.prime,
    ) {
        Ok(PointValue { x: Some(x), y: Some(y), curve })
    } else {
        Err(PointErrorValue::NotOnCurve(x, y, curve))
    }
}

/// The tangent at `(x1, y1)` with `y1 != 0`: the coordinates of `2P`.
pub open spec fn double_coords(x1: nat, y1: nat, a: nat, p: nat) -> (nat, nat) {
    let slope = fdiv(
        fadd(a, fmul(3nat % p, fpow(x1, 2, p), p), p),
        fmul(2nat % p, y1, p),
        p,
    );
    let x3 = fsub(fpow(slope, 2, p), fmul(2nat % p, x1, p), p);
    let y3 = fsub(fmul(slope, fsub(x1, x3, p), p), y1, p);
    (x3, y3)
}

/// The chord through `(x1, y1)` and `(x2, y2)` with `x1 != x2`: the
/// coordinates of `P + Q`.
pub open spec fn chord_coords(x1: nat, y1: nat, x2: nat, y2: nat, p: nat) -> (nat, nat) {
    let slope = fdiv(fsub(y2, y1, p), fsub(x2, x1, p), p);
    let x3 = fsub(fsub(fpow(slope, 2, p), x1, p), x2, p);
    let y3 = fsub(fmul(slope, fsub(x1, x3, p), p), y1, p);
    (x3, y3)
}

/// The group law on two points of the same curve.
pub open spec fn point_add(p: PointValue, q: PointValue) -> Result<PointValue, PointErrorValue> {
    if p.curve != q.curve {
        Err(PointErrorValue::MismatchCurves(p.curve, q.curve))
    } else if p.is_identity() {
        Ok(q)
    } else if q.is_identity() {
        Ok(p)
    } else {
        let pr = p.curve.prime();
        let x1 = p.x->Some_0.number;
        let y1 = p.y->Some_0.number;
        let x2 = q.x->Some_0.number;
        let y2 = q.y->Some_0.number;
        if p == q {
            if y1 == 0 {
                Ok(identity_of(p.curve))
            } else {
                let (x3, y3) = double_coords(x1, y1, p.curve.a.number, pr);
                point_new(
                    FieldValue { number: x3, prime: pr },
                    FieldValue { number: y3, prime: pr },
                    p.curve,
                )
            }
        } else if fsub(x2, x1, pr) == 0 {
            Ok(identity_of(p.curve))
        } else {
            let (x3, y3) = chord_coords(x1, y1, x2, y2, pr);
            point_new(
                FieldValue { number: x3, prime: pr },
                FieldValue { number: y3, prime: pr },
                p.curve,
            )
        }
    }
}

/// Double-and-add from the accumulator `acc` and the running double `base`,
/// reading `k` from its lowest bit; `base` is doubled only while bits remain.
pub open spec fn mul_steps(acc: PointValue, base: PointValue, k: nat) -> Result<
    PointValue,
    PointErrorValue,
>
    decreases k,
{
    if k == 0 {
        Ok(acc)
    } else {
        let next = if k % 2 == 1 {
            point_add(acc, base)
        } else {
            Ok(acc)
        };
        match next {
            Err(e) => Err(e),
            Ok(acc2) => if k / 2 == 0 {
                Ok(acc2)
            } else {
                match point_add(base, base) {
                    Err(e) => Err(e),
                    Ok(base2) => mul_steps(acc2, base2, k / 2),
                }
            },
        }
    }
}

/// `k * p` by double-and-add.
pub open spec fn point_mul(p: PointValue, k: nat) -> Result<PointValue, PointErrorValue> {
    mul_steps(identity_of(p.curve), p, k)
}

/// A curve `y^2 = x^3 + a*x + b`.
#[derive(Debug)]
pub struct Curve {
    a: FieldElement,
    b: FieldElement,
}

impl View for Curve {
    type V = CurveValue;

    closed spec fn view(&self) -> CurveValue {
        CurveValue { a: self.a@, b: self.b@ }
    }
}

impl Curve {
    /// The curve with coefficients `a` and `b`, of one field.
    pub fn new(a: FieldElement, b: FieldElement) -> (r: Curve)
        requires
            a@.wf(),
            b@.wf(),
            a@.prime == b@.prime,
        ensures
            r@ == (CurveValue { a: a@, b: b@ }),
    {
        Curve { a, b }
    }

    pub fn a(&self) -> (r: &FieldElement)
        ensures
            r@ == self@.a,
    {
        &self.a
    }

    pub fn b(&self) -> (r: &FieldElement)
        ensures
            r@ == self@.b,
    {
        &self.b
    }

    /// The same curve.
    pub fn duplicate(&self) -> (r: Curve)
        ensures
            r@ == self@,
    {
        Curve { a: self.a.duplicate(), b: self.b.duplicate() }
    }

    fn same(&self, other: &Curve) -> (r: bool)
        ensures
            r == (self@ == other@),
    {
        (self.a == other.a) && (self.b == other.b)
    }
}

impl PartialEq for Curve {
    fn eq(&self, other: &Curve) -> (r: bool) {
        self.same(other)
    }
}

impl vstd::std_specs::cmp::PartialEqSpecImpl for Curve {
    open spec fn obeys_eq_spec() -> bool {
        true
    }

    open spec fn eq_spec(&self, other: &Curve) -> bool {
        self@ == other@
    }
}

/// Why a point could not be built or combined.
#[derive(Debug)]
pub enum PointError {
    /// `(x, y)` does not satisfy the curve's equation.
    NotOnCurve(FieldElement, FieldElement, Curve),
    /// The two operands lie on different curves.
    MismatchCurves(Curve, Curve),
    /// A field operation failed.
    FieldError(FieldError),
    /// The identity was met where coordinates are needed.
    PointAtInfinity,
}

impl View for PointError {
    type V = PointErrorValue;

    open spec fn view(&self) -> PointErrorValue {
        match self {
            PointError::NotOnCurve(x, y, c) => PointErrorValue::NotOnCurve(x@, y@, c@),
            PointError::MismatchCurves(l, r) => PointErrorValue::MismatchCurves(l@, r@),
            PointError::FieldError(e) => PointErrorValue::Field(e@),
            PointError::PointAtInfinity => PointErrorValue::PointAtInfinity,
        }
    }
}

pub open spec fn opt_view(o: Option<FieldElement>) -> Option<FieldValue> {
    match o {
        Some(e) => Some(e@),
        None => None,
    }
}

/// A point of a curve, or its identity (the point at infinity).
#[derive(Debug)]
pub struct Point {
    x: Option<FieldElement>,
    y: Option<FieldElement>,
    curve: Curve,
}

impl View for Point {
    type V = PointValue;

    closed spec fn view(&self) -> PointValue {
        PointValue { x: opt_view(self.x), y: opt_view(self.y), curve: self.curve@ }
    }
}

/// The value of a fallible point result.
pub open spec fn point_result(r: Result<Point, PointError>) -> Result<PointValue, PointErrorValue> {
    match r {
        Ok(p) => Ok(p@),
        Err(e) => Err(e@),
    }
}

fn same_coordinate(l: &Option<FieldElement>, r: &Option<FieldElement>) -> (b: bool)
    ensures
        b == (opt_view(*l) == opt_view(*r)),
{
    match (l, r) {
        (Some(a), Some(b)) => *a == *b,
        (None, None) => true,
        _ => false,
    }
}

impl Point {
    /// The affine point `(x, y)` of `curve`; fails with `NotOnCurve` unless
    /// the curve's equation holds.
    pub fn new(x: FieldElement, y: FieldElement, curve: Curve) -> (r: Result<Point, PointError>)
        requires
            x@.wf(),
            y@.wf(),
            curve@.wf(),
        ensures
            point_result(r) == point_new(x@, y@, curve@),
            r is Ok ==> r->Ok_0@.wf() && r->Ok_0@.curve == curve@,
    {
        if !big_eq(curve.a.prime(), x.prime()) {
            let e = FieldError::MismatchPrimes(curve.a.prime().duplicate(), x.prime().duplicate());
            return Err(PointError::FieldError(e));
        }
        let lhs = y.pow(&BigNat::from_u32(2));
        let x3 = x.pow(&BigNat::from_u32(3));
        let ax = curve.a.mul_in_field(&x);
        let s = x3.add_in_field(&ax);
        let rhs = curve.b.add_in_field(&s);
        if lhs == rhs {
            Ok(Point { x: Some(x), y: Some(y), curve })
        } else {
            Err(PointError::NotOnCurve(x, y, curve))
        }
    }

    /// The identity of `curve`; it has no coordinates to check.
    pub fn identity(curve: Curve) -> (r: Point)
        requires
            curve@.wf(),
        ensures
            r@ == identity_of(curve@),
            r@.wf(),
    {
        Point { x: None, y: None, curve }
    }

    /// The identity of `curve`, also called the point at infinity.
    pub fn infinity(curve: Curve) -> (r: Point)
        requires
            curve@.wf(),
        ensures
            r@ == identity_of(curve@),
            r@.wf(),
    {
        Point::identity(curve)
    }

    /// Whether the point is the identity.
    pub fn is_identity(&self) -> (r: bool)
        ensures
            r == self@.is_identity(),
    {
        self.x.is_none()
    }

    pub fn x(&self) -> (r: &Option<FieldElement>)
        ensures
            opt_view(*r) == self@.x,
    {
        &self.x
    }

    pub fn y(&self) -> (r: &Option<FieldElement>)
        ensures
            opt_view(*r) == self@.y,
    {
        &self.y
    }

    pub fn curve(&self) -> (r: &Curve)
        ensures
            r@ == self@.curve,
    {
        &self.curve
    }

    /// The same point.
    pub fn duplicate(&self) -> (r: Point)
        ensures
            r@ == self@,
    {
        let x = match &self.x {
            Some(e) => Some(e.duplicate()),
            None => None,
        };
        let y = match &self.y {
            Some(e) => Some(e.duplicate()),
            None => None,
        };
        Point { x, y, curve: self.curve.duplicate() }
    }

    fn coordinates(&self) -> (r: (&FieldElement, &FieldElement))
        requires
            self@.wf(),
            !self@.is_identity(),
        ensures
            r.0@ == self@.x->Some_0,
            r.1@ == self@.y->Some_0,
    {
        match (&self.x, &self.y) {
            (Some(x), Some(y)) => (x, y),
            _ => vstd::pervasive::unreached(),
        }
    }

    /// The group law. Fails with `MismatchCurves` across curves. The identity
    /// leaves the other operand as it is; a vertical tangent or chord gives
    /// the identity; otherwise the tangent or chord construction is checked
    /// against the curve's equation like `new`.
    pub fn add(&self, rhs: &Point) -> (r: Result<Point, PointError>)
        requires
            self@.wf(),
            rhs@.wf(),
        ensures
            point_result(r) == point_add(self@, rhs@),
            r is Ok ==> r->Ok_0@.wf() && r->Ok_0@.curve == self@.curve,
    {
        if !self.curve.same(&rhs.curve) {
            return Err(PointError::MismatchCurves(self.curve.duplicate(), rhs.curve.duplicate()));
        }
        if self.is_identity() {
            return Ok(rhs.duplicate());
        }
        if rhs.is_identity() {
            return Ok(self.duplicate());
        }
        let (x1, y1) = self.coordinates();
        let (x2, y2) = rhs.coordinates();
        let prime = self.curve.a.prime();
        let zero = BigNat::zero();
        let two_exp = BigNat::from_u32(2);
        if self.same(rhs) {
            if big_eq(y1.number(), &zero) {
                return Ok(Point::identity(self.curve.duplicate()));
            }
            let three = FieldElement::reduced(&BigNat::from_u32(3), prime);
            let two = FieldElement::reduced(&BigNat::from_u32(2), prime);
            let x1_sq = x1.pow(&two_exp);
            let t = three.mul_in_field(&x1_sq);
            let num = self.curve.a.add_in_field(&t);
            let den = two.mul_in_field(y1);
            let slope = num.div_in_field(&den);
            let slope_sq = slope.pow(&two_exp);
            let twice_x1 = two.mul_in_field(x1);
            let x3 = slope_sq.sub_in_field(&twice_x1);
            let d = x1.sub_in_field(&x3);
            let m = slope.mul_in_field(&d);
            let y3 = m.sub_in_field(y1);
            Point::new(x3, y3, self.curve.duplicate())
        } else {
            let x_diff = x2.sub_in_field(x1);
            if big_eq(x_diff.number(), &zero) {
                return Ok(Point::identity(self.curve.duplicate()));
            }
            let y_diff = y2.sub_in_field(y1);
            let slope = y_diff.div_in_field(&x_diff);
            let slope_sq = slope.pow(&two_exp);
            let t = slope_sq.sub_in_field(x1);
            let x3 = t.sub_in_field(x2);
            let d = x1.sub_in_field(&x3);
            let m = slope.mul_in_field(&d);
            let y3 = m.sub_in_field(y1);
            Point::new(x3, y3, self.curve.duplicate())
        }
    }

    /// `scalar * self` by double-and-add: `O(log scalar)` group operations.
    pub fn mul(&self, scalar: &BigNat) -> (r: Result<Point, PointError>)
        requires
            self@.wf(),
        ensures
            point_result(r) == point_mul(self@, scalar@),
            r is Ok ==> r->Ok_0@.wf() && r->Ok_0@.curve == self@.curve,
    {
        let zero = BigNat::zero();
        let one = BigNat::from_u32(1);
        let two = BigNat::from_u32(2);
        let mut acc = Point::identity(self.curve.duplicate());
        let mut base = self.duplicate();
        let mut k = scalar.duplicate();
        while !big_eq(&k, &zero)
            invariant
                acc@.wf(),
                base@.wf(),
                acc@.curve == self@.curve,
                base@.curve == self@.curve,
                zero@ == 0,
                one@ == 1,
                two@ == 2,
                mul_steps(acc@, base@, k@) == point_mul(self@, scalar@),
            decreases k@,
        {
            let bit = big_rem(&k, &two);
            if big_eq(&bit, &one) {
                match acc.add(&base) {
                    Ok(a) => {
                        acc = a;
                    },
                    Err(e) => {
                        return Err(e);
                    },
                }
            }
            k = big_div(&k, &two);
            if !big_eq(&k, &zero) {
                match base.add(&base) {
                    Ok(b) => {
                        base = b;
                    },
                    Err(e) => {
                        return Err(e);
                    },
                }
            }
        }
        Ok(acc)
    }

    fn same(&self, other: &Point) -> (r: bool)
        ensures
            r == (self@ == other@),
    {
        same_coordinate(&self.x, &other.x) && same_coordinate(&self.y, &other.y)
            && self.curve.same(&other.curve)
    }
}

impl PartialEq for Point {
    fn eq(&self, other: &Point) -> (r: bool) {
        self.same(other)
    }
}

impl vstd::std_specs::cmp::PartialEqSpecImpl for Point {
    open spec fn obeys_eq_spec() -> bool {
        true
    }

    open spec fn eq_spec(&self, other: &Point) -> bool {
        self@ == other@
    }
}

/// `u - v` in the field of `p`, as a natural number.
proof fn lemma_fsub_value(u: nat, v: nat, p: nat)
    requires
        u < p,
        v < p,
    ensures
        fsub(u, v, p) == if u >= v {
            (u - v) as nat
        } else {
            (p + u - v) as nat
        },
{
    let m = p as int;
    if u >= v {
        lemma_small_mod((u - v) as nat, p);
    } else {
        lemma_mod_add_multiples_vanish(u - v, m);
        lemma_small_mod((p + u - v) as nat, p);
    }
}

proof fn lemma_neg_mod_zero(c: int, m: int)
    requires
        m > 0,
        c % m == 0,
    ensures
        (-c) % m == 0,
{
    lemma_fundamental_div_mod(c, m);
    assert(-c == (-(c / m)) * m) by (nonlinear_arith)
        requires
            c == m * (c / m) + 0,
    ;
    lemma_mod_multiples_basic(-(c / m), m);
}

/// The chord through two points with distinct x-coordinates does not depend
/// on their order.
proof fn lemma_chord_symmetric(x1: nat, y1: nat, x2: nat, y2: nat, p: nat)
    requires
        is_prime(p),
        x1 < p,
        y1 < p,
        x2 < p,
        y2 < p,
        x1 != x2,
    ensures
        chord_coords(x1, y1, x2, y2, p) == chord_coords(x2, y2, x1, y1, p),
{
    let m = p as int;
    let d = fsub(x2, x1, p);
    let d2 = fsub(x1, x2, p);
    let e = fsub(y2, y1, p);
    let e2 = fsub(y1, y2, p);
    lemma_fsub_value(x2, x1, p);
    lemma_fsub_value(x1, x2, p);
    lemma_fsub_value(y2, y1, p);
    lemma_fsub_value(y1, y2, p);
    assert(d != 0 && d2 == p - d);
    let s = fdiv(e, d, p);
    let s2 = fdiv(e2, d2, p);
    lemma_inverse_times(e, d, p);
    lemma_inverse_times(e2, d2, p);
    assert((s * d) as int % m == e);
    assert((s2 * d2) as int % m == e2);
    // s2 * d2 = s2 * p - s2 * d
    assert(s2 * d2 == m * s2 + (-(s2 * d))) by (nonlinear_arith)
        requires
            d2 == p - d,
            m == p,
    ;
    lemma_mod_multiples_vanish(s2 as int, -(s2 * d), m);
    assert((-(s2 * d)) % m == e2);
    lemma_sub_mod_noop(0, -(s2 * d), m);
    lemma_small_mod(0, p);
    assert((s2 * d) as int % m == (-(e2 as int)) % m);
    if e == 0 {
        assert(e2 == 0);
        assert((s2 * d) as int % m == e);
    } else {
        assert(e2 == p - e);
        lemma_mod_add_multiples_vanish(e as int, m);
        assert((-(e2 as int)) == -m + e);
        vstd::arithmetic::div_mod::lemma_mod_sub_multiples_vanish(e as int, m);
        lemma_small_mod(e, p);
        assert((s2 * d) as int % m == e);
    }
    lemma_small_mod(d, p);
    lemma_cancel(s, s2, d as int, p);
    // the x-coordinate
    let q = fpow(s, 2, p);
    lemma_sub_mod_noop(q - x1, x2 as int, m);
    lemma_sub_mod_noop(q - x2, x1 as int, m);
    lemma_small_mod(x1, p);
    lemma_small_mod(x2, p);
    assert(q - x1 - x2 == q - x2 - x1);
    let x3 = fsub(fsub(q, x1, p), x2, p);
    assert(x3 == fsub(fsub(q, x2, p), x1, p));
    // the y-coordinate
    lemma_mul_mod_noop_right(s as int, x1 - x3, m);
    lemma_mul_mod_noop_right(s as int, x2 - x3, m);
    let a = s * (x1 - x3) - y1;
    let b = s * (x2 - x3) - y2;
    lemma_sub_mod_noop(s * (x1 - x3), y1 as int, m);
    lemma_sub_mod_noop(s * (x2 - x3), y2 as int, m);
    lemma_small_mod(y1, p);
    lemma_small_mod(y2, p);
    assert(fsub(fmul(s, fsub(x1, x3, p), p), y1, p) == a % m);
    assert(fsub(fmul(s, fsub(x2, x3, p), p), y2, p) == b % m);
    lemma_mul_mod_noop_right(s as int, x2 - x1, m);
    assert((x2 - x1) % m == d);
    assert((s * (x2 - x1)) % m == (y2 - y1) % m);
    lemma_mod_equivalence(s * (x2 - x1), y2 - y1, m);
    let c = s * (x2 - x1) - (y2 - y1);
    lemma_neg_mod_zero(c, m);
    assert(a - b == -c) by (nonlinear_arith)
        requires
            a == s * (x1 - x3) - y1,
            b == s * (x2 - x3) - y2,
            c == s * (x2 - x1) - (y2 - y1),
    ;
    lemma_mod_equivalence(a, b, m);
}

/// A sum that `point_add` returns is again a valid point of the same curve.
pub proof fn lemma_add_valid(p: PointValue, q: PointValue)
    requires
        p.wf(),
        q.wf(),
        point_add(p, q) is Ok,
    ensures
        point_add(p, q)->Ok_0.wf(),
        point_add(p, q)->Ok_0.curve == p.curve,
{
    let pr = p.curve.prime();
    if !p.is_identity() && !q.is_identity() && p.curve == q.curve {
        let x1 = p.x->Some_0.number;
        let y1 = p.y->Some_0.number;
        let x2 = q.x->Some_0.number;
        let y2 = q.y->Some_0.number;
        let (dx, dy) = double_coords(x1, y1, p.curve.a.number, pr);
        let (cx, cy) = chord_coords(x1, y1, x2, y2, pr);
        vstd::arithmetic::div_mod::lemma_mod_bound(dx as int, pr as int);
        assert(dx < pr && dy < pr);
        assert(cx < pr && cy < pr);
    }
}

/// The group law is commutative on a curve over a field of prime order.
pub proof fn lemma_add_commutes(p: PointValue, q: PointValue)
    requires
        p.wf(),
        q.wf(),
        p.curve == q.curve,
        is_prime(p.curve.prime()),
    ensures
        point_add(p, q) == point_add(q, p),
{
    if !p.is_identity() && !q.is_identity() && p != q {
        let pr = p.curve.prime();
        let x1 = p.x->Some_0.number;
        let y1 = p.y->Some_0.number;
        let x2 = q.x->Some_0.number;
        let y2 = q.y->Some_0.number;
        lemma_fsub_value(x2, x1, pr);
        lemma_fsub_value(x1, x2, pr);
        if x1 != x2 {
            lemma_chord_symmetric(x1, y1, x2, y2, pr);
        }
    } else if p.is_identity() && q.is_identity() {
        assert(p == q);
    }
}

/// The identity is neutral on both sides: `P + O == P` and `O + P == P`.
pub proof fn lemma_identity_neutral(p: PointValue)
    requires
        p.wf(),
    ensures
        point_add(p, identity_of(p.curve)) == Ok::<PointValue, PointErrorValue>(p),
        point_add(identity_of(p.curve), p) == Ok::<PointValue, PointErrorValue>(p),
{
    if p.is_identity() {
        assert(p == identity_of(p.curve));
    }
}

/// The reflection of a point across the x-axis: `(x, -y)`.
pub open spec fn point_neg(p: PointValue) -> PointValue {
    match p.y {
        Some(y) => PointValue {
            x: p.x,
            y: Some(FieldValue { number: fsub(0, y.number, y.prime), prime: y.prime }),
            curve: p.curve,
        },
        None => p,
    }
}

/// `P + (-P)` is the identity, through the vertical chord (or the vertical
/// tangent where `y == 0`). Excluded: a point with `2y == p`, which is its own
/// reflection without being a point of order two (only possible when `p` is
/// even).
pub proof fn lemma_add_negation(p: PointValue)
    requires
        p.wf(),
        p.is_identity() || 2 * p.y->Some_0.number != p.curve.prime(),
    ensures
        point_add(p, point_neg(p)) == Ok::<PointValue, PointErrorValue>(identity_of(p.curve)),
{
    if !p.is_identity() {
        let pr = p.curve.prime();
        let x1 = p.x->Some_0.number;
        let y1 = p.y->Some_0.number;
        lemma_fsub_value(0, y1, pr);
        lemma_fsub_value(x1, x1, pr);
        if y1 == 0 {
            assert(point_neg(p) == p);
        } else {
            assert(point_neg(p).y->Some_0.number != y1);
        }
    } else {
        assert(p == identity_of(p.curve));
    }
}

/// `3P == (P + P) + P`: double-and-add on the scalar 3 agrees with adding `P`
/// three times, on a curve over a field of prime order.
pub proof fn lemma_triple(p: PointValue)
    requires
        p.wf(),
        is_prime(p.curve.prime()),
    ensures
        point_mul(p, 3) == match point_add(p, p) {
            Ok(d) => point_add(d, p),
            Err(e) => Err(e),
        },
{
    lemma_identity_neutral(p);
    assert(mul_steps(identity_of(p.curve), p, 3) == match point_add(p, p) {
        Ok(d) => mul_steps(p, d, 1),
        Err(e) => Err(e),
    });
    if point_add(p, p) is Ok {
        let d = point_add(p, p)->Ok_0;
        lemma_add_valid(p, p);
        lemma_add_commutes(p, d);
        assert(mul_steps(p, d, 1) == match point_add(p, d) {
            Ok(r) => Ok(r),
            Err(e) => Err::<PointValue, PointErrorValue>(e),
        });
    }
}

} // verus!
