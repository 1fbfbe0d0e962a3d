//! Points on a short Weierstrass curve `y^2 = x^3 + a*x + b` over a finite
//! field.
//!
//! A point is either a coordinate pair that satisfies the curve equation
//! modulo the shared prime, or the point at infinity, the curve group's
//! identity, written as the absence of both coordinates. Membership is
//! checked once, at construction, and never again: a well-formed `Point`
//! stays well-formed.

use vstd::prelude::*;

use crate::bigint::big_eq;
use crate::field::{fe_add, fe_eq, fe_mul, ECCError, FieldElement};

verus! {

/// Whether `(x, y)` satisfies `y^2 = x^3 + a*x + b` in the field of order
/// `p`, with both sides computed by the field operations.
pub open spec fn on_curve(x: int, y: int, a: int, b: int, p: int) -> bool {
    fe_mul(y, y, p) == fe_add(fe_add(fe_mul(fe_mul(x, x, p), x, p), fe_mul(a, x, p), p), b, p)
}

/// Whether two optional coordinates agree: both absent, or both present and
/// standing for the same value of the same field.
pub open spec fn opt_fe_eq(a: Option<FieldElement>, b: Option<FieldElement>) -> bool {
    match (a, b) {
        (Some(ae), Some(be)) => fe_eq(ae, be),
        (None, None) => true,
        _ => false,
    }
}

/// A point of the curve `y^2 = x^3 + a*x + b`: either both coordinates, on
/// the curve, or neither, the point at infinity.
#[derive(Debug)]
pub struct Point {
    pub x: Option<FieldElement>,
    pub y: Option<FieldElement>,
    pub a: FieldElement,
    pub b: FieldElement,
}

impl Point {
    /// Whether this is the point at infinity, the curve's identity element.
    pub open spec fn is_infinity(self) -> bool {
        self.x is None && self.y is None
    }

    /// Well-formed: the coefficients are field elements, and the coordinates
    /// are either both absent or both present, in the coefficients' field,
    /// and on the curve.
    pub open spec fn wf(self) -> bool {
        &&& self.a.wf()
        &&& self.b.wf()
        &&& match (self.x, self.y) {
            (Some(xe), Some(ye)) => {
                &&& xe.wf()
                &&& ye.wf()
                &&& xe.modulus() == ye.modulus()
                &&& xe.modulus() == self.a.modulus()
                &&& xe.modulus() == self.b.modulus()
                &&& self.a.modulus() == self.b.modulus()
                &&& on_curve(xe.value(), ye.value(), self.a.value(), self.b.value(), xe.modulus())
            },
            (None, None) => true,
            _ => false,
        }
    }

    /// Builds a point of the curve with coefficients `a` and `b`.
    ///
    /// Absent coordinates make the point at infinity, valid on any curve.
    /// Present coordinates must lie in one field together with the
    /// coefficients — else a `TypeError`, found before any arithmetic — and
    /// must satisfy the curve equation — else a `ValueError`. A point with
    /// exactly one coordinate is malformed: a `ValueError` as well.
    pub fn new(
        x: Option<FieldElement>,
        y: Option<FieldElement>,
        a: FieldElement,
        b: FieldElement,
    ) -> (r: Result<Point, ECCError>)
        requires
            a.wf(),
            b.wf(),
            (x matches Some(xe) ==> xe.wf()),
            (y matches Some(ye) ==> ye.wf()),
        ensures
            r is Ok <==> ((x is None && y is None) || (x matches Some(xe) && y matches Some(ye)
                && xe.modulus() == ye.modulus() && xe.modulus() == a.modulus() && xe.modulus()
                == b.modulus() && on_curve(xe.value(), ye.value(), a.value(), b.value(),
            xe.modulus()))),
            (r matches Ok(pt) ==> pt.wf() && pt.x == x && pt.y == y && pt.a == a && pt.b == b),
            (r matches Err(e) ==> (e is TypeError <==> (x is Some && y is Some && !(
            x->0.modulus() == y->0.modulus() && x->0.modulus() == a.modulus() && x->0.modulus()
                == b.modulus())))),
    {
        match (x, y) {
            (Option::None, Option::None) => Ok(Point { x: None, y: None, a, b }),
            (Option::Some(xe), Option::Some(ye)) => {
                if !(big_eq(&xe.prime, &ye.prime) && big_eq(&xe.prime, &a.prime) && big_eq(
                    &xe.prime,
                    &b.prime,
                )) {
                    Err(ECCError::TypeError(
                        "point coordinates and coefficients lie in different fields".to_string(),
                    ))
                } else if is_valid(&xe, &ye, &a, &b) {
                    Ok(Point { x: Some(xe), y: Some(ye), a, b })
                } else {
                    Err(ECCError::ValueError("point is not on the curve".to_string()))
                }
            },
            _ => Err(ECCError::ValueError(
                "point must have both coordinates or neither".to_string(),
            )),
        }
    }

    /// Whether this point is the point at infinity.
    pub fn is_inf(&self) -> (r: bool)
        ensures
            r == self.is_infinity(),
    {
        self.x.is_none() && self.y.is_none()
    }
}

/// Whether `(x, y)` lies on the curve with coefficients `a` and `b`, checked
/// with the field operations: `y^2` against `x^3 + a*x + b`.
fn is_valid(x: &FieldElement, y: &FieldElement, a: &FieldElement, b: &FieldElement) -> (r: bool)
    requires
        x.wf(),
        y.wf(),
        a.wf(),
        b.wf(),
        x.modulus() == y.modulus(),
        x.modulus() == a.modulus(),
        x.modulus() == b.modulus(),
    ensures
        r == on_curve(x.value(), y.value(), a.value(), b.value(), x.modulus()),
{
    let y_sq = y.clone().mul(y.clone()).unwrap();
    let x_sq = x.clone().mul(x.clone()).unwrap();
    let x_cube = x_sq.mul(x.clone()).unwrap();
    let ax = a.clone().mul(x.clone()).unwrap();
    let rhs = x_cube.add(ax).unwrap().add(b.clone()).unwrap();
    y_sq == rhs
}

impl PartialEq for Point {
    fn eq(&self, other: &Self) -> (r: bool) {
        let x_agree = match (&self.x, &other.x) {
            (Option::Some(p), Option::Some(q)) => p.eq(q),
            (Option::None, Option::None) => true,
            _ => false,
        };
        let y_agree = match (&self.y, &other.y) {
            (Option::Some(p), Option::Some(q)) => p.eq(q),
            (Option::None, Option::None) => true,
            _ => false,
        };
        x_agree && y_agree && self.a.eq(&other.a) && self.b.eq(&other.b)
    }
}

impl vstd::std_specs::cmp::PartialEqSpecImpl for Point {
    open spec fn obeys_eq_spec() -> bool {
        true
    }

    open spec fn eq_spec(&self, other: &Self) -> bool {
        points_agree(*self, *other)
    }
}

/// Whether two points agree component by component: what `==` on [`Point`]
/// returns.
pub open spec fn points_agree(p1: Point, p2: Point) -> bool {
    opt_fe_eq(p1.x, p2.x) && opt_fe_eq(p1.y, p2.y) && fe_eq(p1.a, p2.a) && fe_eq(p1.b, p2.b)
}

/// Points built from coordinates and coefficients that stand for the same
/// field values compare equal; in particular, two constructions of the point
/// at infinity over one curve do.
pub proof fn lemma_points_equal(p1: Point, p2: Point)
    requires
        opt_fe_eq(p1.x, p2.x),
        opt_fe_eq(p1.y, p2.y),
        fe_eq(p1.a, p2.a),
        fe_eq(p1.b, p2.b),
    ensures
        points_agree(p1, p2),
{
}

} // verus!
