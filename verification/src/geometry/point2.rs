//! Points in the plane.

use vstd::prelude::*;
use vstd::std_specs::cmp::PartialOrdSpec;
use vstd::std_specs::ops::{AddSpec, DivSpec, MulSpec, NegSpec, SubSpec};
use std::ops::{Add, AddAssign, Div, DivAssign, Index, IndexMut, Mul, MulAssign, Neg, Sub, SubAssign};
use crate::geometry::axis::Axis;
use crate::geometry::point3::Point3;
use crate::geometry::vector2::{vector2, Vector2};
use crate::geometry::common::{abs, abs_req, abs_spec, max, max_spec, min, min_spec};
use crate::geometry::scalar::Scalar;

verus! {

/// A position in the plane.
#[derive(Copy, Clone, Debug, Default, PartialEq)]
pub struct Point2<T> {
    /// X-coordinate.
    pub x: T,
    /// Y-coordinate.
    pub y: T,
}

/// The point with the given coordinates.
pub fn point2<T>(x: T, y: T) -> (r: Point2<T>)
    ensures
        r.x == x,
        r.y == y,
{
    Point2 { x, y }
}

/// The origin.
pub fn zero_point2<T: Scalar>() -> (r: Point2<T>)
    ensures
        r.x == T::zero_spec(),
        r.y == T::zero_spec(),
{
    point2(T::zero(), T::zero())
}

impl<T> Point2<T> {
    /// The coordinate along `axis`.
    pub open spec fn coordinate(self, axis: Axis) -> T {
        if axis == Axis::X {
            self.x
        } else {
            self.y
        }
    }

    /// The point whose coordinates are the magnitudes of this point's.
    pub fn abs(&self) -> (r: Point2<T>) where T: Scalar + Neg<Output = T> + PartialOrd
        requires
            T::obeys_partial_cmp_spec() ==> abs_req(self.x) && abs_req(self.y),
            !T::obeys_partial_cmp_spec() ==> self.x.neg_req() && self.y.neg_req(),
        ensures
            T::obeys_partial_cmp_spec() && T::obeys_neg_spec() ==> r.x == abs_spec(self.x) && r.y == abs_spec(
                self.y,
            ),
    {
        point2(abs(self.x), abs(self.y))
    }

    /// The point whose coordinates are the lesser of this point's and `other`'s.
    pub fn min(&self, other: &Self) -> (r: Self) where T: PartialOrd + Copy
        ensures
            T::obeys_partial_cmp_spec() ==> r.x == min_spec(self.x, other.x) && r.y == min_spec(self.y, other.y),
    {
        point2(min(self.x, other.x), min(self.y, other.y))
    }

    /// The point whose coordinates are the greater of this point's and `other`'s.
    pub fn max(&self, other: &Self) -> (r: Self) where T: PartialOrd + Copy
        ensures
            T::obeys_partial_cmp_spec() ==> r.x == max_spec(self.x, other.x) && r.y == max_spec(self.y, other.y),
    {
        point2(max(self.x, other.x), max(self.y, other.y))
    }

    /// The point whose coordinates are this point's along `x` and along `y`.
    pub fn permute(&self, x: Axis, y: Axis) -> (r: Self) where T: Copy
        requires
            x.is_planar(),
            y.is_planar(),
        ensures
            r.x == self.coordinate(x),
            r.y == self.coordinate(y),
    {
        point2(self.get(x), self.get(y))
    }

    /// The square of the distance to `other`.
    pub open spec fn distance_squared_spec(self, other: Self) -> T where
        T: Sub<Output = T> + Mul<Output = T> + Add<Output = T>,
     {
        let dx = self.x.sub_spec(other.x);
        let dy = self.y.sub_spec(other.y);
        dx.mul_spec(dx).add_spec(dy.mul_spec(dy))
    }

    /// Whether the square of the distance to `other` can be computed.
    pub open spec fn distance_squared_req(self, other: Self) -> bool where
        T: Sub<Output = T> + Mul<Output = T> + Add<Output = T>,
     {
        let dx = self.x.sub_spec(other.x);
        let dy = self.y.sub_spec(other.y);
        &&& T::obeys_sub_spec()
        &&& T::obeys_mul_spec()
        &&& self.x.sub_req(other.x)
        &&& self.y.sub_req(other.y)
        &&& dx.mul_req(dx)
        &&& dy.mul_req(dy)
        &&& dx.mul_spec(dx).add_req(dy.mul_spec(dy))
    }

    /// The square of the distance to `other`.
    pub fn distance_squared(self, other: Self) -> (r: T) where
        T: Sub<Output = T> + Mul<Output = T> + Add<Output = T> + Copy,

        requires
            self.distance_squared_req(other),
        ensures
            T::obeys_add_spec() ==> r == self.distance_squared_spec(other),
    {
        let dx = self.x - other.x;
        let dy = self.y - other.y;
        dx * dx + dy * dy
    }

    /// The coordinate along `axis`.
    pub fn get(&self, axis: Axis) -> (r: T) where T: Copy
        requires
            axis.is_planar(),
        ensures
            r == self.coordinate(axis),
    {
        match axis {
            Axis::X => self.x,
            _ => self.y,
        }
    }
}

impl<T: Add<Output = T>> vstd::std_specs::ops::AddSpecImpl for Point2<T> {
    open spec fn obeys_add_spec() -> bool {
        T::obeys_add_spec()
    }

    open spec fn add_req(self, other: Self) -> bool {
        self.x.add_req(other.x) && self.y.add_req(other.y)
    }

    open spec fn add_spec(self, other: Self) -> Point2<T> {
        Point2 { x: self.x.add_spec(other.x), y: self.y.add_spec(other.y) }
    }
}

impl<T: Add<Output = T>> Add for Point2<T> {
    type Output = Point2<T>;

    /// The coordinate-wise sum.
    fn add(self, other: Self) -> (r: Point2<T>) {
        point2(self.x + other.x, self.y + other.y)
    }
}

impl<T: Add<Output = T> + Copy> AddAssign for Point2<T> {
    /// Adds `other` coordinate by coordinate.
    fn add_assign(&mut self, other: Self)
        requires
            old(self).x.add_req(other.x),
            old(self).y.add_req(other.y),
        ensures
            T::obeys_add_spec() ==> *final(self) == old(self).add_spec(other),
    {
        *self = point2(self.x + other.x, self.y + other.y);
    }
}

impl<T: Add<Output = T>> vstd::std_specs::ops::AddSpecImpl<Vector2<T>> for Point2<T> {
    open spec fn obeys_add_spec() -> bool {
        T::obeys_add_spec()
    }

    open spec fn add_req(self, other: Vector2<T>) -> bool {
        self.x.add_req(other.x) && self.y.add_req(other.y)
    }

    open spec fn add_spec(self, other: Vector2<T>) -> Point2<T> {
        Point2 { x: self.x.add_spec(other.x), y: self.y.add_spec(other.y) }
    }
}

impl<T: Add<Output = T>> Add<Vector2<T>> for Point2<T> {
    type Output = Point2<T>;

    /// The point displaced by `other`.
    fn add(self, other: Vector2<T>) -> (r: Point2<T>) {
        point2(self.x + other.x, self.y + other.y)
    }
}

impl<T: Add<Output = T> + Copy> AddAssign<Vector2<T>> for Point2<T> {
    /// Displaces the point by `other`.
    fn add_assign(&mut self, other: Vector2<T>)
        requires
            old(self).x.add_req(other.x),
            old(self).y.add_req(other.y),
        ensures
            T::obeys_add_spec() ==> *final(self) == old(self).add_spec(other),
    {
        *self = point2(self.x + other.x, self.y + other.y);
    }
}

impl<T: Sub<Output = T>> vstd::std_specs::ops::SubSpecImpl for Point2<T> {
    open spec fn obeys_sub_spec() -> bool {
        T::obeys_sub_spec()
    }

    open spec fn sub_req(self, other: Self) -> bool {
        self.x.sub_req(other.x) && self.y.sub_req(other.y)
    }

    open spec fn sub_spec(self, other: Self) -> Vector2<T> {
        Vector2 { x: self.x.sub_spec(other.x), y: self.y.sub_spec(other.y) }
    }
}

impl<T: Sub<Output = T>> Sub for Point2<T> {
    type Output = Vector2<T>;

    /// The vector from `other` to this point.
    fn sub(self, other: Self) -> (r: Vector2<T>) {
        vector2(self.x - other.x, self.y - other.y)
    }
}

impl<T: Sub<Output = T>> vstd::std_specs::ops::SubSpecImpl<Vector2<T>> for Point2<T> {
    open spec fn obeys_sub_spec() -> bool {
        T::obeys_sub_spec()
    }

    open spec fn sub_req(self, other: Vector2<T>) -> bool {
        self.x.sub_req(other.x) && self.y.sub_req(other.y)
    }

    open spec fn sub_spec(self, other: Vector2<T>) -> Point2<T> {
        Point2 { x: self.x.sub_spec(other.x), y: self.y.sub_spec(other.y) }
    }
}

impl<T: Sub<Output = T>> Sub<Vector2<T>> for Point2<T> {
    type Output = Point2<T>;

    /// The point displaced against `other`.
    fn sub(self, other: Vector2<T>) -> (r: Point2<T>) {
        point2(self.x - other.x, self.y - other.y)
    }
}

impl<T: Sub<Output = T> + Copy> SubAssign<Vector2<T>> for Point2<T> {
    /// Displaces the point against `other`.
    fn sub_assign(&mut self, other: Vector2<T>)
        requires
            old(self).x.sub_req(other.x),
            old(self).y.sub_req(other.y),
        ensures
            T::obeys_sub_spec() ==> *final(self) == old(self).sub_spec(other),
    {
        *self = point2(self.x - other.x, self.y - other.y);
    }
}

impl<T: Mul<Output = T> + Copy> vstd::std_specs::ops::MulSpecImpl<T> for Point2<T> {
    open spec fn obeys_mul_spec() -> bool {
        T::obeys_mul_spec()
    }

    open spec fn mul_req(self, f: T) -> bool {
        f.mul_req(self.x) && f.mul_req(self.y)
    }

    open spec fn mul_spec(self, f: T) -> Point2<T> {
        Point2 { x: f.mul_spec(self.x), y: f.mul_spec(self.y) }
    }
}

impl<T: Mul<Output = T> + Copy> Mul<T> for Point2<T> {
    type Output = Point2<T>;

    /// The point scaled by `f`.
    fn mul(self, f: T) -> (r: Point2<T>) {
        point2(f * self.x, f * self.y)
    }
}

impl<T: Mul<Output = T> + Copy> MulAssign<T> for Point2<T> {
    /// Scales the point by `f`.
    fn mul_assign(&mut self, f: T)
        requires
            f.mul_req(old(self).x),
            f.mul_req(old(self).y),
        ensures
            T::obeys_mul_spec() ==> *final(self) == old(self).mul_spec(f),
    {
        *self = point2(f * self.x, f * self.y);
    }
}

/// The point scaled by the reciprocal of `f`: each coordinate times `1 / f`.
pub open spec fn scaled_by_reciprocal<T: Scalar + Div<Output = T> + Mul<Output = T>>(p: Point2<T>, f: T) -> Point2<T> {
    let inv = T::one_spec().div_spec(f);
    Point2 { x: inv.mul_spec(p.x), y: inv.mul_spec(p.y) }
}

/// Whether a point can be scaled by the reciprocal of `f`: `f` is not zero, and
/// neither the division nor the two products leave the number type.
pub open spec fn reciprocal_req<T: Scalar + Div<Output = T> + Mul<Output = T>>(p: Point2<T>, f: T) -> bool {
    let inv = T::one_spec().div_spec(f);
    &&& f != T::zero_spec()
    &&& T::obeys_div_spec()
    &&& T::one_spec().div_req(f)
    &&& inv.mul_req(p.x)
    &&& inv.mul_req(p.y)
}

impl<T: Scalar + Div<Output = T> + Mul<Output = T>> vstd::std_specs::ops::DivSpecImpl<T> for Point2<T> {
    open spec fn obeys_div_spec() -> bool {
        T::obeys_mul_spec()
    }

    open spec fn div_req(self, f: T) -> bool {
        reciprocal_req(self, f)
    }

    open spec fn div_spec(self, f: T) -> Point2<T> {
        scaled_by_reciprocal(self, f)
    }
}

impl<T: Scalar + Div<Output = T> + Mul<Output = T>> Div<T> for Point2<T> {
    type Output = Point2<T>;

    /// The point scaled by `1 / f`.
    fn div(self, f: T) -> (r: Point2<T>) {
        if f.is_zero() {
            return vstd::pervasive::unreached();
        }
        let inv = T::one() / f;
        point2(inv * self.x, inv * self.y)
    }
}

impl<T: Scalar + Div<Output = T> + Mul<Output = T>> DivAssign<T> for Point2<T> {
    /// Scales the point by `1 / f`.
    fn div_assign(&mut self, f: T)
        requires
            reciprocal_req(*old(self), f),
        ensures
            T::obeys_mul_spec() ==> *final(self) == scaled_by_reciprocal(*old(self), f),
    {
        if f.is_zero() {
            return vstd::pervasive::unreached();
        }
        let inv = T::one() / f;
        *self = point2(inv * self.x, inv * self.y);
    }
}

impl<T: Neg<Output = T>> vstd::std_specs::ops::NegSpecImpl for Point2<T> {
    open spec fn obeys_neg_spec() -> bool {
        T::obeys_neg_spec()
    }

    open spec fn neg_req(self) -> bool {
        self.x.neg_req() && self.y.neg_req()
    }

    open spec fn neg_spec(self) -> Point2<T> {
        Point2 { x: self.x.neg_spec(), y: self.y.neg_spec() }
    }
}

impl<T: Neg<Output = T>> Neg for Point2<T> {
    type Output = Point2<T>;

    /// The point mirrored through the origin.
    fn neg(self) -> (r: Point2<T>) {
        point2(self.x.neg(), self.y.neg())
    }
}

impl<T> vstd::std_specs::core::IndexSpecImpl<Axis> for Point2<T> {
    open spec fn index_req(&self, axis: &Axis) -> bool {
        axis.is_planar()
    }
}

impl<T> Index<Axis> for Point2<T> {
    type Output = T;

    /// The coordinate along `axis`, which is `X` or `Y`.
    fn index(&self, axis: Axis) -> (r: &T)
        ensures
            *r == self.coordinate(axis),
    {
        match axis {
            Axis::X => &self.x,
            Axis::Y => &self.y,
            Axis::Z => vstd::pervasive::unreached(),
        }
    }
}

impl<T> IndexMut<Axis> for Point2<T> {
    /// The coordinate along `axis`, which is `X` or `Y`, to be written through.
    fn index_mut(&mut self, axis: Axis) -> (r: &mut T)
        requires
            axis.is_planar(),
        ensures
            *r == old(self).coordinate(axis),
            axis == Axis::X ==> final(self).x == *final(r) && final(self).y == old(self).y,
            axis == Axis::Y ==> final(self).y == *final(r) && final(self).x == old(self).x,
    {
        match axis {
            Axis::X => &mut self.x,
            Axis::Y => &mut self.y,
            Axis::Z => vstd::pervasive::unreached(),
        }
    }
}

impl<T> vstd::std_specs::convert::FromSpecImpl<Vector2<T>> for Point2<T> {
    open spec fn obeys_from_spec() -> bool {
        true
    }

    open spec fn from_spec(v: Vector2<T>) -> Point2<T> {
        Point2 { x: v.x, y: v.y }
    }
}

impl<T> From<Vector2<T>> for Point2<T> {
    /// The point that `v` leads to from the origin.
    fn from(v: Vector2<T>) -> (r: Point2<T>) {
        Point2 { x: v.x, y: v.y }
    }
}

impl<T> vstd::std_specs::convert::FromSpecImpl<Point3<T>> for Point2<T> {
    open spec fn obeys_from_spec() -> bool {
        true
    }

    open spec fn from_spec(p: Point3<T>) -> Point2<T> {
        Point2 { x: p.x, y: p.y }
    }
}

impl<T> From<Point3<T>> for Point2<T> {
    /// The point `p` without its z-coordinate.
    fn from(p: Point3<T>) -> (r: Point2<T>) {
        Point2 { x: p.x, y: p.y }
    }
}

} // verus!
