//! Scaling a point from the left: `f * p` for the integer types.

use vstd::prelude::*;
use std::ops::Mul;
use crate::geometry::point2::{point2, Point2};

verus! {

impl vstd::std_specs::ops::MulSpecImpl<Point2<i8>> for i8 {
    open spec fn obeys_mul_spec() -> bool {
        true
    }

    open spec fn mul_req(self, p: Point2<i8>) -> bool {
        &&& i8::MIN <= self * p.x <= i8::MAX
        &&& i8::MIN <= self * p.y <= i8::MAX
    }

    open spec fn mul_spec(self, p: Point2<i8>) -> Point2<i8> {
        Point2 { x: (self * p.x) as i8, y: (self * p.y) as i8 }
    }
}

impl Mul<Point2<i8>> for i8 {
    type Output = Point2<i8>;

    /// The point `p` scaled by this number.
    fn mul(self, p: Point2<i8>) -> (r: Point2<i8>) {
        point2(self * p.x, self * p.y)
    }
}

impl vstd::std_specs::ops::MulSpecImpl<Point2<i16>> for i16 {
    open spec fn obeys_mul_spec() -> bool {
        true
    }

    open spec fn mul_req(self, p: Point2<i16>) -> bool {
        &&& i16::MIN <= self * p.x <= i16::MAX
        &&& i16::MIN <= self * p.y <= i16::MAX
    }

    open spec fn mul_spec(self, p: Point2<i16>) -> Point2<i16> {
        Point2 { x: (self * p.x) as i16, y: (self * p.y) as i16 }
    }
}

impl Mul<Point2<i16>> for i16 {
    type Output = Point2<i16>;

    /// The point `p` scaled by this number.
    fn mul(self, p: Point2<i16>) -> (r: Point2<i16>) {
        point2(self * p.x, self * p.y)
    }
}

impl vstd::std_specs::ops::MulSpecImpl<Point2<i32>> for i32 {
    open spec fn obeys_mul_spec() -> bool {
        true
    }

    open spec fn mul_req(self, p: Point2<i32>) -> bool {
        &&& i32::MIN <= self * p.x <= i32::MAX
        &&& i32::MIN <= self * p.y <= i32::MAX
    }

    open spec fn mul_spec(self, p: Point2<i32>) -> Point2<i32> {
        Point2 { x: (self * p.x) as i32, y: (self * p.y) as i32 }
    }
}

impl Mul<Point2<i32>> for i32 {
    type Output = Point2<i32>;

    /// The point `p` scaled by this number.
    fn mul(self, p: Point2<i32>) -> (r: Point2<i32>) {
        point2(self * p.x, self * p.y)
    }
}

impl vstd::std_specs::ops::MulSpecImpl<Point2<i64>> for i64 {
    open spec fn obeys_mul_spec() -> bool {
        true
    }

    open spec fn mul_req(self, p: Point2<i64>) -> bool {
        &&& i64::MIN <= self * p.x <= i64::MAX
        &&& i64::MIN <= self * p.y <= i64::MAX
    }

    open spec fn mul_spec(self, p: Point2<i64>) -> Point2<i64> {
        Point2 { x: (self * p.x) as i64, y: (self * p.y) as i64 }
    }
}

impl Mul<Point2<i64>> for i64 {
    type Output = Point2<i64>;

    /// The point `p` scaled by this number.
    fn mul(self, p: Point2<i64>) -> (r: Point2<i64>) {
        point2(self * p.x, self * p.y)
    }
}

impl vstd::std_specs::ops::MulSpecImpl<Point2<u8>> for u8 {
    open spec fn obeys_mul_spec() -> bool {
        true
    }

    open spec fn mul_req(self, p: Point2<u8>) -> bool {
        &&& u8::MIN <= self * p.x <= u8::MAX
        &&& u8::MIN <= self * p.y <= u8::MAX
    }

    open spec fn mul_spec(self, p: Point2<u8>) -> Point2<u8> {
        Point2 { x: (self * p.x) as u8, y: (self * p.y) as u8 }
    }
}

impl Mul<Point2<u8>> for u8 {
    type Output = Point2<u8>;

    /// The point `p` scaled by this number.
    fn mul(self, p: Point2<u8>) -> (r: Point2<u8>) {
        point2(self * p.x, self * p.y)
    }
}

impl vstd::std_specs::ops::MulSpecImpl<Point2<u16>> for u16 {
    open spec fn obeys_mul_spec() -> bool {
        true
    }

    open spec fn mul_req(self, p: Point2<u16>) -> bool {
        &&& u16::MIN <= self * p.x <= u16::MAX
        &&& u16::MIN <= self * p.y <= u16::MAX
    }

    open spec fn mul_spec(self, p: Point2<u16>) -> Point2<u16> {
        Point2 { x: (self * p.x) as u16, y: (self * p.y) as u16 }
    }
}

impl Mul<Point2<u16>> for u16 {
    type Output = Point2<u16>;

    /// The point `p` scaled by this number.
    fn mul(self, p: Point2<u16>) -> (r: Point2<u16>) {
        point2(self * p.x, self * p.y)
    }
}

impl vstd::std_specs::ops::MulSpecImpl<Point2<u32>> for u32 {
    open spec fn obeys_mul_spec() -> bool {
        true
    }

    open spec fn mul_req(self, p: Point2<u32>) -> bool {
        &&& u32::MIN <= self * p.x <= u32::MAX
        &&& u32::MIN <= self * p.y <= u32::MAX
    }

    open spec fn mul_spec(self, p: Point2<u32>) -> Point2<u32> {
        Point2 { x: (self * p.x) as u32, y: (self * p.y) as u32 }
    }
}

impl Mul<Point2<u32>> for u32 {
    type Output = Point2<u32>;

    /// The point `p` scaled by this number.
    fn mul(self, p: Point2<u32>) -> (r: Point2<u32>) {
        point2(self * p.x, self * p.y)
    }
}

impl vstd::std_specs::ops::MulSpecImpl<Point2<u64>> for u64 {
    open spec fn obeys_mul_spec() -> bool {
        true
    }

    open spec fn mul_req(self, p: Point2<u64>) -> bool {
        &&& u64::MIN <= self * p.x <= u64::MAX
        &&& u64::MIN <= self * p.y <= u64::MAX
    }

    open spec fn mul_spec(self, p: Point2<u64>) -> Point2<u64> {
        Point2 { x: (self * p.x) as u64, y: (self * p.y) as u64 }
    }
}

impl Mul<Point2<u64>> for u64 {
    type Output = Point2<u64>;

    /// The point `p` scaled by this number.
    fn mul(self, p: Point2<u64>) -> (r: Point2<u64>) {
        point2(self * p.x, self * p.y)
    }
}

} // verus!
