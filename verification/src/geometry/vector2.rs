//! Vectors in the plane.

use vstd::prelude::*;

verus! {

/// A displacement in the plane.
#[derive(Copy, Clone, Debug, Default, PartialEq)]
pub struct Vector2<T> {
    /// X-component.
    pub x: T,
    /// Y-component.
    pub y: T,
}

/// The vector with the given components.
pub fn vector2<T>(x: T, y: T) -> (r: Vector2<T>)
    ensures
        r.x == x,
        r.y == y,
{
    Vector2 { x, y }
}

} // verus!
