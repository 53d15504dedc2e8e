//! Points in space.

use vstd::prelude::*;

verus! {

/// A position in space.
#[derive(Copy, Clone, Debug, Default, PartialEq)]
pub struct Point3<T> {
    /// X-coordinate.
    pub x: T,
    /// Y-coordinate.
    pub y: T,
    /// Z-coordinate.
    pub z: T,
}

/// The point with the given coordinates.
pub fn point3<T>(x: T, y: T, z: T) -> (r: Point3<T>)
    ensures
        r.x == x,
        r.y == y,
        r.z == z,
{
    Point3 { x, y, z }
}

} // verus!
