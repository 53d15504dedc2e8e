//! Coordinate axes.

use vstd::prelude::*;

verus! {

/// A coordinate axis.
#[derive(Copy, Clone, Debug, PartialEq, Eq, Structural)]
pub enum Axis {
    X,
    Y,
    Z,
}

impl Axis {
    /// The axis lies in the plane: it is `X` or `Y`.
    pub open spec fn is_planar(self) -> bool {
        self != Axis::Z
    }
}

} // verus!
