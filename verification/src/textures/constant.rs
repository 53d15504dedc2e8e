//! The texture that has one value everywhere.

use vstd::prelude::*;
use crate::textures::imagemap::Texture;

verus! {

/// A texture with the same value at every surface point.
#[derive(Copy, Clone, Debug)]
pub struct ConstantTexture<R> {
    /// The value.
    pub value: R,
}

impl<R> ConstantTexture<R> {
    /// The texture whose value is `value` everywhere.
    pub fn new(value: R) -> (r: Self)
        ensures
            r.value == value,
    {
        ConstantTexture { value }
    }
}

impl<S, R: Copy> Texture<S, R> for ConstantTexture<R> {
    open spec fn has_value(&self, si: &S, value: R) -> bool {
        value == self.value
    }

    /// The one value.
    fn evaluate(&self, si: &S) -> (value: R) {
        self.value
    }
}

} // verus!
