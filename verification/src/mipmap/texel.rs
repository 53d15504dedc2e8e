//! Texel types: what an image stores at each position.
//!
//! A texel is a fixed number of channels, each a fixed-point number. Filtering
//! works channel by channel.

use vstd::prelude::*;
use crate::mipmap::fixed::Fixed;

verus! {

/// A value made of one or more fixed-point channels.
pub trait Texel: Sized {
    /// Number of channels.
    spec fn channel_count() -> nat;

    /// Channel `c`.
    spec fn channel(&self, c: int) -> Fixed;

    /// A texel has at least one channel and at most four.
    proof fn lemma_channel_count()
        ensures
            1 <= Self::channel_count() <= 4,
    ;

    /// Number of channels.
    fn channels() -> (n: usize)
        ensures
            n == Self::channel_count(),
    ;

    /// Channel `c`.
    fn get(&self, c: usize) -> (v: Fixed)
        requires
            c < Self::channel_count(),
        ensures
            v == self.channel(c as int),
    ;

    /// The texel with the given channels.
    fn from_channels(values: &Vec<Fixed>) -> (r: Self)
        requires
            values@.len() == Self::channel_count(),
        ensures
            forall|c: int| 0 <= c < Self::channel_count() ==> r.channel(c) == #[trigger] values@[c],
    ;
}

impl Texel for Fixed {
    open spec fn channel_count() -> nat {
        1
    }

    open spec fn channel(&self, c: int) -> Fixed {
        *self
    }

    proof fn lemma_channel_count() {
    }

    fn channels() -> (n: usize) {
        1
    }

    fn get(&self, c: usize) -> (v: Fixed) {
        *self
    }

    fn from_channels(values: &Vec<Fixed>) -> (r: Fixed) {
        values[0]
    }
}

/// A colour of a red, a green and a blue channel.
#[derive(Copy, Clone, Debug, PartialEq, Eq, Structural)]
pub struct Rgb {
    pub r: Fixed,
    pub g: Fixed,
    pub b: Fixed,
}

impl Texel for Rgb {
    open spec fn channel_count() -> nat {
        3
    }

    open spec fn channel(&self, c: int) -> Fixed {
        if c == 0 {
            self.r
        } else if c == 1 {
            self.g
        } else {
            self.b
        }
    }

    proof fn lemma_channel_count() {
    }

    fn channels() -> (n: usize) {
        3
    }

    fn get(&self, c: usize) -> (v: Fixed) {
        if c == 0 {
            self.r
        } else if c == 1 {
            self.g
        } else {
            self.b
        }
    }

    fn from_channels(values: &Vec<Fixed>) -> (r: Rgb) {
        Rgb { r: values[0], g: values[1], b: values[2] }
    }
}

} // verus!
