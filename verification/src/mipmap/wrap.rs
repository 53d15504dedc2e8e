//! Boundary conventions: what an index outside a level's extent refers to.

use vstd::prelude::*;
use vstd::string::StringExecFns;
use crate::mipmap::fixed::modulo;

verus! {

/// Policy for texel indices that fall outside the stored image.
#[derive(Copy, Clone, Debug, PartialEq, Eq, Structural)]
pub enum ImageWrap {
    /// The image tiles the plane: indices are taken modulo the extent.
    Repeat,
    /// Everything outside the image is zero.
    Black,
    /// Indices are clamped to the nearest edge texel.
    Clamp,
}

/// How a texture lookup is filtered.
#[derive(Copy, Clone, Debug, PartialEq, Eq, Structural)]
pub enum FilteringMethod {
    /// Blend of bilinear samples from the two nearest pyramid levels.
    Trilinear,
    /// Elliptically weighted average over the lookup's footprint.
    Ewa,
}

impl ImageWrap {
    /// The stored index that `i` refers to on an axis of `n` texels, or `None`
    /// where the texel reads as zero.
    pub open spec fn resolve_spec(self, i: int, n: int) -> Option<int> {
        match self {
            ImageWrap::Repeat => Some(i % n),
            ImageWrap::Clamp => Some(
                if i < 0 {
                    0
                } else if i >= n {
                    n - 1
                } else {
                    i
                },
            ),
            ImageWrap::Black => if 0 <= i < n {
                Some(i)
            } else {
                None
            },
        }
    }

    /// The wrap mode a configuration string names: `"black"`, `"clamp"`, and
    /// `Repeat` for `"repeat"` and for every other string.
    pub open spec fn from_name_spec(name: Seq<char>) -> ImageWrap {
        if name == "black"@ {
            ImageWrap::Black
        } else if name == "clamp"@ {
            ImageWrap::Clamp
        } else {
            ImageWrap::Repeat
        }
    }

    /// Resolves index `i` on an axis of `n` texels.
    pub fn resolve(self, i: i128, n: usize) -> (r: Option<usize>)
        requires
            n >= 1,
        ensures
            match self.resolve_spec(i as int, n as int) {
                Some(j) => r == Some(j as usize) && 0 <= j < n,
                None => r.is_none(),
            },
    {
        let m: i128 = n as i128;
        match self {
            ImageWrap::Repeat => Some(modulo(i, m) as usize),
            ImageWrap::Clamp => {
                if i < 0 {
                    Some(0)
                } else if i >= m {
                    Some(n - 1)
                } else {
                    Some(i as usize)
                }
            },
            ImageWrap::Black => {
                if 0 <= i && i < m {
                    Some(i as usize)
                } else {
                    None
                }
            },
        }
    }

    /// Reads a wrap mode from its configuration name. An unknown name is not
    /// an error: it selects `Repeat`.
    pub fn from_name(name: &str) -> (r: ImageWrap)
        ensures
            r == Self::from_name_spec(name@),
    {
        let owned = String::from_str(name);
        if owned == String::from_str("black") {
            ImageWrap::Black
        } else if owned == String::from_str("clamp") {
            ImageWrap::Clamp
        } else {
            ImageWrap::Repeat
        }
    }
}

/// Index `-1` is the last texel under `Repeat`, the first under `Clamp`, and
/// no texel at all under `Black`.
pub proof fn lemma_wrap_of_minus_one(n: int)
    requires
        n >= 1,
    ensures
        ImageWrap::Repeat.resolve_spec(-1, n) == Some(n - 1),
        ImageWrap::Clamp.resolve_spec(-1, n) == Some(0int),
        ImageWrap::Black.resolve_spec(-1, n) == None::<int>,
{
    assert((-1int) % n == n - 1) by (nonlinear_arith)
        requires
            n >= 1,
    ;
}

/// An index inside the extent refers to itself under every wrap mode.
pub proof fn lemma_wrap_in_range(wrap: ImageWrap, i: int, n: int)
    requires
        0 <= i < n,
    ensures
        wrap.resolve_spec(i, n) == Some(i),
{
    vstd::arithmetic::div_mod::lemma_small_mod(i as nat, n as nat);
}

} // verus!
