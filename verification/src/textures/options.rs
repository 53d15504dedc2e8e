//! What identifies a MIP map to be loaded: the image file and the options it
//! is read and filtered with.

use vstd::prelude::*;
use vstd::string::{StrSliceExecFns, StringExecFns};
use crate::mipmap::fixed::{Fixed, ONE};
use crate::mipmap::wrap::{FilteringMethod, ImageWrap};

verus! {

/// The anisotropy cap of a texture that names none: 8.
pub const DEFAULT_MAX_ANISOTROPY: Fixed = 0x8_0000;

/// The request for a MIP map. Equal requests are answered with one shared map.
#[derive(Debug)]
pub struct TexInfo {
    /// Path of the image file.
    pub path: String,
    /// How lookups are filtered.
    pub filtering_method: FilteringMethod,
    /// What lies outside the image.
    pub wrap_mode: ImageWrap,
    /// Factor applied to every texel.
    pub scale: Fixed,
    /// Whether texel values are gamma-encoded and to be decoded.
    pub gamma: bool,
    /// Cap on the anisotropy of a footprint.
    pub max_anisotropy: Fixed,
}

/// The mathematical content of a [`TexInfo`].
pub struct TexKey {
    pub path: Seq<char>,
    pub filtering_method: FilteringMethod,
    pub wrap_mode: ImageWrap,
    pub scale: Fixed,
    pub gamma: bool,
    pub max_anisotropy: Fixed,
}

impl View for TexInfo {
    type V = TexKey;

    open spec fn view(&self) -> TexKey {
        TexKey {
            path: self.path@,
            filtering_method: self.filtering_method,
            wrap_mode: self.wrap_mode,
            scale: self.scale,
            gamma: self.gamma,
            max_anisotropy: self.max_anisotropy,
        }
    }
}

/// Whether `text` ends with `suffix`.
pub open spec fn ends_with_spec(text: Seq<char>, suffix: Seq<char>) -> bool {
    text.len() >= suffix.len() && text.subrange(text.len() - suffix.len(), text.len() as int) == suffix
}

/// Whether a file of this name holds gamma-encoded texels, going by its
/// extension: `.tga` and `.png` files do.
pub open spec fn gamma_by_extension(path: Seq<char>) -> bool {
    ends_with_spec(path, ".tga"@) || ends_with_spec(path, ".png"@)
}

/// The request that a texture's parameters amount to. A parameter that is
/// absent takes its default: anisotropy cap 8, elliptically weighted
/// filtering, wrap mode `Repeat`, scale 1, an empty file name, and gamma
/// decoding by the file's extension. A wrap mode that is not recognised is
/// `Repeat`.
pub open spec fn resolve_spec(
    max_anisotropy: Option<Fixed>,
    trilinear: Option<bool>,
    wrap: Option<Seq<char>>,
    scale: Option<Fixed>,
    filename: Option<Seq<char>>,
    gamma: Option<bool>,
) -> TexKey {
    let path = match filename {
        Some(name) => name,
        None => Seq::empty(),
    };
    TexKey {
        path,
        filtering_method: if trilinear == Some(true) {
            FilteringMethod::Trilinear
        } else {
            FilteringMethod::Ewa
        },
        wrap_mode: match wrap {
            Some(name) => ImageWrap::from_name_spec(name),
            None => ImageWrap::Repeat,
        },
        scale: match scale {
            Some(s) => s,
            None => ONE,
        },
        gamma: match gamma {
            Some(g) => g,
            None => gamma_by_extension(path),
        },
        max_anisotropy: match max_anisotropy {
            Some(a) => a,
            None => DEFAULT_MAX_ANISOTROPY,
        },
    }
}

/// Whether `text` ends with `suffix`.
pub fn ends_with(text: &str, suffix: &str) -> (r: bool)
    ensures
        r == ends_with_spec(text@, suffix@),
{
    let n = text.unicode_len();
    let m = suffix.unicode_len();
    if n < m {
        return false;
    }
    let start = n - m;
    let mut i: usize = 0;
    while i < m
        invariant
            n == text@.len(),
            m == suffix@.len(),
            start == n - m,
            i <= m,
            forall|k: int| 0 <= k < i ==> text@[start + k] == suffix@[k],
        decreases m - i,
    {
        if text.get_char(start + i) != suffix.get_char(i) {
            assert(text@.subrange(start as int, n as int)[i as int] != suffix@[i as int]);
            return false;
        }
        i = i + 1;
    }
    assert(text@.subrange(start as int, n as int) =~= suffix@);
    true
}

impl TexInfo {
    /// The request for the image at `path` under the given options.
    pub fn new(
        path: &str,
        filtering_method: FilteringMethod,
        wrap_mode: ImageWrap,
        scale: Fixed,
        gamma: bool,
        max_anisotropy: Fixed,
    ) -> (r: TexInfo)
        ensures
            r@ == (TexKey { path: path@, filtering_method, wrap_mode, scale, gamma, max_anisotropy }),
    {
        TexInfo { path: String::from_str(path), filtering_method, wrap_mode, scale, gamma, max_anisotropy }
    }

    /// A request equal to this one.
    pub fn duplicate(&self) -> (r: TexInfo)
        ensures
            r@ == self@,
    {
        TexInfo {
            path: self.path.clone(),
            filtering_method: self.filtering_method,
            wrap_mode: self.wrap_mode,
            scale: self.scale,
            gamma: self.gamma,
            max_anisotropy: self.max_anisotropy,
        }
    }

    /// Whether two requests are for the same MIP map.
    pub fn same(&self, other: &TexInfo) -> (r: bool)
        ensures
            r == (self@ == other@),
    {
        self.path == other.path && self.filtering_method == other.filtering_method && self.wrap_mode
            == other.wrap_mode && self.scale == other.scale && self.gamma == other.gamma && self.max_anisotropy
            == other.max_anisotropy
    }

    /// The request that a texture's parameters amount to, each parameter
    /// given where the texture's description holds it.
    pub fn resolve(
        max_anisotropy: Option<Fixed>,
        trilinear: Option<bool>,
        wrap: Option<&str>,
        scale: Option<Fixed>,
        filename: Option<&str>,
        gamma: Option<bool>,
    ) -> (r: TexInfo)
        ensures
            r@ == resolve_spec(
                max_anisotropy,
                trilinear,
                match wrap {
                    Some(name) => Some(name@),
                    None => None,
                },
                scale,
                match filename {
                    Some(name) => Some(name@),
                    None => None,
                },
                gamma,
            ),
    {
        let path: &str = match filename {
            Some(name) => name,
            None => "",
        };
        proof {
            reveal_strlit("");
            assert(""@ =~= Seq::<char>::empty());
        }
        let filtering_method = match trilinear {
            Some(true) => FilteringMethod::Trilinear,
            _ => FilteringMethod::Ewa,
        };
        let wrap_mode = match wrap {
            Some(name) => ImageWrap::from_name(name),
            None => ImageWrap::Repeat,
        };
        let scale = match scale {
            Some(s) => s,
            None => ONE,
        };
        let gamma = match gamma {
            Some(g) => g,
            None => ends_with(path, ".tga") || ends_with(path, ".png"),
        };
        let max_anisotropy = match max_anisotropy {
            Some(a) => a,
            None => DEFAULT_MAX_ANISOTROPY,
        };
        Self::new(path, filtering_method, wrap_mode, scale, gamma, max_anisotropy)
    }
}

} // verus!
