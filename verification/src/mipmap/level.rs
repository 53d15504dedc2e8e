//! One resolution of an image: a row-major grid of texels.

use vstd::prelude::*;
use crate::mipmap::fixed::{floor_div, MAX_DIM, TEXEL_MAX};
use crate::mipmap::wrap::ImageWrap;

verus! {

/// Why an image cannot become a pyramid.
#[derive(Copy, Clone, Debug, PartialEq, Eq, Structural)]
pub enum MipError {
    /// The width or the height is zero.
    Empty,
    /// The width or the height exceeds [`MAX_DIM`].
    TooLarge,
    /// The number of texels is not width times height.
    SizeMismatch,
    /// A texel's magnitude exceeds [`TEXEL_MAX`].
    TexelOutOfRange,
    /// The resampling filter gives some texel a total weight that is not positive.
    DegenerateFilter,
}

/// The mathematical content of a level: its extent and its texels, row by row.
pub struct Grid {
    pub width: int,
    pub height: int,
    pub texels: Seq<int>,
}

/// Whether `v` is a representable texel value.
pub open spec fn texel_in_range(v: int) -> bool {
    -TEXEL_MAX <= v <= TEXEL_MAX
}

impl Grid {
    /// The extent is positive and bounded, and every texel is present and in range.
    pub open spec fn wf(self) -> bool {
        &&& 1 <= self.width <= MAX_DIM
        &&& 1 <= self.height <= MAX_DIM
        &&& self.texels.len() == self.width * self.height
        &&& forall|i: int| 0 <= i < self.texels.len() ==> texel_in_range(#[trigger] self.texels[i])
    }

    /// The stored texel in column `s` of row `t`.
    pub open spec fn at(self, s: int, t: int) -> int {
        self.texels[t * self.width + s]
    }

    /// The texel that integer position `(s, t)` refers to under `wrap`; zero
    /// where the wrap mode resolves to no stored texel.
    pub open spec fn fetch(self, wrap: ImageWrap, s: int, t: int) -> int {
        match (wrap.resolve_spec(s, self.width), wrap.resolve_spec(t, self.height)) {
            (Some(x), Some(y)) => self.at(x, y),
            _ => 0,
        }
    }

    /// Every texel equals `c`.
    pub open spec fn is_constant(self, c: int) -> bool {
        forall|i: int| 0 <= i < self.texels.len() ==> #[trigger] self.texels[i] == c
    }

    /// Every texel lies between `lo` and `hi`.
    pub open spec fn within(self, lo: int, hi: int) -> bool {
        forall|i: int| 0 <= i < self.texels.len() ==> lo <= #[trigger] self.texels[i] <= hi
    }

    /// The average of the 2x2 block of texels whose corner is `(2s, 2t)`.
    pub open spec fn box_texel(self, wrap: ImageWrap, s: int, t: int) -> int {
        (self.fetch(wrap, 2 * s, 2 * t) + self.fetch(wrap, 2 * s + 1, 2 * t) + self.fetch(
            wrap,
            2 * s,
            2 * t + 1,
        ) + self.fetch(wrap, 2 * s + 1, 2 * t + 1)) / 4
    }

    /// The next coarser level: each axis halved (but never below one texel),
    /// each texel the box-filtered average of a 2x2 block.
    pub open spec fn box_down(self, wrap: ImageWrap) -> Grid {
        let w = half_extent(self.width);
        let h = half_extent(self.height);
        Grid {
            width: w,
            height: h,
            texels: Seq::new((w * h) as nat, |i: int| self.box_texel(wrap, i % w, i / w)),
        }
    }
}

/// Half of an extent, rounded down but at least 1.
pub open spec fn half_extent(n: int) -> int {
    if n / 2 >= 1 {
        n / 2
    } else {
        1
    }
}

/// The first reason, if any, for which `texels` is not a `width` by `height` level.
pub open spec fn grid_error(width: int, height: int, texels: Seq<i64>) -> Option<MipError> {
    if width == 0 || height == 0 {
        Some(MipError::Empty)
    } else if width > MAX_DIM || height > MAX_DIM {
        Some(MipError::TooLarge)
    } else if texels.len() != width * height {
        Some(MipError::SizeMismatch)
    } else if exists|i: int| 0 <= i < texels.len() && !texel_in_range(#[trigger] texels[i] as int) {
        Some(MipError::TexelOutOfRange)
    } else {
        None
    }
}

/// In a row-major grid of width `w`, index `t * w + s` is column `s` of row `t`.
pub proof fn lemma_row_major(s: int, t: int, w: int, h: int)
    requires
        0 <= s < w,
        0 <= t < h,
    ensures
        0 <= t * w + s < w * h,
        (t * w + s) % w == s,
        (t * w + s) / w == t,
{
    assert(0 <= t * w && t * w + w <= w * h) by (nonlinear_arith)
        requires
            0 <= t < h,
            0 < w,
    ;
    vstd::arithmetic::div_mod::lemma_fundamental_div_mod_converse(t * w + s, w, t, s);
}

/// A position inside the extent is fetched as stored, under every wrap mode.
pub proof fn lemma_fetch_in_range(g: Grid, wrap: ImageWrap, s: int, t: int)
    requires
        0 <= s < g.width,
        0 <= t < g.height,
    ensures
        g.fetch(wrap, s, t) == g.at(s, t),
{
    crate::mipmap::wrap::lemma_wrap_in_range(wrap, s, g.width);
    crate::mipmap::wrap::lemma_wrap_in_range(wrap, t, g.height);
}

/// Whatever the wrap mode and the position, a well-formed grid yields a texel in range.
pub proof fn lemma_fetch_in_bounds(g: Grid, wrap: ImageWrap, s: int, t: int)
    requires
        g.wf(),
    ensures
        texel_in_range(g.fetch(wrap, s, t)),
{
    let w = g.width;
    let h = g.height;
    assert(w >= 1 && h >= 1);
    match (wrap.resolve_spec(s, w), wrap.resolve_spec(t, h)) {
        (Some(x), Some(y)) => {
            assert(0 <= s % w < w && 0 <= t % h < h) by (nonlinear_arith)
                requires
                    w >= 1,
                    h >= 1,
            ;
            lemma_row_major(x, y, w, h);
        },
        _ => {},
    }
}

/// Under `Black`, a position outside the extent reads as zero, whatever the
/// grid stores.
pub proof fn lemma_fetch_outside_black(g: Grid, s: int, t: int)
    requires
        !(0 <= s < g.width) || !(0 <= t < g.height),
    ensures
        g.fetch(ImageWrap::Black, s, t) == 0,
{
}

/// Column `-1` is the last column under `Repeat` and the first under `Clamp`.
pub proof fn lemma_fetch_left_of_edge(g: Grid, t: int)
    requires
        g.wf(),
        0 <= t < g.height,
    ensures
        g.fetch(ImageWrap::Repeat, -1, t) == g.at(g.width - 1, t),
        g.fetch(ImageWrap::Clamp, -1, t) == g.at(0, t),
        g.fetch(ImageWrap::Black, -1, t) == 0,
{
    crate::mipmap::wrap::lemma_wrap_of_minus_one(g.width);
    crate::mipmap::wrap::lemma_wrap_in_range(ImageWrap::Repeat, t, g.height);
    crate::mipmap::wrap::lemma_wrap_in_range(ImageWrap::Clamp, t, g.height);
}

/// Under `Repeat` and `Clamp` every position of a constant grid reads as the
/// constant.
pub proof fn lemma_fetch_constant(g: Grid, wrap: ImageWrap, c: int, s: int, t: int)
    requires
        g.wf(),
        g.is_constant(c),
        wrap != ImageWrap::Black || (0 <= s < g.width && 0 <= t < g.height),
    ensures
        g.fetch(wrap, s, t) == c,
{
    let w = g.width;
    let h = g.height;
    assert(0 <= s % w < w && 0 <= t % h < h) by (nonlinear_arith)
        requires
            w >= 1,
            h >= 1,
    ;
    if 0 <= s < w && 0 <= t < h {
        lemma_fetch_in_range(g, wrap, s, t);
        lemma_row_major(s, t, w, h);
    } else {
        match (wrap.resolve_spec(s, w), wrap.resolve_spec(t, h)) {
            (Some(x), Some(y)) => {
                lemma_row_major(x, y, w, h);
            },
            _ => {},
        }
    }
}

/// The box-filtered half of a constant grid is the same constant: always
/// under `Repeat` and `Clamp`, and under `Black` where the grid is at least
/// two texels wide and high, so that no block reaches outside it.
pub proof fn lemma_box_down_constant(g: Grid, wrap: ImageWrap, c: int)
    requires
        g.wf(),
        g.is_constant(c),
        wrap != ImageWrap::Black || (g.width >= 2 && g.height >= 2),
    ensures
        g.box_down(wrap).is_constant(c),
        g.box_down(wrap).width == half_extent(g.width),
        g.box_down(wrap).height == half_extent(g.height),
{
    let d = g.box_down(wrap);
    let w = half_extent(g.width);
    let h = half_extent(g.height);
    assert forall|i: int| 0 <= i < d.texels.len() implies #[trigger] d.texels[i] == c by {
        let s = i % w;
        let t = i / w;
        assert(0 <= s < w && 0 <= t < h) by (nonlinear_arith)
            requires
                0 <= i < w * h,
                w >= 1,
                h >= 1,
                s == i % w,
                t == i / w,
        ;
        lemma_fetch_constant(g, wrap, c, 2 * s, 2 * t);
        lemma_fetch_constant(g, wrap, c, 2 * s + 1, 2 * t);
        lemma_fetch_constant(g, wrap, c, 2 * s, 2 * t + 1);
        lemma_fetch_constant(g, wrap, c, 2 * s + 1, 2 * t + 1);
    }
}

/// Every position of a grid whose texels lie between `lo` and `hi` reads as a
/// value between them; under `Black`, where the zero outside lies between
/// them too.
pub proof fn lemma_fetch_within(g: Grid, wrap: ImageWrap, lo: int, hi: int, s: int, t: int)
    requires
        g.wf(),
        g.within(lo, hi),
        wrap != ImageWrap::Black || lo <= 0 <= hi,
    ensures
        lo <= g.fetch(wrap, s, t) <= hi,
{
    let w = g.width;
    let h = g.height;
    assert(0 <= s % w < w && 0 <= t % h < h) by (nonlinear_arith)
        requires
            w >= 1,
            h >= 1,
    ;
    match (wrap.resolve_spec(s, w), wrap.resolve_spec(t, h)) {
        (Some(x), Some(y)) => {
            lemma_row_major(x, y, w, h);
        },
        _ => {},
    }
}

/// The box-filtered half of a grid whose texels lie between `lo` and `hi`
/// has its texels between them.
pub proof fn lemma_box_down_within(g: Grid, wrap: ImageWrap, lo: int, hi: int)
    requires
        g.wf(),
        g.within(lo, hi),
        wrap != ImageWrap::Black || lo <= 0 <= hi,
    ensures
        g.box_down(wrap).within(lo, hi),
{
    let d = g.box_down(wrap);
    let w = half_extent(g.width);
    assert forall|i: int| 0 <= i < d.texels.len() implies lo <= #[trigger] d.texels[i] <= hi by {
        let s = i % w;
        let t = i / w;
        lemma_fetch_within(g, wrap, lo, hi, 2 * s, 2 * t);
        lemma_fetch_within(g, wrap, lo, hi, 2 * s + 1, 2 * t);
        lemma_fetch_within(g, wrap, lo, hi, 2 * s, 2 * t + 1);
        lemma_fetch_within(g, wrap, lo, hi, 2 * s + 1, 2 * t + 1);
    }
}

/// One level of a pyramid.
pub struct Level {
    width: usize,
    height: usize,
    texels: Vec<i64>,
}

impl View for Level {
    type V = Grid;

    closed spec fn view(&self) -> Grid {
        Grid {
            width: self.width as int,
            height: self.height as int,
            texels: self.texels@.map_values(|v: i64| v as int),
        }
    }
}

impl Level {
    /// The level's grid is well formed.
    pub open spec fn wf(&self) -> bool {
        self@.wf()
    }

    /// Makes a level of `texels`, given row by row.
    pub fn new(width: usize, height: usize, texels: Vec<i64>) -> (r: Result<Level, MipError>)
        ensures
            match r {
                Ok(level) => {
                    &&& grid_error(width as int, height as int, texels@).is_none()
                    &&& level.wf()
                    &&& level@.width == width
                    &&& level@.height == height
                    &&& level@.texels == texels@.map_values(|v: i64| v as int)
                },
                Err(e) => grid_error(width as int, height as int, texels@) == Some(e),
            },
    {
        if width == 0 || height == 0 {
            return Err(MipError::Empty);
        }
        if width > MAX_DIM || height > MAX_DIM {
            return Err(MipError::TooLarge);
        }
        assert(width * height <= MAX_DIM * MAX_DIM) by (nonlinear_arith)
            requires
                width <= MAX_DIM,
                height <= MAX_DIM,
        ;
        if texels.len() != width * height {
            return Err(MipError::SizeMismatch);
        }
        let mut i: usize = 0;
        while i < texels.len()
            invariant
                i <= texels.len(),
                1 <= width <= MAX_DIM,
                1 <= height <= MAX_DIM,
                texels@.len() == width * height,
                forall|j: int| 0 <= j < i ==> texel_in_range(#[trigger] texels@[j] as int),
            decreases texels.len() - i,
        {
            let v = texels[i];
            if v < -TEXEL_MAX || v > TEXEL_MAX {
                assert(!texel_in_range(texels@[i as int] as int));
                return Err(MipError::TexelOutOfRange);
            }
            i = i + 1;
        }
        Ok(Level { width, height, texels })
    }

    /// Makes a level of texels that are known to form a well-formed grid.
    pub(crate) fn from_parts(width: usize, height: usize, texels: Vec<i64>) -> (r: Level)
        requires
            1 <= width <= MAX_DIM,
            1 <= height <= MAX_DIM,
            texels@.len() == width * height,
            forall|i: int| 0 <= i < texels@.len() ==> texel_in_range(#[trigger] texels@[i] as int),
        ensures
            r.wf(),
            r@.width == width,
            r@.height == height,
            r@.texels == texels@.map_values(|v: i64| v as int),
    {
        Level { width, height, texels }
    }

    /// Number of texels in a row.
    pub fn width(&self) -> (r: usize)
        ensures
            r == self@.width,
    {
        self.width
    }

    /// Number of rows.
    pub fn height(&self) -> (r: usize)
        ensures
            r == self@.height,
    {
        self.height
    }

    /// The stored texel in column `s` of row `t`.
    pub fn get(&self, s: usize, t: usize) -> (r: i64)
        requires
            self.wf(),
            s < self@.width,
            t < self@.height,
        ensures
            r == self@.at(s as int, t as int),
    {
        proof {
            lemma_row_major(s as int, t as int, self.width as int, self.height as int);
            assert(self@.texels.len() == self.texels@.len());
        }
        let n = self.texels.len();
        assert(t * self.width + s < n);
        self.texels[t * self.width + s]
    }

    /// The texel at integer position `(s, t)`, resolved through `wrap`.
    pub fn texel(&self, wrap: ImageWrap, s: i128, t: i128) -> (r: i64)
        requires
            self.wf(),
        ensures
            r == self@.fetch(wrap, s as int, t as int),
            texel_in_range(r as int),
    {
        proof {
            lemma_fetch_in_bounds(self@, wrap, s as int, t as int);
        }
        match (wrap.resolve(s, self.width), wrap.resolve(t, self.height)) {
            (Some(x), Some(y)) => self.get(x, y),
            _ => 0,
        }
    }

    /// The next coarser level.
    pub fn downsample(&self, wrap: ImageWrap) -> (r: Level)
        requires
            self.wf(),
        ensures
            r.wf(),
            r@ == self@.box_down(wrap),
    {
        let w: usize = if self.width / 2 >= 1 { self.width / 2 } else { 1 };
        let h: usize = if self.height / 2 >= 1 { self.height / 2 } else { 1 };
        let mut texels: Vec<i64> = Vec::new();
        let mut t: usize = 0;
        while t < h
            invariant
                self.wf(),
                w == half_extent(self@.width),
                h == half_extent(self@.height),
                t <= h,
                texels@.len() == t * w,
                forall|i: int| 0 <= i < texels@.len() ==> #[trigger] texels@[i] == self@.box_texel(wrap, i % (w as int), i / (w as int)),
                forall|i: int| 0 <= i < texels@.len() ==> texel_in_range(#[trigger] texels@[i] as int),
            decreases h - t,
        {
            let mut s: usize = 0;
            while s < w
                invariant
                    self.wf(),
                    w == half_extent(self@.width),
                    h == half_extent(self@.height),
                    t < h,
                    s <= w,
                    texels@.len() == t * w + s,
                    forall|i: int| 0 <= i < texels@.len() ==> #[trigger] texels@[i] == self@.box_texel(wrap, i % (w as int), i / (w as int)),
                    forall|i: int| 0 <= i < texels@.len() ==> texel_in_range(#[trigger] texels@[i] as int),
                decreases w - s,
            {
                let x: i128 = 2 * (s as i128);
                let y: i128 = 2 * (t as i128);
                let sum: i128 = self.texel(wrap, x, y) as i128 + self.texel(wrap, x + 1, y) as i128
                    + self.texel(wrap, x, y + 1) as i128 + self.texel(wrap, x + 1, y + 1) as i128;
                let v = floor_div(sum, 4);
                proof {
                    lemma_row_major(s as int, t as int, w as int, h as int);
                }
                texels.push(v as i64);
                s = s + 1;
            }
            proof {
                assert((t + 1) * w == t * w + w) by (nonlinear_arith);
            }
            t = t + 1;
        }
        let r = Level { width: w, height: h, texels };
        proof {
            assert(t * w == w * h) by (nonlinear_arith)
                requires
                    t == h,
            ;
            assert forall|i: int| 0 <= i < r@.texels.len() implies r@.texels[i]
                == self@.box_down(wrap).texels[i] by {
                assert(r@.texels[i] == texels@[i] as int);
            }
            assert(r@.texels =~= self@.box_down(wrap).texels);
        }
        r
    }
}

} // verus!
