//! The MIP pyramid of one channel: an image at full resolution and every
//! halving of it down to a single texel.

use vstd::prelude::*;
use vstd::math::max;
use crate::mipmap::fixed::{is_power_of_2, is_power_of_two, log2_floor, pow2_ceil, round_up_pow2, MAX_DIM};
use crate::mipmap::kernel::WeightTable;
use crate::mipmap::level::{grid_error, half_extent, Grid, Level, MipError};
use crate::mipmap::resample::{axis_degenerate, resample_axis};
use crate::mipmap::wrap::ImageWrap;

verus! {

/// The grid that `texels` form, row by row.
pub open spec fn image_grid(width: int, height: int, texels: Seq<i64>) -> Grid {
    Grid { width, height, texels: texels.map_values(|v: i64| v as int) }
}

/// The finest level of the pyramid of `image`: the image itself where both
/// extents are powers of two; otherwise the image resampled, first along its
/// rows and then along its columns, to the next power of two on each axis
/// that is not one already.
pub open spec fn base_grid(image: Grid, wrap: ImageWrap, table: Seq<int>) -> Grid {
    let rows = if is_power_of_two(image.width as nat) {
        image
    } else {
        resample_axis(image, wrap, table, pow2_ceil(image.width as nat) as int, true)
    };
    if is_power_of_two(image.height as nat) {
        rows
    } else {
        resample_axis(rows, wrap, table, pow2_ceil(image.height as nat) as int, false)
    }
}

/// The kernel cannot resample an image of this extent.
pub open spec fn resample_fails(width: int, height: int, table: Seq<int>) -> bool {
    ||| !is_power_of_two(width as nat) && axis_degenerate(table, width, pow2_ceil(width as nat) as int)
    ||| !is_power_of_two(height as nat) && axis_degenerate(table, height, pow2_ceil(height as nat) as int)
}

/// The reason, if any, for which an image has no pyramid.
pub open spec fn pyramid_error(width: int, height: int, texels: Seq<i64>, table: Seq<int>) -> Option<MipError> {
    if grid_error(width, height, texels).is_some() {
        grid_error(width, height, texels)
    } else if resample_fails(width, height, table) {
        Some(MipError::DegenerateFilter)
    } else {
        None
    }
}

/// Level `i` is the box-filtered half of level `i - 1`.
pub open spec fn is_half_of_previous(levels: Seq<Grid>, wrap: ImageWrap, i: int) -> bool {
    levels[i] == levels[i - 1].box_down(wrap)
}

/// `levels` is a full pyramid under `wrap`: the finest level has
/// power-of-two extents, every further level is the box-filtered half of the
/// one before, and the last is a single texel.
pub open spec fn is_pyramid(levels: Seq<Grid>, wrap: ImageWrap) -> bool {
    &&& levels.len() >= 1
    &&& forall|i: int| 0 <= i < levels.len() ==> (#[trigger] levels[i]).wf()
    &&& is_power_of_two(levels[0].width as nat)
    &&& is_power_of_two(levels[0].height as nat)
    &&& forall|i: int| 1 <= i < levels.len() ==> #[trigger] is_half_of_previous(levels, wrap, i)
    &&& levels.len() == log2_floor(max(levels[0].width, levels[0].height) as nat) + 1
    &&& levels.last().width == 1
    &&& levels.last().height == 1
}

/// A pyramid of levels, finest first.
pub struct Pyramid {
    levels: Vec<Level>,
    wrap: ImageWrap,
}

impl Pyramid {
    /// The levels, finest first.
    pub closed spec fn levels(&self) -> Seq<Grid> {
        self.levels@.map_values(|l: Level| l@)
    }

    /// The wrap mode the pyramid was built and is read with.
    pub closed spec fn wrap_mode(&self) -> ImageWrap {
        self.wrap
    }

    /// The levels form a full pyramid.
    pub open spec fn wf(&self) -> bool {
        is_pyramid(self.levels(), self.wrap_mode())
    }

    /// Index of the coarsest level.
    pub open spec fn max_level(&self) -> int {
        self.levels().len() - 1
    }

    /// Builds the pyramid of an image given row by row.
    pub fn new(width: usize, height: usize, texels: Vec<i64>, wrap: ImageWrap, table: &WeightTable) -> (r: Result<Pyramid, MipError>)
        requires
            table.wf(),
        ensures
            match r {
                Ok(p) => {
                    &&& pyramid_error(width as int, height as int, texels@, table@).is_none()
                    &&& p.wf()
                    &&& p.wrap_mode() == wrap
                    &&& p.levels()[0] == base_grid(image_grid(width as int, height as int, texels@), wrap, table@)
                    &&& p.levels()[0].width == pow2_ceil(width as nat)
                    &&& p.levels()[0].height == pow2_ceil(height as nat)
                },
                Err(e) => pyramid_error(width as int, height as int, texels@, table@) == Some(e),
            },
    {
        let ghost image = image_grid(width as int, height as int, texels@);
        let level = match Level::new(width, height, texels) {
            Ok(level) => level,
            Err(e) => {
                return Err(e);
            },
        };
        assert(level@ == image);
        proof {
            crate::mipmap::fixed::lemma_pow2_ceil_bounds(width as nat);
            crate::mipmap::fixed::lemma_pow2_ceil_bounds(height as nat);
        }
        let rows = if is_power_of_2(width) {
            level
        } else {
            match level.resample(wrap, table, round_up_pow2(width), true) {
                Ok(rows) => rows,
                Err(e) => {
                    return Err(e);
                },
            }
        };
        let base = if is_power_of_2(height) {
            rows
        } else {
            match rows.resample(wrap, table, round_up_pow2(height), false) {
                Ok(base) => base,
                Err(e) => {
                    return Err(e);
                },
            }
        };
        assert(base@ == base_grid(image, wrap, table@));
        let ghost first = base@;
        let mut levels: Vec<Level> = Vec::new();
        levels.push(base);
        loop
            invariant
                levels@.len() >= 1,
                levels@[0]@ == first,
                forall|i: int| 0 <= i < levels@.len() ==> (#[trigger] levels@[i]).wf(),
                forall|i: int| 0 <= i < levels@.len() - 1 ==> (#[trigger] levels@[i + 1])@ == levels@[i]@.box_down(wrap),
                levels@.len() + log2_floor(max(levels@.last()@.width, levels@.last()@.height) as nat)
                    == log2_floor(max(first.width, first.height) as nat) + 1,
            ensures
                levels@.last()@.width == 1,
                levels@.last()@.height == 1,
            decreases max(levels@.last()@.width, levels@.last()@.height),
        {
            let n = levels.len();
            let last = &levels[n - 1];
            if last.width() == 1 && last.height() == 1 {
                break;
            }
            let next = last.downsample(wrap);
            proof {
                let m = max(last@.width, last@.height);
                assert(max(half_extent(last@.width), half_extent(last@.height)) == m / 2);
            }
            levels.push(next);
        }
        let p = Pyramid { levels, wrap };
        proof {
            let ls = p.levels();
            assert(ls.len() == p.levels@.len());
            assert forall|i: int| 0 <= i < ls.len() implies (#[trigger] ls[i]).wf() by {
                assert(p.levels@[i].wf());
            }
            assert forall|i: int| 1 <= i < ls.len() implies #[trigger] is_half_of_previous(ls, wrap, i) by {
                assert(p.levels@[(i - 1) + 1]@ == p.levels@[i - 1]@.box_down(wrap));
            }
        }
        Ok(p)
    }

    /// Number of levels.
    pub fn level_count(&self) -> (r: usize)
        requires
            self.wf(),
        ensures
            r == self.levels().len(),
            1 <= r <= 16,
    {
        proof {
            lemma_level_count_bound(self.levels(), self.wrap_mode());
        }
        self.levels.len()
    }

    /// Level `i`, counted from the finest.
    pub fn level(&self, i: usize) -> (r: &Level)
        requires
            self.wf(),
            i < self.levels().len(),
        ensures
            r@ == self.levels()[i as int],
            r.wf(),
    {
        assert(self.levels()[i as int].wf());
        &self.levels[i]
    }

    /// The wrap mode.
    pub fn wrap(&self) -> (r: ImageWrap)
        ensures
            r == self.wrap_mode(),
    {
        self.wrap
    }
}

/// A pyramid has at most sixteen levels.
pub proof fn lemma_level_count_bound(levels: Seq<Grid>, wrap: ImageWrap)
    requires
        is_pyramid(levels, wrap),
    ensures
        1 <= levels.len() <= 16,
{
    let m = max(levels[0].width, levels[0].height) as nat;
    assert(levels[0].wf());
    assert(1 <= m <= MAX_DIM);
    crate::mipmap::fixed::lemma_log2_floor_bounds(m);
    vstd::arithmetic::power2::lemma2_to64();
    if log2_floor(m) > 15 {
        vstd::arithmetic::power2::lemma_pow2_strictly_increases(15, log2_floor(m));
    }
}

/// A base image whose extents are powers of two is the finest level as it
/// stands, and its pyramid has `floor(log2(max(w, h))) + 1` levels.
pub proof fn lemma_level_count_of_power_of_two(image: Grid, wrap: ImageWrap, table: Seq<int>, levels: Seq<Grid>)
    requires
        is_pyramid(levels, wrap),
        levels[0] == base_grid(image, wrap, table),
        is_power_of_two(image.width as nat),
        is_power_of_two(image.height as nat),
    ensures
        levels[0] == image,
        levels.len() == log2_floor(max(image.width, image.height) as nat) + 1,
{
}

/// The greater extent of level `i` has logarithm `levels.len() - 1 - i`: each
/// level halves it. A pyramid over a square stays square.
pub proof fn lemma_level_extents(levels: Seq<Grid>, wrap: ImageWrap, i: int)
    requires
        is_pyramid(levels, wrap),
        0 <= i < levels.len(),
    ensures
        log2_floor(max(levels[i].width, levels[i].height) as nat) == levels.len() - 1 - i,
        levels[0].width == levels[0].height ==> levels[i].width == levels[i].height,
    decreases i,
{
    if i > 0 {
        lemma_level_extents(levels, wrap, i - 1);
        assert(is_half_of_previous(levels, wrap, i));
        let g = levels[i - 1];
        assert(g.wf());
        let m = max(g.width, g.height);
        assert(max(half_extent(g.width), half_extent(g.height)) == half_extent(m));
    }
}

/// Every level of the pyramid of a constant image is that constant, and so
/// is the single texel of the coarsest: always under `Repeat` and `Clamp`,
/// and under `Black` where the finest level is square.
pub proof fn lemma_pyramid_of_constant(levels: Seq<Grid>, wrap: ImageWrap, c: int, i: int)
    requires
        is_pyramid(levels, wrap),
        levels[0].is_constant(c),
        wrap != ImageWrap::Black || levels[0].width == levels[0].height,
        0 <= i < levels.len(),
    ensures
        levels[i].is_constant(c),
        levels.last().width == 1,
        levels.last().height == 1,
        levels.last().at(0, 0) == c,
{
    lemma_levels_constant(levels, wrap, c, i);
    lemma_levels_constant(levels, wrap, c, levels.len() - 1);
    let last = levels.last();
    assert(last.wf());
    assert(last.texels[0] == c);
}

/// Level `i` of the pyramid of a constant image is that constant.
proof fn lemma_levels_constant(levels: Seq<Grid>, wrap: ImageWrap, c: int, i: int)
    requires
        is_pyramid(levels, wrap),
        levels[0].is_constant(c),
        wrap != ImageWrap::Black || levels[0].width == levels[0].height,
        0 <= i < levels.len(),
    ensures
        levels[i].is_constant(c),
    decreases i,
{
    if i > 0 {
        lemma_levels_constant(levels, wrap, c, i - 1);
        lemma_level_extents(levels, wrap, i - 1);
        assert(is_half_of_previous(levels, wrap, i));
        let g = levels[i - 1];
        assert(g.wf());
        crate::mipmap::level::lemma_box_down_constant(g, wrap, c);
    }
}

/// Every level of a pyramid whose finest level has its texels between `lo`
/// and `hi` has its texels between them: box filtering neither overshoots
/// nor undershoots.
pub proof fn lemma_levels_within(levels: Seq<Grid>, wrap: ImageWrap, lo: int, hi: int, i: int)
    requires
        is_pyramid(levels, wrap),
        levels[0].within(lo, hi),
        wrap != ImageWrap::Black || lo <= 0 <= hi,
        0 <= i < levels.len(),
    ensures
        levels[i].within(lo, hi),
    decreases i,
{
    if i > 0 {
        lemma_levels_within(levels, wrap, lo, hi, i - 1);
        assert(is_half_of_previous(levels, wrap, i));
        assert(levels[i - 1].wf());
        crate::mipmap::level::lemma_box_down_within(levels[i - 1], wrap, lo, hi);
    }
}

/// The finest level of the pyramid of an image whose texels lie between
/// `lo` and `hi` has its texels between them, resampled or not.
pub proof fn lemma_base_within(image: Grid, wrap: ImageWrap, table: Seq<int>, lo: int, hi: int)
    requires
        image.wf(),
        image.within(lo, hi),
        wrap != ImageWrap::Black || lo <= 0 <= hi,
        crate::mipmap::kernel::table_wf(table),
        !resample_fails(image.width, image.height, table),
    ensures
        base_grid(image, wrap, table).within(lo, hi),
{
    crate::mipmap::fixed::lemma_pow2_ceil_bounds(image.width as nat);
    crate::mipmap::fixed::lemma_pow2_ceil_bounds(image.height as nat);
    if !is_power_of_two(image.width as nat) {
        let new = pow2_ceil(image.width as nat) as int;
        lemma_pow2_ceil_within(image.width as nat);
        crate::mipmap::resample::lemma_resample_within(image, wrap, table, new, true, lo, hi);
        crate::mipmap::resample::lemma_resample_wf(image, wrap, table, new, true);
    }
    let rows = if is_power_of_two(image.width as nat) {
        image
    } else {
        resample_axis(image, wrap, table, pow2_ceil(image.width as nat) as int, true)
    };
    if !is_power_of_two(image.height as nat) {
        let new = pow2_ceil(image.height as nat) as int;
        lemma_pow2_ceil_within(image.height as nat);
        crate::mipmap::resample::lemma_resample_within(rows, wrap, table, new, false, lo, hi);
    }
}

/// The finest level of the pyramid of a constant image is that constant,
/// under `Repeat` and `Clamp` whatever the extents, and under `Black` where
/// the extents are powers of two.
pub proof fn lemma_base_of_constant(image: Grid, wrap: ImageWrap, table: Seq<int>, c: int)
    requires
        image.wf(),
        image.is_constant(c),
        crate::mipmap::kernel::table_wf(table),
        !resample_fails(image.width, image.height, table),
        wrap != ImageWrap::Black || (is_power_of_two(image.width as nat) && is_power_of_two(image.height as nat)),
    ensures
        base_grid(image, wrap, table).is_constant(c),
{
    crate::mipmap::fixed::lemma_pow2_ceil_bounds(image.width as nat);
    crate::mipmap::fixed::lemma_pow2_ceil_bounds(image.height as nat);
    if !is_power_of_two(image.width as nat) {
        let new = pow2_ceil(image.width as nat) as int;
        lemma_pow2_ceil_within(image.width as nat);
        crate::mipmap::resample::lemma_resample_constant(image, wrap, table, new, true, c);
        crate::mipmap::resample::lemma_resample_wf(image, wrap, table, new, true);
    }
    let rows = if is_power_of_two(image.width as nat) {
        image
    } else {
        resample_axis(image, wrap, table, pow2_ceil(image.width as nat) as int, true)
    };
    if !is_power_of_two(image.height as nat) {
        let new = pow2_ceil(image.height as nat) as int;
        lemma_pow2_ceil_within(image.height as nat);
        crate::mipmap::resample::lemma_resample_constant(rows, wrap, table, new, false, c);
    }
}

/// The pyramid of a constant image ends in a single texel that is the
/// constant: under `Repeat` and `Clamp` whatever the image's extents, and
/// under `Black` where the image is a square whose side is a power of two.
pub proof fn lemma_coarsest_of_constant_image(image: Grid, wrap: ImageWrap, table: Seq<int>, levels: Seq<Grid>, c: int)
    requires
        image.wf(),
        image.is_constant(c),
        crate::mipmap::kernel::table_wf(table),
        !resample_fails(image.width, image.height, table),
        is_pyramid(levels, wrap),
        levels[0] == base_grid(image, wrap, table),
        wrap != ImageWrap::Black || (is_power_of_two(image.width as nat) && image.width == image.height),
    ensures
        levels.last().width == 1,
        levels.last().height == 1,
        levels.last().at(0, 0) == c,
{
    lemma_base_of_constant(image, wrap, table, c);
    lemma_pyramid_of_constant(levels, wrap, c, 0);
}

/// Halving the extent of a level rounds up: a level of one texel stays one
/// texel, and every other extent of a pyramid is even.
pub proof fn lemma_half_extent_rounds_up(n: int)
    requires
        is_power_of_two(n as nat),
        n >= 1,
    ensures
        half_extent(n) == (n + 1) / 2,
{
    if n > 1 {
        crate::mipmap::fixed::lemma_log2_floor_bounds(n as nat);
        let k = log2_floor(n as nat);
        if k == 0 {
            vstd::arithmetic::power2::lemma2_to64();
        } else {
            vstd::arithmetic::power2::lemma_pow2_unfold(k);
        }
    }
}

/// Rounding a level's extent up to a power of two keeps it a level's extent.
proof fn lemma_pow2_ceil_within(n: nat)
    requires
        1 <= n <= MAX_DIM,
    ensures
        1 <= pow2_ceil(n) <= MAX_DIM,
{
    crate::mipmap::fixed::lemma_pow2_ceil_bounds(n);
    crate::mipmap::fixed::lemma_log2_floor_bounds(n);
    vstd::arithmetic::power2::lemma2_to64();
    let k = log2_floor(n);
    if !is_power_of_two(n) {
        if k >= 15 {
            if k > 15 {
                vstd::arithmetic::power2::lemma_pow2_strictly_increases(15, k);
            }
        } else if k + 1 < 15 {
            vstd::arithmetic::power2::lemma_pow2_strictly_increases(k + 1, 15);
        }
    }
}

} // verus!
