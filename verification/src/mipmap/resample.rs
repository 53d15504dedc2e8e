//! Resampling a level along one axis, for images whose extent is not a power
//! of two.
//!
//! Output texel `i` of an axis stretched from `old` to `new` texels is centred
//! at `(i + 1/2) * old / new` in the source. It is the weighted mean of the four
//! source texels nearest that centre, each weighted by the kernel at half its
//! distance from the centre (the filter is two texels wide on either side).

use vstd::prelude::*;
use crate::mipmap::fixed::{floor_div, Fixed, HALF, MAX_DIM, ONE, TEXEL_MAX};
use crate::mipmap::kernel::{lemma_sample_index_bounds, table_wf, weight_at, WeightTable};
use crate::mipmap::level::{lemma_fetch_in_bounds, lemma_row_major, texel_in_range, Grid, Level, MipError};
use crate::mipmap::wrap::ImageWrap;

verus! {

/// The four source texels that feed one output texel, and their weights.
pub struct Tap {
    /// Index of the first of the four source texels; it may lie outside the source.
    pub first: i64,
    /// Weight of source texel `first + j`, for `j` in `0..4`.
    pub weights: [Fixed; 4],
}

/// Centre of output texel `i` in source texels, as a fixed-point number.
pub open spec fn tap_center(i: int, old: int, new: int) -> int {
    (2 * i + 1) * old * (ONE as int) / (2 * new)
}

/// Index of the first source texel under the filter of output texel `i`.
pub open spec fn tap_first(i: int, old: int, new: int) -> int {
    (tap_center(i, old, new) - 3 * HALF) / (ONE as int)
}

/// Half the distance from the centre of source texel `first + j` to the centre
/// of output texel `i`: the kernel's argument, in `[0, ONE]`.
pub open spec fn tap_distance(i: int, old: int, new: int, j: int) -> int {
    let d = (tap_first(i, old, new) + j) * ONE + HALF - tap_center(i, old, new);
    (if d < 0 {
        -d
    } else {
        d
    }) / 2
}

/// Weight of the `j`-th source texel under the filter of output texel `i`.
pub open spec fn tap_weight(table: Seq<int>, i: int, old: int, new: int, j: int) -> int {
    weight_at(table, tap_distance(i, old, new, j))
}

/// Sum of the four weights of output texel `i`.
pub open spec fn tap_total(table: Seq<int>, i: int, old: int, new: int) -> int {
    tap_weight(table, i, old, new, 0) + tap_weight(table, i, old, new, 1) + tap_weight(
        table,
        i,
        old,
        new,
        2,
    ) + tap_weight(table, i, old, new, 3)
}

/// Some output texel of the axis gets no weight at all.
pub open spec fn axis_degenerate(table: Seq<int>, old: int, new: int) -> bool {
    exists|i: int| 0 <= i < new && #[trigger] tap_total(table, i, old, new) <= 0
}

/// `tap` holds what the filter of output texel `i` is.
pub open spec fn tap_matches(tap: Tap, table: Seq<int>, i: int, old: int, new: int) -> bool {
    &&& tap.first == tap_first(i, old, new)
    &&& forall|j: int| 0 <= j < 4 ==> #[trigger] tap.weights@[j] == tap_weight(table, i, old, new, j)
}

/// The source texel that the filter of output position `(s, t)` reads at index
/// `k` of the resampled axis.
pub open spec fn tap_texel(g: Grid, wrap: ImageWrap, along_s: bool, s: int, t: int, k: int) -> int {
    if along_s {
        g.fetch(wrap, k, t)
    } else {
        g.fetch(wrap, s, k)
    }
}

/// The texel at `(s, t)` of `g` resampled to `new` texels along one axis:
/// the weighted mean of four source texels. A source texel that the wrap mode
/// resolves to nothing contributes zero, and its weight still counts.
pub open spec fn resampled_texel(
    g: Grid,
    wrap: ImageWrap,
    table: Seq<int>,
    new: int,
    along_s: bool,
    s: int,
    t: int,
) -> int {
    let old = if along_s { g.width } else { g.height };
    let i = if along_s { s } else { t };
    let first = tap_first(i, old, new);
    (tap_weight(table, i, old, new, 0) * tap_texel(g, wrap, along_s, s, t, first)
        + tap_weight(table, i, old, new, 1) * tap_texel(g, wrap, along_s, s, t, first + 1)
        + tap_weight(table, i, old, new, 2) * tap_texel(g, wrap, along_s, s, t, first + 2)
        + tap_weight(table, i, old, new, 3) * tap_texel(g, wrap, along_s, s, t, first + 3))
        / tap_total(table, i, old, new)
}

/// `g` resampled to `new` texels along its rows (`along_s`) or its columns.
pub open spec fn resample_axis(g: Grid, wrap: ImageWrap, table: Seq<int>, new: int, along_s: bool) -> Grid {
    let w = if along_s { new } else { g.width };
    let h = if along_s { g.height } else { new };
    Grid {
        width: w,
        height: h,
        texels: Seq::new(
            (w * h) as nat,
            |i: int| resampled_texel(g, wrap, table, new, along_s, i % w, i / w),
        ),
    }
}

/// The centre of an output texel lies inside the source, and the kernel's
/// arguments lie in `[0, ONE]`.
pub proof fn lemma_tap_bounds(i: int, old: int, new: int, j: int)
    requires
        1 <= old <= MAX_DIM,
        1 <= new <= MAX_DIM,
        0 <= i < new,
        0 <= j < 4,
    ensures
        0 <= (2 * i + 1) * old * (ONE as int) <= 0x8000_0000_0000,
        0 <= tap_center(i, old, new) <= old * ONE,
        -2 <= tap_first(i, old, new) <= old,
        0 <= tap_distance(i, old, new, j) <= ONE,
{
    let n = (2 * i + 1) * old * (ONE as int);
    assert(0 <= (2 * i + 1) * old <= 2 * new * old && 2 * new * old <= 0x8000_0000) by (nonlinear_arith)
        requires
            1 <= old <= 32768,
            1 <= new <= 32768,
            0 <= i < new,
    ;
    assert(n == ((2 * i + 1) * old) * 65536) by (nonlinear_arith)
        requires
            n == (2 * i + 1) * old * 65536,
    ;
    assert(n <= (2 * new) * (old * 65536)) by (nonlinear_arith)
        requires
            n == ((2 * i + 1) * old) * 65536,
            (2 * i + 1) * old <= 2 * new * old,
    ;
    let c = n / (2 * new);
    assert(0 <= c <= old * 65536) by (nonlinear_arith)
        requires
            c == n / (2 * new),
            0 <= n <= (2 * new) * (old * 65536),
            new >= 1,
    {
        vstd::arithmetic::div_mod::lemma_div_is_ordered(n, (2 * new) * (old * 65536), 2 * new);
        vstd::arithmetic::div_mod::lemma_div_multiples_vanish(old * 65536, 2 * new);
        vstd::arithmetic::div_mod::lemma_div_pos_is_pos(n, 2 * new);
    }
}

/// A mean of four texels in range, under weights that are not negative, is in range.
pub proof fn lemma_weighted_mean_in_range(w: Seq<int>, v: Seq<int>)
    requires
        w.len() == 4,
        v.len() == 4,
        forall|j: int| 0 <= j < 4 ==> 0 <= #[trigger] w[j],
        forall|j: int| 0 <= j < 4 ==> texel_in_range(#[trigger] v[j]),
        w[0] + w[1] + w[2] + w[3] > 0,
    ensures
        texel_in_range((w[0] * v[0] + w[1] * v[1] + w[2] * v[2] + w[3] * v[3]) / (w[0] + w[1] + w[2] + w[3])),
        -(TEXEL_MAX * (w[0] + w[1] + w[2] + w[3])) <= w[0] * v[0] + w[1] * v[1] + w[2] * v[2] + w[3] * v[3]
            <= TEXEL_MAX * (w[0] + w[1] + w[2] + w[3]),
{
    let m = TEXEL_MAX as int;
    assert forall|j: int| 0 <= j < 4 implies -(m * w[j]) <= #[trigger] (w[j] * v[j]) <= m * w[j] by {
        let a = w[j];
        let b = v[j];
        assert(-(m * a) <= a * b <= m * a) by (nonlinear_arith)
            requires
                0 <= a,
                -m <= b <= m,
        ;
    }
    assert(w[0] * v[0] <= m * w[0] && w[1] * v[1] <= m * w[1] && w[2] * v[2] <= m * w[2] && w[3] * v[3] <= m * w[3]);
    let den = w[0] + w[1] + w[2] + w[3];
    assert(m * den == m * w[0] + m * w[1] + m * w[2] + m * w[3]) by (nonlinear_arith)
        requires
            den == w[0] + w[1] + w[2] + w[3],
    ;
    crate::mipmap::fixed::lemma_quotient_bounds(w[0] * v[0] + w[1] * v[1] + w[2] * v[2] + w[3] * v[3], den, m);
}

/// A mean of four values between `lo` and `hi`, under weights that are not
/// negative, lies between `lo` and `hi`.
pub proof fn lemma_weighted_mean_between(w: Seq<int>, v: Seq<int>, lo: int, hi: int)
    requires
        w.len() == 4,
        v.len() == 4,
        forall|j: int| 0 <= j < 4 ==> 0 <= #[trigger] w[j],
        forall|j: int| 0 <= j < 4 ==> lo <= #[trigger] v[j] <= hi,
        w[0] + w[1] + w[2] + w[3] > 0,
    ensures
        lo <= (w[0] * v[0] + w[1] * v[1] + w[2] * v[2] + w[3] * v[3]) / (w[0] + w[1] + w[2] + w[3]) <= hi,
{
    assert forall|j: int| 0 <= j < 4 implies lo * w[j] <= #[trigger] (w[j] * v[j]) <= hi * w[j] by {
        let a = w[j];
        let b = v[j];
        assert(lo * a <= a * b <= hi * a) by (nonlinear_arith)
            requires
                0 <= a,
                lo <= b <= hi,
        ;
    }
    assert(w[0] * v[0] <= hi * w[0] && w[1] * v[1] <= hi * w[1] && w[2] * v[2] <= hi * w[2] && w[3] * v[3] <= hi
        * w[3]);
    let den = w[0] + w[1] + w[2] + w[3];
    assert(hi * den == hi * w[0] + hi * w[1] + hi * w[2] + hi * w[3]) by (nonlinear_arith)
        requires
            den == w[0] + w[1] + w[2] + w[3],
    ;
    assert(lo * den == lo * w[0] + lo * w[1] + lo * w[2] + lo * w[3]) by (nonlinear_arith)
        requires
            den == w[0] + w[1] + w[2] + w[3],
    ;
    crate::mipmap::fixed::lemma_quotient_between(
        w[0] * v[0] + w[1] * v[1] + w[2] * v[2] + w[3] * v[3],
        den,
        lo,
        hi,
    );
}

/// Resampling a grid whose texels lie between `lo` and `hi` gives texels
/// between them, whatever the kernel.
pub proof fn lemma_resample_within(g: Grid, wrap: ImageWrap, table: Seq<int>, new: int, along_s: bool, lo: int, hi: int)
    requires
        g.wf(),
        g.within(lo, hi),
        wrap != ImageWrap::Black || lo <= 0 <= hi,
        table_wf(table),
        1 <= new <= MAX_DIM,
        !axis_degenerate(table, if along_s { g.width } else { g.height }, new),
    ensures
        resample_axis(g, wrap, table, new, along_s).within(lo, hi),
{
    let r = resample_axis(g, wrap, table, new, along_s);
    let w = r.width;
    let h = r.height;
    let old = if along_s { g.width } else { g.height };
    assert forall|k: int| 0 <= k < r.texels.len() implies lo <= #[trigger] r.texels[k] <= hi by {
        let s = k % w;
        let t = k / w;
        assert(0 <= s < w && 0 <= t < h) by (nonlinear_arith)
            requires
                0 <= k < w * h,
                w >= 1,
                h >= 1,
                s == k % w,
                t == k / w,
        ;
        let i = if along_s { s } else { t };
        let first = tap_first(i, old, new);
        assert(tap_total(table, i, old, new) > 0);
        let ws: Seq<int> = Seq::new(4, |j: int| tap_weight(table, i, old, new, j));
        let vs: Seq<int> = Seq::new(4, |j: int| tap_texel(g, wrap, along_s, s, t, first + j));
        assert forall|j: int| 0 <= j < 4 implies 0 <= #[trigger] ws[j] by {
            lemma_tap_bounds(i, old, new, j);
            lemma_sample_index_bounds(table.len() as int, tap_distance(i, old, new, j));
        }
        assert forall|j: int| 0 <= j < 4 implies lo <= #[trigger] vs[j] <= hi by {
            crate::mipmap::level::lemma_fetch_within(g, wrap, lo, hi, first + j, t);
            crate::mipmap::level::lemma_fetch_within(g, wrap, lo, hi, s, first + j);
        }
        lemma_weighted_mean_between(ws, vs, lo, hi);
    }
}

/// Resampling a constant grid under `Repeat` or `Clamp` gives the same
/// constant, whatever the kernel.
pub proof fn lemma_resample_constant(g: Grid, wrap: ImageWrap, table: Seq<int>, new: int, along_s: bool, c: int)
    requires
        g.wf(),
        g.is_constant(c),
        wrap != ImageWrap::Black,
        table_wf(table),
        1 <= new <= MAX_DIM,
        !axis_degenerate(table, if along_s { g.width } else { g.height }, new),
    ensures
        resample_axis(g, wrap, table, new, along_s).is_constant(c),
{
    let r = resample_axis(g, wrap, table, new, along_s);
    let w = r.width;
    let h = r.height;
    let old = if along_s { g.width } else { g.height };
    assert forall|k: int| 0 <= k < r.texels.len() implies #[trigger] r.texels[k] == c by {
        let s = k % w;
        let t = k / w;
        assert(0 <= s < w && 0 <= t < h) by (nonlinear_arith)
            requires
                0 <= k < w * h,
                w >= 1,
                h >= 1,
                s == k % w,
                t == k / w,
        ;
        let i = if along_s { s } else { t };
        let first = tap_first(i, old, new);
        assert(tap_total(table, i, old, new) > 0);
        let w0 = tap_weight(table, i, old, new, 0);
        let w1 = tap_weight(table, i, old, new, 1);
        let w2 = tap_weight(table, i, old, new, 2);
        let w3 = tap_weight(table, i, old, new, 3);
        crate::mipmap::level::lemma_fetch_constant(g, wrap, c, first, t);
        crate::mipmap::level::lemma_fetch_constant(g, wrap, c, first + 1, t);
        crate::mipmap::level::lemma_fetch_constant(g, wrap, c, first + 2, t);
        crate::mipmap::level::lemma_fetch_constant(g, wrap, c, first + 3, t);
        crate::mipmap::level::lemma_fetch_constant(g, wrap, c, s, first);
        crate::mipmap::level::lemma_fetch_constant(g, wrap, c, s, first + 1);
        crate::mipmap::level::lemma_fetch_constant(g, wrap, c, s, first + 2);
        crate::mipmap::level::lemma_fetch_constant(g, wrap, c, s, first + 3);
        assert(w0 * c + w1 * c + w2 * c + w3 * c == c * (w0 + w1 + w2 + w3)) by (nonlinear_arith);
        crate::mipmap::fixed::lemma_quotient_exact(c, w0 + w1 + w2 + w3);
    }
}

/// Resampling a well-formed grid gives a well-formed grid.
pub proof fn lemma_resample_wf(g: Grid, wrap: ImageWrap, table: Seq<int>, new: int, along_s: bool)
    requires
        g.wf(),
        table_wf(table),
        1 <= new <= MAX_DIM,
        !axis_degenerate(table, if along_s { g.width } else { g.height }, new),
    ensures
        resample_axis(g, wrap, table, new, along_s).wf(),
{
    let r = resample_axis(g, wrap, table, new, along_s);
    let w = r.width;
    let h = r.height;
    let old = if along_s { g.width } else { g.height };
    assert forall|k: int| 0 <= k < r.texels.len() implies texel_in_range(#[trigger] r.texels[k]) by {
        let s = k % w;
        let t = k / w;
        assert(0 <= s < w && 0 <= t < h) by (nonlinear_arith)
            requires
                0 <= k < w * h,
                w >= 1,
                h >= 1,
                s == k % w,
                t == k / w,
        ;
        let i = if along_s { s } else { t };
        let first = tap_first(i, old, new);
        assert(tap_total(table, i, old, new) > 0);
        let ws: Seq<int> = Seq::new(4, |j: int| tap_weight(table, i, old, new, j));
        let vs: Seq<int> = Seq::new(4, |j: int| tap_texel(g, wrap, along_s, s, t, first + j));
        assert forall|j: int| 0 <= j < 4 implies 0 <= #[trigger] ws[j] by {
            lemma_tap_bounds(i, old, new, j);
            lemma_sample_index_bounds(table.len() as int, tap_distance(i, old, new, j));
        }
        assert forall|j: int| 0 <= j < 4 implies texel_in_range(#[trigger] vs[j]) by {
            lemma_fetch_in_bounds(g, wrap, first + j, t);
            lemma_fetch_in_bounds(g, wrap, s, first + j);
        }
        lemma_weighted_mean_in_range(ws, vs);
    }
}

impl Level {
    /// The weights of every output texel of an axis stretched from `old` to
    /// `new` texels, or `None` where some output texel would get no weight.
    pub fn resample_taps(table: &WeightTable, old: usize, new: usize) -> (r: Option<Vec<Tap>>)
        requires
            table.wf(),
            1 <= old <= MAX_DIM,
            1 <= new <= MAX_DIM,
        ensures
            r.is_none() <==> axis_degenerate(table@, old as int, new as int),
            r matches Some(taps) ==> {
                &&& taps@.len() == new
                &&& forall|i: int| 0 <= i < new ==> tap_matches(#[trigger] taps@[i], table@, i, old as int, new as int)
            },
    {
        let mut taps: Vec<Tap> = Vec::new();
        let mut i: usize = 0;
        while i < new
            invariant
                table.wf(),
                1 <= old <= MAX_DIM,
                1 <= new <= MAX_DIM,
                i <= new,
                taps@.len() == i,
                forall|k: int| 0 <= k < i ==> tap_matches(#[trigger] taps@[k], table@, k, old as int, new as int),
                forall|k: int| 0 <= k < i ==> #[trigger] tap_total(table@, k, old as int, new as int) > 0,
            decreases new - i,
        {
            proof {
                lemma_tap_bounds(i as int, old as int, new as int, 0);
                lemma_tap_bounds(i as int, old as int, new as int, 1);
                lemma_tap_bounds(i as int, old as int, new as int, 2);
                lemma_tap_bounds(i as int, old as int, new as int, 3);
                assert((2 * i + 1) * old * (ONE as int) == ((2 * i + 1) * old) * 65536) by (nonlinear_arith);
                assert(0 <= (2 * i + 1) * old <= 0x8000_0000) by (nonlinear_arith)
                    requires
                        1 <= old <= 32768,
                        0 <= i < 32768,
                ;
            }
            let num: i128 = (2 * (i as i128) + 1) * (old as i128) * (ONE as i128);
            let center: i128 = num / (2 * (new as i128));
            let first: i128 = floor_div(center - 3 * (HALF as i128), ONE as i128);
            let mut weights: [Fixed; 4] = [0, 0, 0, 0];
            let mut j: usize = 0;
            while j < 4
                invariant
                    table.wf(),
                    1 <= old <= MAX_DIM,
                    1 <= new <= MAX_DIM,
                    i < new,
                    j <= 4,
                    center == tap_center(i as int, old as int, new as int),
                    first == tap_first(i as int, old as int, new as int),
                    0 <= center <= old * ONE,
                    -2 <= first <= old,
                    forall|k: int| 0 <= k < j ==> #[trigger] weights@[k] == tap_weight(table@, i as int, old as int, new as int, k),
                    forall|k: int| 0 <= k < 4 ==> 0 <= #[trigger] weights@[k] <= ONE,
                decreases 4 - j,
            {
                proof {
                    lemma_tap_bounds(i as int, old as int, new as int, j as int);
                }
                let d: i128 = (first + j as i128) * (ONE as i128) + HALF as i128 - center;
                let a: i128 = if d < 0 { -d } else { d };
                let w = table.weight((a / 2) as i64);
                weights[j] = w;
                j = j + 1;
            }
            let total: i64 = weights[0] + weights[1] + weights[2] + weights[3];
            if total <= 0 {
                assert(tap_total(table@, i as int, old as int, new as int) <= 0);
                return None;
            }
            taps.push(Tap { first: first as i64, weights });
            i = i + 1;
        }
        Some(taps)
    }

    /// This level stretched to `new` texels along its rows (`along_s`) or
    /// along its columns. Fails where the kernel leaves some output texel
    /// without weight.
    pub fn resample(&self, wrap: ImageWrap, table: &WeightTable, new: usize, along_s: bool) -> (r: Result<Level, MipError>)
        requires
            self.wf(),
            table.wf(),
            1 <= new <= MAX_DIM,
        ensures
            r.is_err() <==> axis_degenerate(
                table@,
                if along_s { self@.width } else { self@.height },
                new as int,
            ),
            r matches Err(e) ==> e == MipError::DegenerateFilter,
            r matches Ok(level) ==> level.wf() && level@ == resample_axis(self@, wrap, table@, new as int, along_s),
    {
        let old: usize = if along_s { self.width() } else { self.height() };
        let taps = match Self::resample_taps(table, old, new) {
            Some(taps) => taps,
            None => {
                return Err(MipError::DegenerateFilter);
            },
        };
        let w: usize = if along_s { new } else { self.width() };
        let h: usize = if along_s { self.height() } else { new };
        let ghost g = self@;
        let ghost tb = table@;
        let mut texels: Vec<i64> = Vec::new();
        let mut t: usize = 0;
        while t < h
            invariant
                self.wf(),
                g == self@,
                tb == table@,
                1 <= new <= MAX_DIM,
                old == (if along_s { g.width } else { g.height }),
                w == (if along_s { new as int } else { g.width }),
                h == (if along_s { g.height } else { new as int }),
                taps@.len() == new,
                forall|i: int| 0 <= i < new ==> tap_matches(#[trigger] taps@[i], tb, i, old as int, new as int),
                !axis_degenerate(tb, old as int, new as int),
                table_wf(tb),
                t <= h,
                texels@.len() == t * w,
                forall|i: int| 0 <= i < texels@.len() ==> #[trigger] texels@[i] == resampled_texel(g, wrap, tb, new as int, along_s, i % (w as int), i / (w as int)),
                forall|i: int| 0 <= i < texels@.len() ==> texel_in_range(#[trigger] texels@[i] as int),
            decreases h - t,
        {
            let mut s: usize = 0;
            while s < w
                invariant
                    self.wf(),
                    g == self@,
                    tb == table@,
                    1 <= new <= MAX_DIM,
                    old == (if along_s { g.width } else { g.height }),
                    w == (if along_s { new as int } else { g.width }),
                    h == (if along_s { g.height } else { new as int }),
                    taps@.len() == new,
                    forall|i: int| 0 <= i < new ==> tap_matches(#[trigger] taps@[i], tb, i, old as int, new as int),
                    !axis_degenerate(tb, old as int, new as int),
                    table_wf(tb),
                    t < h,
                    s <= w,
                    texels@.len() == t * w + s,
                    forall|i: int| 0 <= i < texels@.len() ==> #[trigger] texels@[i] == resampled_texel(g, wrap, tb, new as int, along_s, i % (w as int), i / (w as int)),
                    forall|i: int| 0 <= i < texels@.len() ==> texel_in_range(#[trigger] texels@[i] as int),
                decreases w - s,
            {
                let i: usize = if along_s { s } else { t };
                let tap = &taps[i];
                let first: i128 = tap.first as i128;
                let ghost ws: Seq<int> = Seq::new(4, |j: int| tap_weight(tb, i as int, old as int, new as int, j));
                let ghost vs: Seq<int> = Seq::new(4, |j: int| tap_texel(g, wrap, along_s, s as int, t as int, first + j));
                proof {
                    assert(tap_matches(taps@[i as int], tb, i as int, old as int, new as int));
                    assert(tap_total(tb, i as int, old as int, new as int) > 0);
                    assert forall|j: int| 0 <= j < 4 implies 0 <= #[trigger] ws[j] <= ONE by {
                        lemma_tap_bounds(i as int, old as int, new as int, j);
                        lemma_sample_index_bounds(tb.len() as int, tap_distance(i as int, old as int, new as int, j));
                    }
                    assert forall|j: int| 0 <= j < 4 implies texel_in_range(#[trigger] vs[j]) by {
                        lemma_fetch_in_bounds(g, wrap, first + j, t as int);
                        lemma_fetch_in_bounds(g, wrap, s as int, first + j);
                    }
                    lemma_weighted_mean_in_range(ws, vs);
                    lemma_tap_bounds(i as int, old as int, new as int, 0);
                }
                let mut acc: i128 = 0;
                let mut total: i128 = 0;
                let mut j: usize = 0;
                while j < 4
                    invariant
                        self.wf(),
                        g == self@,
                        j <= 4,
                        i < new,
                        *tap == taps@[i as int],
                        tap_matches(*tap, tb, i as int, old as int, new as int),
                        first == tap.first,
                        -2 <= first <= MAX_DIM,
                        ws.len() == 4,
                        vs.len() == 4,
                        forall|k: int| 0 <= k < 4 ==> 0 <= #[trigger] ws[k] <= ONE,
                        forall|k: int| 0 <= k < 4 ==> texel_in_range(#[trigger] vs[k]),
                        forall|k: int| 0 <= k < 4 ==> #[trigger] ws[k] == tap_weight(tb, i as int, old as int, new as int, k),
                        forall|k: int| 0 <= k < 4 ==> #[trigger] vs[k] == tap_texel(g, wrap, along_s, s as int, t as int, first + k),
                        total == (if j >= 1 { ws[0] } else { 0 }) + (if j >= 2 { ws[1] } else { 0 }) + (if j >= 3 { ws[2] } else { 0 }) + (if j >= 4 { ws[3] } else { 0 }),
                        acc == (if j >= 1 { ws[0] * vs[0] } else { 0 }) + (if j >= 2 { ws[1] * vs[1] } else { 0 }) + (if j >= 3 { ws[2] * vs[2] } else { 0 }) + (if j >= 4 { ws[3] * vs[3] } else { 0 }),
                        -(j * (ONE * TEXEL_MAX)) <= acc <= j * (ONE * TEXEL_MAX),
                    decreases 4 - j,
                {
                    let k: i128 = first + j as i128;
                    let v: i64 = if along_s {
                        self.texel(wrap, k, t as i128)
                    } else {
                        self.texel(wrap, s as i128, k)
                    };
                    let wt: i64 = tap.weights[j];
                    proof {
                        assert(wt == ws[j as int]);
                        assert(v == vs[j as int]);
                        let a = wt as int;
                        let b = v as int;
                        assert(-(ONE * TEXEL_MAX) <= a * b <= ONE * TEXEL_MAX) by (nonlinear_arith)
                            requires
                                0 <= a <= ONE,
                                -TEXEL_MAX <= b <= TEXEL_MAX,
                        ;
                    }
                    acc = acc + (wt as i128) * (v as i128);
                    total = total + wt as i128;
                    j = j + 1;
                }
                let value = floor_div(acc, total);
                proof {
                    lemma_row_major(s as int, t as int, w as int, h as int);
                    assert(value == resampled_texel(g, wrap, tb, new as int, along_s, s as int, t as int));
                }
                texels.push(value as i64);
                s = s + 1;
            }
            proof {
                assert((t + 1) * w == t * w + w) by (nonlinear_arith);
            }
            t = t + 1;
        }
        proof {
            assert(t * w == w * h) by (nonlinear_arith)
                requires
                    t == h,
            ;
        }
        let level = Level::from_parts(w, h, texels);
        proof {
            let target = resample_axis(g, wrap, tb, new as int, along_s);
            assert forall|i: int| 0 <= i < level@.texels.len() implies level@.texels[i] == target.texels[i] by {
                assert(level@.texels[i] == texels@[i] as int);
            }
            assert(level@.texels =~= target.texels);
        }
        Ok(level)
    }
}

} // verus!
