//! Elliptically weighted averaging: the mean of the texels under an
//! elliptical footprint, each weighted by a radially symmetric kernel at its
//! distance from the centre, measured in the ellipse's own metric.
//!
//! At a level of `w` by `h` texels the footprint with axes `(a0, b0)` and
//! `(a1, b1)` is the ellipse `A ss^2 - 2 B ss tt + C tt^2 < F` around the
//! sample point, where `ss` and `tt` are a texel's offsets from the sample point,
//! `A = (b0^2 + b1^2) h^2 + 1`, `B = (a0 b0 + a1 b1) w h`,
//! `C = (a0^2 + a1^2) w^2 + 1` and `F = A C - B^2`.
//! The kernel's argument is the ratio of the two sides, in `[0, 1)`.

use vstd::prelude::*;
use crate::mipmap::filter::{bilinear, magnitude, texel_position};
use crate::mipmap::fixed::{floor_div, isqrt_ceil, sqrt_ceil, Fixed, HALF, ONE, TEXEL_MAX};
use crate::mipmap::footprint::{Axes, ANISO_MAX};
use crate::mipmap::kernel::{weight_at, WeightTable};
use crate::mipmap::level::{texel_in_range, Grid, Level};
use crate::mipmap::wrap::ImageWrap;

verus! {

/// Largest value of the coefficients `A` and `C` for which the ellipse is
/// scanned: a footprint under this bound is at most 256 texels wide either way
/// from the sample point.
pub const EXTENT_MAX: i128 = 0x8000_0000_0000;

/// An ellipse around a sample point, at one level.
pub struct Scan {
    /// Coefficient of `ss^2`.
    pub a: int,
    /// Half the (negated) coefficient of `ss * tt`.
    pub b: int,
    /// Coefficient of `tt^2`.
    pub c: int,
    /// Position of the sample point along `s`, in fixed-point texels.
    pub x: int,
    /// Position of the sample point along `t`, in fixed-point texels.
    pub y: int,
}

impl Scan {
    /// The ellipse of `axes` around `(s, t)` at a level of `w` by `h` texels.
    pub open spec fn new(axes: Axes, s: int, t: int, w: int, h: int) -> Scan {
        Scan {
            a: axes.syy() * (h * h) + ONE * ONE,
            b: axes.sxy() * (w * h),
            c: axes.sxx() * (w * w) + ONE * ONE,
            x: texel_position(s, w),
            y: texel_position(t, h),
        }
    }

    /// The right-hand side `F` of the ellipse's inequality.
    pub open spec fn f(self) -> int {
        self.a * self.c - self.b * self.b
    }

    /// The left-hand side of the ellipse's inequality at texel `(is, it)`.
    pub open spec fn q(self, is: int, it: int) -> int {
        let ss = is * ONE - self.x;
        let tt = it * ONE - self.y;
        self.a * (ss * ss) - 2 * self.b * (ss * tt) + self.c * (tt * tt)
    }

    /// The weight of texel `(is, it)`: the kernel at its squared radius where
    /// the texel is inside the ellipse, zero outside.
    pub open spec fn weight(self, lut: Seq<int>, is: int, it: int) -> int {
        let q = self.q(is, it);
        if 0 <= q < self.f() {
            weight_at(lut, q * ONE / self.f())
        } else {
            0
        }
    }

    /// First column of the scanned box.
    pub open spec fn s_lo(self) -> int {
        (self.x - sqrt_ceil(self.c) + ONE - 1) / (ONE as int)
    }

    /// One past the last column of the scanned box.
    pub open spec fn s_hi(self) -> int {
        (self.x + sqrt_ceil(self.c)) / (ONE as int) + 1
    }

    /// First row of the scanned box.
    pub open spec fn t_lo(self) -> int {
        (self.y - sqrt_ceil(self.a) + ONE - 1) / (ONE as int)
    }

    /// One past the last row of the scanned box.
    pub open spec fn t_hi(self) -> int {
        (self.y + sqrt_ceil(self.a)) / (ONE as int) + 1
    }

    /// Total weight of the texels of row `it` in columns `lo..hi`.
    pub open spec fn row_weight(self, lut: Seq<int>, it: int, lo: int, hi: int) -> int
        decreases hi - lo,
    {
        if lo >= hi {
            0
        } else {
            self.row_weight(lut, it, lo, hi - 1) + self.weight(lut, hi - 1, it)
        }
    }

    /// Weighted sum of the texels of row `it` in columns `lo..hi`.
    pub open spec fn row_value(self, g: Grid, wrap: ImageWrap, lut: Seq<int>, it: int, lo: int, hi: int) -> int
        decreases hi - lo,
    {
        if lo >= hi {
            0
        } else {
            self.row_value(g, wrap, lut, it, lo, hi - 1) + self.weight(lut, hi - 1, it) * g.fetch(
                wrap,
                hi - 1,
                it,
            )
        }
    }

    /// Total weight of the texels of the scanned box in rows `lo..hi`.
    pub open spec fn area_weight(self, lut: Seq<int>, lo: int, hi: int) -> int
        decreases hi - lo,
    {
        if lo >= hi {
            0
        } else {
            self.area_weight(lut, lo, hi - 1) + self.row_weight(lut, hi - 1, self.s_lo(), self.s_hi())
        }
    }

    /// Weighted sum of the texels of the scanned box in rows `lo..hi`.
    pub open spec fn area_value(self, g: Grid, wrap: ImageWrap, lut: Seq<int>, lo: int, hi: int) -> int
        decreases hi - lo,
    {
        if lo >= hi {
            0
        } else {
            self.area_value(g, wrap, lut, lo, hi - 1) + self.row_value(
                g,
                wrap,
                lut,
                hi - 1,
                self.s_lo(),
                self.s_hi(),
            )
        }
    }
}

/// The elliptically weighted average of `g` around `(s, t)`: the weighted mean
/// of the texels inside the ellipse. Where the ellipse is too wide to scan at
/// this level, or no texel under it has any weight, the bilinear sample stands
/// in for it.
pub open spec fn ewa_sample(g: Grid, wrap: ImageWrap, lut: Seq<int>, s: int, t: int, axes: Axes) -> int {
    let scan = Scan::new(axes, s, t, g.width, g.height);
    if scan.a > EXTENT_MAX || scan.c > EXTENT_MAX {
        bilinear(g, wrap, s, t)
    } else {
        let total = scan.area_weight(lut, scan.t_lo(), scan.t_hi());
        if total <= 0 {
            bilinear(g, wrap, s, t)
        } else {
            scan.area_value(g, wrap, lut, scan.t_lo(), scan.t_hi()) / total
        }
    }
}

/// Over a constant grid, the weighted sum of a row is the constant times the
/// row's weight.
pub proof fn lemma_row_of_constant(scan: Scan, g: Grid, wrap: ImageWrap, lut: Seq<int>, c: int, it: int, lo: int, hi: int)
    requires
        g.wf(),
        g.is_constant(c),
        wrap != ImageWrap::Black,
    ensures
        scan.row_value(g, wrap, lut, it, lo, hi) == c * scan.row_weight(lut, it, lo, hi),
    decreases hi - lo,
{
    if lo < hi {
        lemma_row_of_constant(scan, g, wrap, lut, c, it, lo, hi - 1);
        crate::mipmap::level::lemma_fetch_constant(g, wrap, c, hi - 1, it);
        let w = scan.weight(lut, hi - 1, it);
        let before = scan.row_weight(lut, it, lo, hi - 1);
        assert(c * before + w * c == c * (before + w)) by (nonlinear_arith);
    } else {
        assert(c * 0 == 0);
    }
}

/// Over a constant grid, the weighted sum of the scanned box is the constant
/// times the box's weight.
pub proof fn lemma_area_of_constant(scan: Scan, g: Grid, wrap: ImageWrap, lut: Seq<int>, c: int, lo: int, hi: int)
    requires
        g.wf(),
        g.is_constant(c),
        wrap != ImageWrap::Black,
    ensures
        scan.area_value(g, wrap, lut, lo, hi) == c * scan.area_weight(lut, lo, hi),
    decreases hi - lo,
{
    if lo < hi {
        lemma_area_of_constant(scan, g, wrap, lut, c, lo, hi - 1);
        lemma_row_of_constant(scan, g, wrap, lut, c, hi - 1, scan.s_lo(), scan.s_hi());
        let row = scan.row_weight(lut, hi - 1, scan.s_lo(), scan.s_hi());
        let before = scan.area_weight(lut, lo, hi - 1);
        assert(c * before + c * row == c * (before + row)) by (nonlinear_arith);
    } else {
        assert(c * 0 == 0);
    }
}

/// The elliptically weighted average of a constant grid is the constant,
/// under `Repeat` and `Clamp`, whatever the footprint and the kernel.
pub proof fn lemma_ewa_of_constant(g: Grid, wrap: ImageWrap, lut: Seq<int>, c: int, s: int, t: int, axes: Axes)
    requires
        g.wf(),
        g.is_constant(c),
        wrap != ImageWrap::Black,
    ensures
        ewa_sample(g, wrap, lut, s, t, axes) == c,
{
    let scan = Scan::new(axes, s, t, g.width, g.height);
    crate::mipmap::filter::lemma_bilinear_of_constant(g, wrap, c, s, t);
    let total = scan.area_weight(lut, scan.t_lo(), scan.t_hi());
    if total > 0 {
        lemma_area_of_constant(scan, g, wrap, lut, c, scan.t_lo(), scan.t_hi());
        crate::mipmap::fixed::lemma_quotient_exact(c, total);
    }
}

/// No texel has a negative weight.
pub proof fn lemma_weight_not_negative(scan: Scan, lut: Seq<int>, is: int, it: int)
    requires
        crate::mipmap::kernel::table_wf(lut),
    ensures
        0 <= scan.weight(lut, is, it),
{
    let q = scan.q(is, it);
    let f = scan.f();
    if 0 <= q < f {
        assert(0 <= q * ONE) by (nonlinear_arith)
            requires
                0 <= q,
        ;
        vstd::arithmetic::div_mod::lemma_div_pos_is_pos(q * ONE, f);
        assert(q * ONE < f * ONE) by (nonlinear_arith)
            requires
                q < f,
        ;
        vstd::arithmetic::div_mod::lemma_multiply_divide_lt(q * ONE, f, ONE as int);
        crate::mipmap::kernel::lemma_sample_index_bounds(lut.len() as int, q * ONE / f);
    }
}

/// Over a grid whose texels lie between `lo` and `hi`, the weighted sum of a
/// row lies between `lo` and `hi` times the row's weight.
pub proof fn lemma_row_within(scan: Scan, g: Grid, wrap: ImageWrap, lut: Seq<int>, lo: int, hi: int, it: int, from: int, to: int)
    requires
        g.wf(),
        g.within(lo, hi),
        wrap != ImageWrap::Black || lo <= 0 <= hi,
        crate::mipmap::kernel::table_wf(lut),
    ensures
        0 <= scan.row_weight(lut, it, from, to),
        lo * scan.row_weight(lut, it, from, to) <= scan.row_value(g, wrap, lut, it, from, to) <= hi * scan.row_weight(
            lut,
            it,
            from,
            to,
        ),
    decreases to - from,
{
    if from < to {
        lemma_row_within(scan, g, wrap, lut, lo, hi, it, from, to - 1);
        crate::mipmap::level::lemma_fetch_within(g, wrap, lo, hi, to - 1, it);
        lemma_weight_not_negative(scan, lut, to - 1, it);
        let w = scan.weight(lut, to - 1, it);
        let v = g.fetch(wrap, to - 1, it);
        let before = scan.row_weight(lut, it, from, to - 1);
        assert(lo * w <= w * v <= hi * w) by (nonlinear_arith)
            requires
                0 <= w,
                lo <= v <= hi,
        ;
        assert(lo * (before + w) == lo * before + lo * w && hi * (before + w) == hi * before + hi * w)
            by (nonlinear_arith);
    } else {
        assert(lo * 0 == 0 && hi * 0 == 0);
    }
}

/// Over a grid whose texels lie between `lo` and `hi`, the weighted sum of
/// the scanned box lies between `lo` and `hi` times the box's weight.
pub proof fn lemma_area_within(scan: Scan, g: Grid, wrap: ImageWrap, lut: Seq<int>, lo: int, hi: int, from: int, to: int)
    requires
        g.wf(),
        g.within(lo, hi),
        wrap != ImageWrap::Black || lo <= 0 <= hi,
        crate::mipmap::kernel::table_wf(lut),
    ensures
        0 <= scan.area_weight(lut, from, to),
        lo * scan.area_weight(lut, from, to) <= scan.area_value(g, wrap, lut, from, to) <= hi * scan.area_weight(
            lut,
            from,
            to,
        ),
    decreases to - from,
{
    if from < to {
        lemma_area_within(scan, g, wrap, lut, lo, hi, from, to - 1);
        lemma_row_within(scan, g, wrap, lut, lo, hi, to - 1, scan.s_lo(), scan.s_hi());
        let row = scan.row_weight(lut, to - 1, scan.s_lo(), scan.s_hi());
        let before = scan.area_weight(lut, from, to - 1);
        assert(lo * (before + row) == lo * before + lo * row && hi * (before + row) == hi * before + hi * row)
            by (nonlinear_arith);
    } else {
        assert(lo * 0 == 0 && hi * 0 == 0);
    }
}

/// The elliptically weighted average of a grid whose texels lie between `lo`
/// and `hi` lies between them, whatever the footprint and the kernel.
pub proof fn lemma_ewa_within(g: Grid, wrap: ImageWrap, lut: Seq<int>, lo: int, hi: int, s: int, t: int, axes: Axes)
    requires
        g.wf(),
        g.within(lo, hi),
        wrap != ImageWrap::Black || lo <= 0 <= hi,
        crate::mipmap::kernel::table_wf(lut),
    ensures
        lo <= ewa_sample(g, wrap, lut, s, t, axes) <= hi,
{
    let scan = Scan::new(axes, s, t, g.width, g.height);
    crate::mipmap::filter::lemma_bilinear_within(g, wrap, lo, hi, s, t);
    let total = scan.area_weight(lut, scan.t_lo(), scan.t_hi());
    if total > 0 {
        lemma_area_within(scan, g, wrap, lut, lo, hi, scan.t_lo(), scan.t_hi());
        crate::mipmap::fixed::lemma_quotient_between(
            scan.area_value(g, wrap, lut, scan.t_lo(), scan.t_hi()),
            total,
            lo,
            hi,
        );
    }
}

/// The cross term of the axes is at most the geometric mean of the two
/// square terms.
pub proof fn lemma_cross_term(axes: Axes)
    ensures
        axes.sxy() * axes.sxy() <= axes.sxx() * axes.syy(),
        0 <= axes.sxx(),
        0 <= axes.syy(),
{
    let a0 = axes.major_s as int;
    let b0 = axes.major_t as int;
    let a1 = axes.minor_s as int;
    let b1 = axes.minor_t as int;
    let p = a0 * b0;
    let q = a1 * b1;
    let u = a0 * b1;
    let v = a1 * b0;
    let aa = a0 * a0;
    let bb = a1 * a1;
    let cc = b0 * b0;
    let dd = b1 * b1;
    assert(aa * cc == p * p) by (nonlinear_arith)
        requires
            aa == a0 * a0,
            cc == b0 * b0,
            p == a0 * b0,
    ;
    assert(bb * dd == q * q) by (nonlinear_arith)
        requires
            bb == a1 * a1,
            dd == b1 * b1,
            q == a1 * b1,
    ;
    assert(aa * dd == u * u) by (nonlinear_arith)
        requires
            aa == a0 * a0,
            dd == b1 * b1,
            u == a0 * b1,
    ;
    assert(bb * cc == v * v) by (nonlinear_arith)
        requires
            bb == a1 * a1,
            cc == b0 * b0,
            v == a1 * b0,
    ;
    assert(u * v == p * q) by (nonlinear_arith)
        requires
            u == a0 * b1,
            v == a1 * b0,
            p == a0 * b0,
            q == a1 * b1,
    ;
    assert((aa + bb) * (cc + dd) == aa * cc + aa * dd + bb * cc + bb * dd) by (nonlinear_arith);
    assert((p + q) * (p + q) == p * p + 2 * (p * q) + q * q) by (nonlinear_arith);
    assert((u - v) * (u - v) == u * u - 2 * (u * v) + v * v) by (nonlinear_arith);
    assert((u - v) * (u - v) >= 0) by (nonlinear_arith);
    assert(a0 * a0 + a1 * a1 >= 0 && b0 * b0 + b1 * b1 >= 0) by (nonlinear_arith);
}

/// Under the extent bound the three coefficients are bounded alike.
pub proof fn lemma_scan_bounds(axes: Axes, s: int, t: int, w: int, h: int)
    requires
        1 <= w,
        1 <= h,
        Scan::new(axes, s, t, w, h).a <= EXTENT_MAX,
        Scan::new(axes, s, t, w, h).c <= EXTENT_MAX,
    ensures
        ({
            let scan = Scan::new(axes, s, t, w, h);
            &&& ONE * ONE <= scan.a
            &&& ONE * ONE <= scan.c
            &&& -EXTENT_MAX <= scan.b <= EXTENT_MAX
            &&& scan.b * scan.b <= scan.a * scan.c
        }),
{
    let scan = Scan::new(axes, s, t, w, h);
    lemma_cross_term(axes);
    let xx = axes.sxx();
    let yy = axes.syy();
    let xy = axes.sxy();
    let p = xx * (w * w);
    let r = yy * (h * h);
    assert(p >= 0 && r >= 0) by (nonlinear_arith)
        requires
            xx >= 0,
            yy >= 0,
            p == xx * (w * w),
            r == yy * (h * h),
    ;
    assert(scan.b * scan.b == (xy * xy) * ((w * w) * (h * h))) by (nonlinear_arith)
        requires
            scan.b == xy * (w * h),
    ;
    assert((xy * xy) * ((w * w) * (h * h)) <= (xx * yy) * ((w * w) * (h * h))) by (nonlinear_arith)
        requires
            xy * xy <= xx * yy,
    ;
    assert((xx * yy) * ((w * w) * (h * h)) == p * r) by (nonlinear_arith)
        requires
            p == xx * (w * w),
            r == yy * (h * h),
    ;
    assert(p * r <= scan.a * scan.c) by (nonlinear_arith)
        requires
            scan.a == r + ONE * ONE,
            scan.c == p + ONE * ONE,
            p >= 0,
            r >= 0,
    ;
    assert(p * r <= EXTENT_MAX * EXTENT_MAX) by (nonlinear_arith)
        requires
            0 <= p <= EXTENT_MAX,
            0 <= r <= EXTENT_MAX,
    ;
    if magnitude(scan.b) > EXTENT_MAX {
        crate::mipmap::fixed::lemma_square_monotone(EXTENT_MAX as int + 1, magnitude(scan.b));
        assert(magnitude(scan.b) * magnitude(scan.b) == scan.b * scan.b) by (nonlinear_arith);
        assert((EXTENT_MAX + 1) * (EXTENT_MAX + 1) > EXTENT_MAX * EXTENT_MAX) by (nonlinear_arith);
    }
}

/// The scanned box is at most 514 texels wide and high, and every texel in it
/// is within 256 texels of the sample point along either axis.
pub proof fn lemma_box_bounds(scan: Scan)
    requires
        0 <= scan.a <= EXTENT_MAX,
        0 <= scan.c <= EXTENT_MAX,
    ensures
        0 <= sqrt_ceil(scan.c) <= 0x100_0000,
        0 <= sqrt_ceil(scan.a) <= 0x100_0000,
        0 <= scan.s_hi() - scan.s_lo() <= 514,
        0 <= scan.t_hi() - scan.t_lo() <= 514,
{
    lemma_sqrt_ceil_bound(scan.a);
    lemma_sqrt_ceil_bound(scan.c);
}

/// A texel of the scanned box is within 256 texels of the sample point along
/// either axis.
pub proof fn lemma_in_box(scan: Scan, is: int, it: int)
    requires
        0 <= scan.a <= EXTENT_MAX,
        0 <= scan.c <= EXTENT_MAX,
    ensures
        scan.s_lo() <= is < scan.s_hi() ==> -0x100_0000 <= is * ONE - scan.x <= 0x100_0000,
        scan.t_lo() <= it < scan.t_hi() ==> -0x100_0000 <= it * ONE - scan.y <= 0x100_0000,
{
    lemma_sqrt_ceil_bound(scan.a);
    lemma_sqrt_ceil_bound(scan.c);
}

/// The square root of a number under the extent bound is at most `2^24`.
proof fn lemma_sqrt_ceil_bound(n: int)
    requires
        0 <= n <= EXTENT_MAX,
    ensures
        0 <= sqrt_ceil(n) <= 0x100_0000,
{
    crate::mipmap::footprint::lemma_sqrt_exists(n);
    let r = crate::mipmap::fixed::sqrt_floor(n);
    assert(crate::mipmap::fixed::is_sqrt_floor(r, n));
    if r >= 0x100_0000 {
        crate::mipmap::fixed::lemma_square_monotone(0x100_0000, r);
    }
}

impl Level {
    /// The elliptically weighted average around `(s, t)` under the footprint `axes`.
    pub fn ewa(&self, wrap: ImageWrap, lut: &WeightTable, s: Fixed, t: Fixed, axes: &Axes) -> (r: i64)
        requires
            self.wf(),
            lut.wf(),
            axes.wf(),
        ensures
            r == ewa_sample(self@, wrap, lut@, s as int, t as int, *axes),
            texel_in_range(r as int),
    {
        let w = self.width() as i128;
        let h = self.height() as i128;
        let a0 = axes.major_s as i128;
        let b0 = axes.major_t as i128;
        let a1 = axes.minor_s as i128;
        let b1 = axes.minor_t as i128;
        let ghost scan = Scan::new(*axes, s as int, t as int, w as int, h as int);
        let ghost g = self@;
        let ghost table = lut@;
        proof {
            let m = ANISO_MAX as int;
            crate::mipmap::fixed::lemma_product_bound(a0 as int, a0 as int, m, m);
            crate::mipmap::fixed::lemma_product_bound(a1 as int, a1 as int, m, m);
            crate::mipmap::fixed::lemma_product_bound(b0 as int, b0 as int, m, m);
            crate::mipmap::fixed::lemma_product_bound(b1 as int, b1 as int, m, m);
            crate::mipmap::fixed::lemma_product_bound(a0 as int, b0 as int, m, m);
            crate::mipmap::fixed::lemma_product_bound(a1 as int, b1 as int, m, m);
            crate::mipmap::fixed::lemma_product_bound(w as int, w as int, 32768, 32768);
            crate::mipmap::fixed::lemma_product_bound(h as int, h as int, 32768, 32768);
            crate::mipmap::fixed::lemma_product_bound(w as int, h as int, 32768, 32768);
            lemma_cross_term(*axes);
            crate::mipmap::fixed::lemma_product_bound(axes.sxx(), w * w, 2 * (m * m), 0x4000_0000);
            crate::mipmap::fixed::lemma_product_bound(axes.syy(), h * h, 2 * (m * m), 0x4000_0000);
            crate::mipmap::fixed::lemma_product_bound(axes.sxy(), w * h, 2 * (m * m), 0x4000_0000);
            crate::mipmap::fixed::lemma_product_bound(s as int, w as int, 0x8000_0000_0000_0000, 32768);
            crate::mipmap::fixed::lemma_product_bound(t as int, h as int, 0x8000_0000_0000_0000, 32768);
        }
        let sxx = a0 * a0 + a1 * a1;
        let sxy = a0 * b0 + a1 * b1;
        let syy = b0 * b0 + b1 * b1;
        let a = syy * (h * h) + (ONE as i128) * (ONE as i128);
        let c = sxx * (w * w) + (ONE as i128) * (ONE as i128);
        if a > EXTENT_MAX || c > EXTENT_MAX {
            return self.bilinear(wrap, s, t);
        }
        let b = sxy * (w * h);
        proof {
            lemma_scan_bounds(*axes, s as int, t as int, w as int, h as int);
            lemma_box_bounds(scan);
            crate::mipmap::fixed::lemma_product_bound(a as int, c as int, EXTENT_MAX as int, EXTENT_MAX as int);
            crate::mipmap::fixed::lemma_product_bound(b as int, b as int, EXTENT_MAX as int, EXTENT_MAX as int);
        }
        assert(b * b >= 0) by (nonlinear_arith);
        let f = a * c - b * b;
        let x = (s as i128) * w - HALF as i128;
        let y = (t as i128) * h - HALF as i128;
        let us = isqrt_ceil(c);
        let vs = isqrt_ceil(a);
        let s_lo = floor_div(x - us + ONE as i128 - 1, ONE as i128);
        let s_hi = floor_div(x + us, ONE as i128) + 1;
        let t_lo = floor_div(y - vs + ONE as i128 - 1, ONE as i128);
        let t_hi = floor_div(y + vs, ONE as i128) + 1;
        let mut num: i128 = 0;
        let mut den: i128 = 0;
        let mut it = t_lo;
        while it < t_hi
            invariant
                self.wf(),
                lut.wf(),
                g == self@,
                table == lut@,
                scan == Scan::new(*axes, s as int, t as int, w as int, h as int),
                scan.a == a,
                scan.b == b,
                scan.c == c,
                scan.x == x,
                scan.y == y,
                scan.f() == f,
                0 <= a <= EXTENT_MAX,
                0 <= c <= EXTENT_MAX,
                -EXTENT_MAX <= b <= EXTENT_MAX,
                f <= EXTENT_MAX * EXTENT_MAX,
                s_lo == scan.s_lo(),
                s_hi == scan.s_hi(),
                t_lo == scan.t_lo(),
                t_hi == scan.t_hi(),
                0 <= s_hi - s_lo <= 514,
                0 <= t_hi - t_lo <= 514,
                -0x1_0000_0000_0000_0000_0000 <= x <= 0x1_0000_0000_0000_0000_0000,
                -0x1_0000_0000_0000_0000_0000 <= y <= 0x1_0000_0000_0000_0000_0000,
                t_lo <= it <= t_hi,
                den == scan.area_weight(table, t_lo as int, it as int),
                num == scan.area_value(g, wrap, table, t_lo as int, it as int),
                0 <= den <= (it - t_lo) * 0x202_0000,
                -(TEXEL_MAX * den) <= num <= TEXEL_MAX * den,
            decreases t_hi - it,
        {
            let mut row_num: i128 = 0;
            let mut row_den: i128 = 0;
            let mut is = s_lo;
            proof {
                lemma_in_box(scan, s_lo as int, it as int);
            }
            let tt = it * (ONE as i128) - y;
            while is < s_hi
                invariant
                    self.wf(),
                    lut.wf(),
                    g == self@,
                    table == lut@,
                    scan.a == a,
                    scan.b == b,
                    scan.c == c,
                    scan.x == x,
                    scan.y == y,
                    scan.f() == f,
                    0 <= a <= EXTENT_MAX,
                    0 <= c <= EXTENT_MAX,
                    -EXTENT_MAX <= b <= EXTENT_MAX,
                    f <= EXTENT_MAX * EXTENT_MAX,
                    s_lo == scan.s_lo(),
                    s_hi == scan.s_hi(),
                    0 <= s_hi - s_lo <= 514,
                    -0x1_0000_0000_0000_0000_0000 <= x <= 0x1_0000_0000_0000_0000_0000,
                    -0x1_0000_0000_0000_0000_0000 <= y <= 0x1_0000_0000_0000_0000_0000,
                    tt == it * ONE - y,
                    -0x100_0000 <= tt <= 0x100_0000,
                    s_lo <= is <= s_hi,
                    row_den == scan.row_weight(table, it as int, s_lo as int, is as int),
                    row_num == scan.row_value(g, wrap, table, it as int, s_lo as int, is as int),
                    0 <= row_den <= (is - s_lo) * 0x1_0000,
                    -(TEXEL_MAX * row_den) <= row_num <= TEXEL_MAX * row_den,
                decreases s_hi - is,
            {
                proof {
                    lemma_in_box(scan, is as int, 0);
                }
                let ss = is * (ONE as i128) - x;
                proof {
                    let e = 0x100_0000int;
                    crate::mipmap::fixed::lemma_product_bound(ss as int, ss as int, e, e);
                    crate::mipmap::fixed::lemma_product_bound(ss as int, tt as int, e, e);
                    crate::mipmap::fixed::lemma_product_bound(tt as int, tt as int, e, e);
                    crate::mipmap::fixed::lemma_product_bound(a as int, ss * ss, EXTENT_MAX as int, e * e);
                    crate::mipmap::fixed::lemma_product_bound(2 * b, ss * tt, 2 * EXTENT_MAX, e * e);
                    crate::mipmap::fixed::lemma_product_bound(c as int, tt * tt, EXTENT_MAX as int, e * e);
                }
                let q = a * (ss * ss) - 2 * b * (ss * tt) + c * (tt * tt);
                assert(q == scan.q(is as int, it as int));
                if 0 <= q && q < f {
                    proof {
                        crate::mipmap::fixed::lemma_product_bound(q as int, ONE as int, EXTENT_MAX * EXTENT_MAX, ONE as int);
                        assert(0 <= q * ONE) by (nonlinear_arith)
                            requires
                                0 <= q,
                        ;
                        vstd::arithmetic::div_mod::lemma_div_pos_is_pos(q * ONE, f as int);
                        assert(q * ONE < f * ONE) by (nonlinear_arith)
                            requires
                                q < f,
                        ;
                        vstd::arithmetic::div_mod::lemma_multiply_divide_lt(q * ONE, f as int, ONE as int);
                    }
                    let k = q * (ONE as i128) / f;
                    let wgt = lut.weight(k as i64) as i128;
                    let v = self.texel(wrap, is, it) as i128;
                    proof {
                        assert(wgt == scan.weight(table, is as int, it as int));
                        crate::mipmap::fixed::lemma_product_bound(wgt as int, v as int, ONE as int, TEXEL_MAX as int);
                        assert(-(TEXEL_MAX * wgt) <= wgt * v <= TEXEL_MAX * wgt) by (nonlinear_arith)
                            requires
                                0 <= wgt,
                                -TEXEL_MAX <= v <= TEXEL_MAX,
                        ;
                        assert(TEXEL_MAX * (row_den + wgt) == TEXEL_MAX * row_den + TEXEL_MAX * wgt) by (nonlinear_arith);
                        crate::mipmap::fixed::lemma_product_bound(row_den as int, TEXEL_MAX as int, 0x202_0000, TEXEL_MAX as int);
                    }
                    row_num = row_num + wgt * v;
                    row_den = row_den + wgt;
                } else {
                    assert(scan.weight(table, is as int, it as int) == 0);
                }
                is = is + 1;
            }
            proof {
                assert(TEXEL_MAX * (den + row_den) == TEXEL_MAX * den + TEXEL_MAX * row_den) by (nonlinear_arith);
                crate::mipmap::fixed::lemma_product_bound(den as int, TEXEL_MAX as int, 0x4_0804_0000, TEXEL_MAX as int);
                crate::mipmap::fixed::lemma_product_bound(row_den as int, TEXEL_MAX as int, 0x202_0000, TEXEL_MAX as int);
            }
            num = num + row_num;
            den = den + row_den;
            it = it + 1;
        }
        if den <= 0 {
            self.bilinear(wrap, s, t)
        } else {
            proof {
                crate::mipmap::fixed::lemma_quotient_bounds(num as int, den as int, TEXEL_MAX as int);
            }
            floor_div(num, den) as i64
        }
    }
}

} // verus!
