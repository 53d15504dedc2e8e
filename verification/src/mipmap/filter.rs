//! Bilinear filtering within a level, and trilinear filtering between levels.

use vstd::prelude::*;
use vstd::arithmetic::power2::pow2;
use crate::mipmap::fixed::{floor_div, lemma_quotient_bounds, log2_floor, log2_with_power, modulo, Fixed, FRAC_BITS, HALF, ONE, TEXEL_MAX};
use crate::mipmap::level::{lemma_fetch_in_bounds, texel_in_range, Grid, Level};
use crate::mipmap::pyramid::{is_pyramid, Pyramid};
use crate::mipmap::resample::lemma_weighted_mean_in_range;
use crate::mipmap::wrap::ImageWrap;

verus! {

/// Where coordinate `c` falls on an axis of `n` texels, in fixed-point texels
/// measured from the centre of texel 0: `c * n - 1/2`.
pub open spec fn texel_position(c: int, n: int) -> int {
    c * n - HALF
}

/// The blend of four neighbouring texels by the fractional offsets `ds` and
/// `dt` of the sample point from the first of them.
pub open spec fn blend4(ds: int, dt: int, v00: int, v10: int, v01: int, v11: int) -> int {
    ((ONE - ds) * (ONE - dt) * v00 + ds * (ONE - dt) * v10 + (ONE - ds) * dt * v01 + ds * dt * v11)
        / (ONE * ONE)
}

/// The bilinear sample of `g` at texture coordinate `(s, t)`.
pub open spec fn bilinear(g: Grid, wrap: ImageWrap, s: int, t: int) -> int {
    let x = texel_position(s, g.width);
    let y = texel_position(t, g.height);
    let s0 = x / (ONE as int);
    let t0 = y / (ONE as int);
    blend4(
        x % (ONE as int),
        y % (ONE as int),
        g.fetch(wrap, s0, t0),
        g.fetch(wrap, s0 + 1, t0),
        g.fetch(wrap, s0, t0 + 1),
        g.fetch(wrap, s0 + 1, t0 + 1),
    )
}

/// The blend of `a` and `b` that is `a` at `d == 0` and `b` at `d == ONE`.
pub open spec fn lerp(d: int, a: int, b: int) -> int {
    ((ONE - d) * a + d * b) / (ONE as int)
}

/// The trilinear sample at level of detail `lod`: the bilinear sample of the
/// finest level at or below zero, the single texel of the coarsest level at
/// or above its index, and in between the blend of the bilinear samples of
/// the two levels around `lod`, by its fractional part.
pub open spec fn trilinear(levels: Seq<Grid>, wrap: ImageWrap, s: int, t: int, lod: int) -> int {
    let top = levels.len() - 1;
    if lod <= 0 {
        bilinear(levels[0], wrap, s, t)
    } else if lod >= top * ONE {
        levels[top].at(0, 0)
    } else {
        let k = lod / (ONE as int);
        lerp(lod % (ONE as int), bilinear(levels[k], wrap, s, t), bilinear(levels[k + 1], wrap, s, t))
    }
}

/// The binary logarithm of the fixed-point number `x > 0`, as a fixed-point
/// number: exact where `x` is a power of two, and linear in `x` between one
/// power of two and the next.
pub open spec fn log2_linear(x: int) -> int {
    let k = log2_floor(x as nat) as int;
    (k - FRAC_BITS) * ONE + (x * ONE) / (pow2(k as nat) as int) - ONE
}

/// The magnitude of `v`.
pub open spec fn magnitude(v: int) -> int {
    if v < 0 {
        -v
    } else {
        v
    }
}

/// The greatest magnitude among the components of the two derivatives.
pub open spec fn footprint_width(dsdx: int, dtdx: int, dsdy: int, dtdy: int) -> int {
    let a = if magnitude(dsdx) >= magnitude(dtdx) { magnitude(dsdx) } else { magnitude(dtdx) };
    let b = if magnitude(dsdy) >= magnitude(dtdy) { magnitude(dsdy) } else { magnitude(dtdy) };
    if a >= b {
        a
    } else {
        b
    }
}

/// The level of detail for a footprint of the given width, in a pyramid whose
/// coarsest level is `top`: `top + log2(width)`, which is the logarithm of the
/// width in texels of the finest level, clamped to `[0, top]`.
pub open spec fn level_of_detail(width: int, top: int) -> int {
    if width <= 0 {
        0
    } else {
        let lod = top * ONE + log2_linear(width);
        if lod < 0 {
            0
        } else if lod > top * ONE {
            top * ONE
        } else {
            lod
        }
    }
}

/// The four bilinear weights are not negative and sum to one.
pub proof fn lemma_blend_weights(ds: int, dt: int)
    requires
        0 <= ds <= ONE,
        0 <= dt <= ONE,
    ensures
        0 <= (ONE - ds) * (ONE - dt),
        0 <= ds * (ONE - dt),
        0 <= (ONE - ds) * dt,
        0 <= ds * dt,
        (ONE - ds) * (ONE - dt) + ds * (ONE - dt) + (ONE - ds) * dt + ds * dt == ONE * ONE,
{
    assert(0 <= (ONE - ds) * (ONE - dt) && 0 <= ds * (ONE - dt) && 0 <= (ONE - ds) * dt && 0 <= ds * dt
        && (ONE - ds) * (ONE - dt) + ds * (ONE - dt) + (ONE - ds) * dt + ds * dt == ONE * ONE)
        by (nonlinear_arith)
        requires
            0 <= ds <= ONE,
            0 <= dt <= ONE,
    ;
}

/// A blend of texels in range is in range, and its numerator is bounded.
pub proof fn lemma_blend4_in_range(ds: int, dt: int, v00: int, v10: int, v01: int, v11: int)
    requires
        0 <= ds <= ONE,
        0 <= dt <= ONE,
        texel_in_range(v00),
        texel_in_range(v10),
        texel_in_range(v01),
        texel_in_range(v11),
    ensures
        texel_in_range(blend4(ds, dt, v00, v10, v01, v11)),
        -(TEXEL_MAX * (ONE * ONE)) <= (ONE - ds) * (ONE - dt) * v00 + ds * (ONE - dt) * v10 + (ONE - ds) * dt * v01
            + ds * dt * v11 <= TEXEL_MAX * (ONE * ONE),
{
    lemma_blend_weights(ds, dt);
    let w = seq![(ONE - ds) * (ONE - dt), ds * (ONE - dt), (ONE - ds) * dt, ds * dt];
    let v = seq![v00, v10, v01, v11];
    lemma_weighted_mean_in_range(w, v);
}

/// A blend of two texels in range is in range.
pub proof fn lemma_lerp_in_range(d: int, a: int, b: int)
    requires
        0 <= d <= ONE,
        texel_in_range(a),
        texel_in_range(b),
    ensures
        texel_in_range(lerp(d, a, b)),
        -(TEXEL_MAX * ONE) <= (ONE - d) * a + d * b <= TEXEL_MAX * ONE,
{
    let m = TEXEL_MAX as int;
    let e = ONE - d;
    assert(-(m * e) <= e * a <= m * e) by (nonlinear_arith)
        requires
            0 <= e,
            -m <= a <= m,
    ;
    assert(-(m * d) <= d * b <= m * d) by (nonlinear_arith)
        requires
            0 <= d,
            -m <= b <= m,
    ;
    assert(m * e + m * d == m * ONE) by (nonlinear_arith)
        requires
            e + d == ONE,
    ;
    lemma_quotient_bounds(e * a + d * b, ONE as int, m);
}

/// The blend of `a` and `b` by `d`.
pub fn lerp_texel(d: Fixed, a: i64, b: i64) -> (r: i64)
    requires
        0 <= d <= ONE,
        texel_in_range(a as int),
        texel_in_range(b as int),
    ensures
        r == lerp(d as int, a as int, b as int),
        texel_in_range(r as int),
{
    proof {
        lemma_lerp_in_range(d as int, a as int, b as int);
        let e = ONE - d;
        assert(-(TEXEL_MAX * ONE) <= e * a <= TEXEL_MAX * ONE) by (nonlinear_arith)
            requires
                0 <= e <= ONE,
                -TEXEL_MAX <= a <= TEXEL_MAX,
        ;
        assert(-(TEXEL_MAX * ONE) <= d * b <= TEXEL_MAX * ONE) by (nonlinear_arith)
            requires
                0 <= d <= ONE,
                -TEXEL_MAX <= b <= TEXEL_MAX,
        ;
    }
    let num: i128 = ((ONE - d) as i128) * (a as i128) + (d as i128) * (b as i128);
    floor_div(num, ONE as i128) as i64
}

impl Level {
    /// The bilinear sample at texture coordinate `(s, t)`.
    pub fn bilinear(&self, wrap: ImageWrap, s: Fixed, t: Fixed) -> (r: i64)
        requires
            self.wf(),
        ensures
            r == bilinear(self@, wrap, s as int, t as int),
            texel_in_range(r as int),
    {
        let w = self.width();
        let h = self.height();
        proof {
            assert(-0x4000_0000_0000_0000_0000 <= s * w <= 0x4000_0000_0000_0000_0000) by (nonlinear_arith)
                requires
                    -0x8000_0000_0000_0000 <= s <= 0x8000_0000_0000_0000,
                    1 <= w <= 32768,
            ;
            assert(-0x4000_0000_0000_0000_0000 <= t * h <= 0x4000_0000_0000_0000_0000) by (nonlinear_arith)
                requires
                    -0x8000_0000_0000_0000 <= t <= 0x8000_0000_0000_0000,
                    1 <= h <= 32768,
            ;
        }
        let x: i128 = (s as i128) * (w as i128) - HALF as i128;
        let y: i128 = (t as i128) * (h as i128) - HALF as i128;
        let s0 = floor_div(x, ONE as i128);
        let t0 = floor_div(y, ONE as i128);
        let ds = modulo(x, ONE as i128);
        let dt = modulo(y, ONE as i128);
        let v00 = self.texel(wrap, s0, t0) as i128;
        let v10 = self.texel(wrap, s0 + 1, t0) as i128;
        let v01 = self.texel(wrap, s0, t0 + 1) as i128;
        let v11 = self.texel(wrap, s0 + 1, t0 + 1) as i128;
        let es = ONE as i128 - ds;
        let et = ONE as i128 - dt;
        proof {
            lemma_blend_weights(ds as int, dt as int);
            lemma_blend4_in_range(ds as int, dt as int, v00 as int, v10 as int, v01 as int, v11 as int);
            lemma_term_bound(es * et, v00 as int);
            lemma_term_bound(ds * et, v10 as int);
            lemma_term_bound(es * dt, v01 as int);
            lemma_term_bound(ds * dt, v11 as int);
        }
        let num: i128 = es * et * v00 + ds * et * v10 + es * dt * v01 + ds * dt * v11;
        floor_div(num, (ONE as i128) * (ONE as i128)) as i64
    }
}

/// A texel in range times a bilinear weight stays far inside 128 bits.
proof fn lemma_term_bound(w: int, v: int)
    requires
        0 <= w <= ONE * ONE,
        texel_in_range(v),
    ensures
        -(TEXEL_MAX * (ONE * ONE)) <= w * v <= TEXEL_MAX * (ONE * ONE),
{
    assert(-(TEXEL_MAX * (ONE * ONE)) <= w * v <= TEXEL_MAX * (ONE * ONE)) by (nonlinear_arith)
        requires
            0 <= w <= ONE * ONE,
            -TEXEL_MAX <= v <= TEXEL_MAX,
    ;
}

/// The whole part of the logarithm is that of the true binary logarithm:
/// `floor(log2(x / 65536))`. Its fractional part is the fraction of the way
/// that `x` lies from its power of two to the next.
pub proof fn lemma_log2_linear_parts(x: int)
    requires
        x >= 1,
    ensures
        log2_linear(x) / (ONE as int) == log2_floor(x as nat) - FRAC_BITS,
        log2_linear(x) % (ONE as int) == (x * ONE) / (pow2(log2_floor(x as nat)) as int) - ONE,
        x == pow2(log2_floor(x as nat)) ==> log2_linear(x) % (ONE as int) == 0,
{
    let k = log2_floor(x as nat);
    let p = pow2(k) as int;
    crate::mipmap::fixed::lemma_log2_floor_bounds(x as nat);
    vstd::arithmetic::power2::lemma_pow2_unfold(k + 1);
    let q = (x * ONE) / p;
    assert(ONE <= q < 2 * ONE) by {
        vstd::arithmetic::div_mod::lemma_div_is_ordered(p * ONE, x * ONE, p);
        crate::mipmap::fixed::lemma_quotient_exact(ONE as int, p);
        assert(p * ONE <= x * ONE) by (nonlinear_arith)
            requires
                p <= x,
        ;
        assert(x * ONE < p * (2 * ONE)) by (nonlinear_arith)
            requires
                x < 2 * p,
        ;
        vstd::arithmetic::div_mod::lemma_multiply_divide_lt(x * ONE, p, 2 * ONE);
    }
    let whole = k as int - FRAC_BITS;
    vstd::arithmetic::div_mod::lemma_fundamental_div_mod_converse(whole * ONE + (q - ONE), ONE as int, whole, q - ONE);
    if x == p {
        crate::mipmap::fixed::lemma_quotient_exact(ONE as int, p);
    }
}

/// The binary logarithm of the fixed-point number `x`, linear between powers of two.
pub fn log2_linear_of(x: u64) -> (r: Fixed)
    requires
        x >= 1,
    ensures
        r == log2_linear(x as int),
        -16 * ONE <= r < 48 * ONE,
{
    let (k, p) = log2_with_power(x);
    proof {
        assert(0 <= x * ONE < 0x1_0000_0000_0000_0000_0000) by (nonlinear_arith)
            requires
                0 <= x < 0x1_0000_0000_0000_0000,
        ;
        lemma_log2_linear_parts(x as int);
    }
    let mantissa: i128 = (x as i128) * (ONE as i128) / (p as i128) - ONE as i128;
    let r: i128 = (k as i128 - FRAC_BITS as i128) * (ONE as i128) + mantissa;
    r as i64
}

/// The level of detail of a footprint `width` wide, for a pyramid whose
/// coarsest level is `top`.
pub fn lod_of_width(width: u64, top: usize) -> (r: Fixed)
    requires
        top < 16,
    ensures
        r == level_of_detail(width as int, top as int),
        0 <= r <= top * ONE,
{
    if width == 0 {
        return 0;
    }
    let lod: i64 = (top as i64) * ONE + log2_linear_of(width);
    if lod < 0 {
        0
    } else if lod > (top as i64) * ONE {
        (top as i64) * ONE
    } else {
        lod
    }
}

impl Pyramid {
    /// The single texel of the coarsest level.
    pub fn coarsest(&self) -> (r: i64)
        requires
            self.wf(),
        ensures
            r == self.levels()[self.max_level()].at(0, 0),
            texel_in_range(r as int),
    {
        let n = self.level_count();
        let level = self.level(n - 1);
        proof {
            crate::mipmap::level::lemma_fetch_in_range(level@, self.wrap_mode(), 0, 0);
            lemma_fetch_in_bounds(level@, self.wrap_mode(), 0, 0);
        }
        level.get(0, 0)
    }

    /// The trilinear sample at `(s, t)` for level of detail `lod`.
    pub fn trilinear(&self, s: Fixed, t: Fixed, lod: Fixed) -> (r: i64)
        requires
            self.wf(),
        ensures
            r == trilinear(self.levels(), self.wrap_mode(), s as int, t as int, lod as int),
            texel_in_range(r as int),
    {
        let n = self.level_count();
        let wrap = self.wrap();
        if lod <= 0 {
            self.level(0).bilinear(wrap, s, t)
        } else if lod >= ((n - 1) as i64) * ONE {
            self.coarsest()
        } else {
            let k = (lod / ONE) as usize;
            let d = lod % ONE;
            let a = self.level(k).bilinear(wrap, s, t);
            let b = self.level(k + 1).bilinear(wrap, s, t);
            lerp_texel(d, a, b)
        }
    }
}

/// The greatest change of a trilinear sample from one level of detail to the
/// next representable one.
pub const LOD_STEP_MAX: i64 = 0x200_0001;

/// At the ends of its range a blend is one of the two values it blends.
pub proof fn lemma_lerp_ends(a: int, b: int)
    ensures
        lerp(0, a, b) == a,
        lerp(ONE as int, a, b) == b,
{
    crate::mipmap::fixed::lemma_quotient_exact(a, ONE as int);
    crate::mipmap::fixed::lemma_quotient_exact(b, ONE as int);
    assert((ONE - 0) * a + 0 * b == ONE * a) by (nonlinear_arith);
    assert((ONE - ONE) * a + ONE * b == ONE * b) by (nonlinear_arith);
}

/// A blend changes by at most [`LOD_STEP_MAX`] when its parameter takes one
/// step.
pub proof fn lemma_lerp_step(d: int, a: int, b: int)
    requires
        0 <= d < ONE,
        texel_in_range(a),
        texel_in_range(b),
    ensures
        -LOD_STEP_MAX <= lerp(d + 1, a, b) - lerp(d, a, b) <= LOD_STEP_MAX,
{
    let n0 = (ONE - d) * a + d * b;
    let n1 = (ONE - (d + 1)) * a + (d + 1) * b;
    assert(n1 == n0 + (b - a)) by (nonlinear_arith)
        requires
            n0 == (ONE - d) * a + d * b,
            n1 == (ONE - (d + 1)) * a + (d + 1) * b,
    ;
}

/// A blend of four equal texels is that texel.
pub proof fn lemma_blend4_of_equal(ds: int, dt: int, v: int)
    requires
        0 <= ds <= ONE,
        0 <= dt <= ONE,
    ensures
        blend4(ds, dt, v, v, v, v) == v,
{
    lemma_blend_weights(ds, dt);
    let w0 = (ONE - ds) * (ONE - dt);
    let w1 = ds * (ONE - dt);
    let w2 = (ONE - ds) * dt;
    let w3 = ds * dt;
    assert(w0 * v + w1 * v + w2 * v + w3 * v == v * (w0 + w1 + w2 + w3)) by (nonlinear_arith);
    crate::mipmap::fixed::lemma_quotient_exact(v, ONE * ONE);
}

/// Where the sample point is the centre of a texel, the bilinear sample is
/// that texel exactly.
pub proof fn lemma_bilinear_at_texel_centre(g: Grid, wrap: ImageWrap, s: int, t: int)
    requires
        texel_position(s, g.width) % (ONE as int) == 0,
        texel_position(t, g.height) % (ONE as int) == 0,
    ensures
        bilinear(g, wrap, s, t) == g.fetch(
            wrap,
            texel_position(s, g.width) / (ONE as int),
            texel_position(t, g.height) / (ONE as int),
        ),
{
    let x = texel_position(s, g.width);
    let y = texel_position(t, g.height);
    let s0 = x / (ONE as int);
    let t0 = y / (ONE as int);
    let v00 = g.fetch(wrap, s0, t0);
    let v10 = g.fetch(wrap, s0 + 1, t0);
    let v01 = g.fetch(wrap, s0, t0 + 1);
    let v11 = g.fetch(wrap, s0 + 1, t0 + 1);
    assert((ONE - 0) * (ONE - 0) * v00 + 0 * (ONE - 0) * v10 + (ONE - 0) * 0 * v01 + 0 * 0 * v11 == v00 * (ONE * ONE))
        by (nonlinear_arith);
    crate::mipmap::fixed::lemma_quotient_exact(v00, ONE * ONE);
}

/// The bilinear sample of a single-texel level is that texel, under `Repeat`
/// and `Clamp`.
pub proof fn lemma_bilinear_of_single_texel(g: Grid, wrap: ImageWrap, s: int, t: int)
    requires
        g.wf(),
        g.width == 1,
        g.height == 1,
        wrap != ImageWrap::Black,
    ensures
        bilinear(g, wrap, s, t) == g.at(0, 0),
{
    let c = g.at(0, 0);
    assert(g.is_constant(c));
    lemma_bilinear_of_constant(g, wrap, c, s, t);
}

/// The bilinear sample of a constant grid is the constant, under `Repeat` and
/// `Clamp`.
pub proof fn lemma_bilinear_of_constant(g: Grid, wrap: ImageWrap, c: int, s: int, t: int)
    requires
        g.wf(),
        g.is_constant(c),
        wrap != ImageWrap::Black,
    ensures
        bilinear(g, wrap, s, t) == c,
{
    let x = texel_position(s, g.width);
    let y = texel_position(t, g.height);
    let s0 = x / (ONE as int);
    let t0 = y / (ONE as int);
    crate::mipmap::level::lemma_fetch_constant(g, wrap, c, s0, t0);
    crate::mipmap::level::lemma_fetch_constant(g, wrap, c, s0 + 1, t0);
    crate::mipmap::level::lemma_fetch_constant(g, wrap, c, s0, t0 + 1);
    crate::mipmap::level::lemma_fetch_constant(g, wrap, c, s0 + 1, t0 + 1);
    lemma_blend4_of_equal(x % (ONE as int), y % (ONE as int), c);
}

/// The bilinear sample of a grid whose texels lie between `lo` and `hi` lies
/// between them.
pub proof fn lemma_bilinear_within(g: Grid, wrap: ImageWrap, lo: int, hi: int, s: int, t: int)
    requires
        g.wf(),
        g.within(lo, hi),
        wrap != ImageWrap::Black || lo <= 0 <= hi,
    ensures
        lo <= bilinear(g, wrap, s, t) <= hi,
{
    let x = texel_position(s, g.width);
    let y = texel_position(t, g.height);
    let s0 = x / (ONE as int);
    let t0 = y / (ONE as int);
    let ds = x % (ONE as int);
    let dt = y % (ONE as int);
    crate::mipmap::level::lemma_fetch_within(g, wrap, lo, hi, s0, t0);
    crate::mipmap::level::lemma_fetch_within(g, wrap, lo, hi, s0 + 1, t0);
    crate::mipmap::level::lemma_fetch_within(g, wrap, lo, hi, s0, t0 + 1);
    crate::mipmap::level::lemma_fetch_within(g, wrap, lo, hi, s0 + 1, t0 + 1);
    lemma_blend_weights(ds, dt);
    let w = seq![(ONE - ds) * (ONE - dt), ds * (ONE - dt), (ONE - ds) * dt, ds * dt];
    let v = seq![g.fetch(wrap, s0, t0), g.fetch(wrap, s0 + 1, t0), g.fetch(wrap, s0, t0 + 1), g.fetch(wrap, s0 + 1, t0 + 1)];
    crate::mipmap::resample::lemma_weighted_mean_between(w, v, lo, hi);
}

/// A blend of two values between `lo` and `hi` lies between them.
pub proof fn lemma_lerp_within(d: int, a: int, b: int, lo: int, hi: int)
    requires
        0 <= d <= ONE,
        lo <= a <= hi,
        lo <= b <= hi,
    ensures
        lo <= lerp(d, a, b) <= hi,
{
    let e = ONE - d;
    assert(lo * e <= e * a <= hi * e) by (nonlinear_arith)
        requires
            0 <= e,
            lo <= a <= hi,
    ;
    assert(lo * d <= d * b <= hi * d) by (nonlinear_arith)
        requires
            0 <= d,
            lo <= b <= hi,
    ;
    assert(hi * e + hi * d == hi * ONE && lo * e + lo * d == lo * ONE) by (nonlinear_arith)
        requires
            e + d == ONE,
    ;
    crate::mipmap::fixed::lemma_quotient_between(e * a + d * b, ONE as int, lo, hi);
}

/// A blend of a value with itself is that value.
pub proof fn lemma_lerp_of_equal(d: int, c: int)
    ensures
        lerp(d, c, c) == c,
{
    assert((ONE - d) * c + d * c == c * ONE) by (nonlinear_arith);
    crate::mipmap::fixed::lemma_quotient_exact(c, ONE as int);
}

/// A bilinear sample of a well-formed grid is in range.
pub proof fn lemma_bilinear_in_range(g: Grid, wrap: ImageWrap, s: int, t: int)
    requires
        g.wf(),
    ensures
        texel_in_range(bilinear(g, wrap, s, t)),
{
    let x = texel_position(s, g.width);
    let y = texel_position(t, g.height);
    let s0 = x / (ONE as int);
    let t0 = y / (ONE as int);
    lemma_fetch_in_bounds(g, wrap, s0, t0);
    lemma_fetch_in_bounds(g, wrap, s0 + 1, t0);
    lemma_fetch_in_bounds(g, wrap, s0, t0 + 1);
    lemma_fetch_in_bounds(g, wrap, s0 + 1, t0 + 1);
    lemma_blend4_in_range(
        x % (ONE as int),
        y % (ONE as int),
        g.fetch(wrap, s0, t0),
        g.fetch(wrap, s0 + 1, t0),
        g.fetch(wrap, s0, t0 + 1),
        g.fetch(wrap, s0 + 1, t0 + 1),
    );
}

/// The trilinear sample has no jump: from one level of detail to the next
/// representable one it changes by at most [`LOD_STEP_MAX`], which is
/// `2^-15` of the range of a texel; also where the level of detail crosses
/// from one pair of levels to the next. Under `Black` this holds below the
/// coarsest level: there the single texel takes over from a bilinear sample
/// that reads zero around it.
pub proof fn lemma_trilinear_continuous(levels: Seq<Grid>, wrap: ImageWrap, s: int, t: int, lod: int)
    requires
        is_pyramid(levels, wrap),
        wrap != ImageWrap::Black || lod + 1 < (levels.len() - 1) * ONE,
    ensures
        -LOD_STEP_MAX <= trilinear(levels, wrap, s, t, lod + 1) - trilinear(levels, wrap, s, t, lod) <= LOD_STEP_MAX,
{
    let top = levels.len() - 1;
    crate::mipmap::pyramid::lemma_level_count_bound(levels, wrap);
    let now = trilinear(levels, wrap, s, t, lod);
    let next = trilinear(levels, wrap, s, t, lod + 1);
    if lod < 0 {
        assert(now == next);
    } else if lod >= top * ONE {
        if lod == 0 {
            assert(levels[top].wf());
            lemma_bilinear_of_single_texel(levels[top], wrap, s, t);
        }
        assert(now == next);
    } else {
        let k = lod / (ONE as int);
        let d = lod % (ONE as int);
        assert(0 <= k < top);
        assert(levels[k].wf());
        assert(levels[k + 1].wf());
        let a = bilinear(levels[k], wrap, s, t);
        let b = bilinear(levels[k + 1], wrap, s, t);
        lemma_bilinear_in_range(levels[k], wrap, s, t);
        lemma_bilinear_in_range(levels[k + 1], wrap, s, t);
        lemma_lerp_step(d, a, b);
        lemma_lerp_ends(a, b);
        if lod == 0 {
            assert(now == a);
            assert(next == lerp(1, a, b));
        } else if d + 1 < ONE {
            assert((lod + 1) / (ONE as int) == k);
            assert((lod + 1) % (ONE as int) == d + 1);
            assert(now == lerp(d, a, b));
            assert(next == lerp(d + 1, a, b));
        } else {
            assert(lod + 1 == (k + 1) * ONE);
            assert(now == lerp(d, a, b));
            assert(lerp(d + 1, a, b) == b);
            if k + 1 < top {
                assert(levels[k + 2].wf());
                lemma_lerp_ends(b, bilinear(levels[k + 2], wrap, s, t));
                assert(((k + 1) * ONE) / (ONE as int) == k + 1);
                assert(((k + 1) * ONE) % (ONE as int) == 0);
                assert(next == b);
            } else {
                assert(levels[top].wf());
                lemma_bilinear_of_single_texel(levels[top], wrap, s, t);
                assert(next == levels[top].at(0, 0));
                assert(next == b);
            }
        }
    }
}

/// Between two levels of detail the trilinear sample changes by at most
/// [`LOD_STEP_MAX`] for each step that lies between them.
pub proof fn lemma_trilinear_lipschitz(levels: Seq<Grid>, wrap: ImageWrap, s: int, t: int, from: int, to: int)
    requires
        is_pyramid(levels, wrap),
        from <= to,
        wrap != ImageWrap::Black || to < (levels.len() - 1) * ONE,
    ensures
        -((to - from) * LOD_STEP_MAX) <= trilinear(levels, wrap, s, t, to) - trilinear(levels, wrap, s, t, from) <= (to
            - from) * LOD_STEP_MAX,
    decreases to - from,
{
    if from < to {
        lemma_trilinear_lipschitz(levels, wrap, s, t, from, to - 1);
        lemma_trilinear_continuous(levels, wrap, s, t, to - 1);
        assert((to - from) * LOD_STEP_MAX == (to - 1 - from) * LOD_STEP_MAX + LOD_STEP_MAX) by (nonlinear_arith);
    } else {
        assert((to - from) * LOD_STEP_MAX == 0) by (nonlinear_arith)
            requires
                to - from == 0,
        ;
    }
}

/// Adding `b` to a dividend raises the quotient by the quotient of `b`, or by
/// one more.
proof fn lemma_quotient_of_sum(a: int, b: int, p: int)
    requires
        p > 0,
    ensures
        a / p + b / p <= (a + b) / p <= a / p + b / p + 1,
{
    vstd::arithmetic::div_mod::lemma_fundamental_div_mod(a, p);
    vstd::arithmetic::div_mod::lemma_fundamental_div_mod(b, p);
    vstd::arithmetic::div_mod::lemma_fundamental_div_mod(a + b, p);
    vstd::arithmetic::div_mod::lemma_mod_bound(a, p);
    vstd::arithmetic::div_mod::lemma_mod_bound(b, p);
    vstd::arithmetic::div_mod::lemma_mod_bound(a + b, p);
    let qa = a / p;
    let qb = b / p;
    let qs = (a + b) / p;
    let ra = a % p;
    let rb = b % p;
    let rs = (a + b) % p;
    assert(qa + qb <= qs <= qa + qb + 1) by (nonlinear_arith)
        requires
            p > 0,
            a == p * qa + ra,
            b == p * qb + rb,
            a + b == p * qs + rs,
            0 <= ra < p,
            0 <= rb < p,
            0 <= rs < p,
    ;
}

/// The logarithm never falls as its argument grows, and from one
/// representable argument to the next it rises by no more than the argument's
/// own step is worth: at most `2 / x`, and one unit of rounding. This holds
/// across the powers of two as it does between them.
pub proof fn lemma_log2_linear_step(x: int)
    requires
        x >= 1,
    ensures
        0 <= log2_linear(x + 1) - log2_linear(x) <= 2 * ONE / x + 1,
{
    let k = log2_floor(x as nat);
    let p = pow2(k) as int;
    crate::mipmap::fixed::lemma_log2_floor_bounds(x as nat);
    vstd::arithmetic::power2::lemma_pow2_unfold(k + 1);
    assert(p <= x < 2 * p);
    let one = ONE as int;
    let q0 = (x * one) / p;
    // ONE / p <= 2 ONE / x, as x < 2 p
    let e = one / p;
    vstd::arithmetic::div_mod::lemma_div_is_ordered_by_denominator(2 * one, x, 2 * p);
    vstd::arithmetic::div_mod::lemma_div_denominator(2 * one, 2, p);
    assert((2 * one) / 2 == one);
    assert((2 * one) / (2 * p) == e);
    assert(e <= (2 * one) / x);
    if x + 1 < 2 * p {
        crate::mipmap::fixed::lemma_log2_floor_unique((x + 1) as nat, k);
        assert((x + 1) * one == x * one + one) by (nonlinear_arith);
        lemma_quotient_of_sum(x * one, one, p);
        vstd::arithmetic::div_mod::lemma_div_pos_is_pos(one, p);
    } else {
        assert(x + 1 == 2 * p);
        crate::mipmap::fixed::lemma_pow2_is_power_of_two(k + 1);
        assert(log2_floor((x + 1) as nat) == k + 1);
        crate::mipmap::fixed::lemma_quotient_exact(one, 2 * p);
        assert(((x + 1) * one) / (2 * p) == one) by {
            assert((x + 1) * one == (2 * p) * one) by (nonlinear_arith)
                requires
                    x + 1 == 2 * p,
            ;
        }
        // x ONE = 2 p ONE - ONE, whose quotient by p is 2 ONE less the rounded-up quotient of ONE
        assert(x * one + one == p * (2 * one)) by (nonlinear_arith)
            requires
                x + 1 == 2 * p,
        ;
        lemma_quotient_of_sum(x * one, one, p);
        crate::mipmap::fixed::lemma_quotient_exact(2 * one, p);
        assert((p * (2 * one)) / p == 2 * one);
        vstd::arithmetic::div_mod::lemma_fundamental_div_mod(x * one, p);
        vstd::arithmetic::div_mod::lemma_mod_bound(x * one, p);
        vstd::arithmetic::div_mod::lemma_fundamental_div_mod(one, p);
        vstd::arithmetic::div_mod::lemma_mod_bound(one, p);
        assert(q0 + e <= 2 * one <= q0 + e + 1);
    }
}

/// The level of detail never falls as the footprint widens, and from one
/// representable width to the next it rises by at most `2 / width`, and one
/// unit of rounding: there is no jump where the width crosses from one pair of
/// levels to the next.
pub proof fn lemma_lod_step(width: int, top: int)
    requires
        width >= 1,
        top >= 0,
    ensures
        0 <= level_of_detail(width + 1, top) - level_of_detail(width, top) <= 2 * ONE / width + 1,
{
    lemma_log2_linear_step(width);
    assert(top * ONE >= 0) by (nonlinear_arith)
        requires
            top >= 0,
    ;
}

/// The trilinear lookup has no jump in the width of the footprint: from
/// one representable width to the next it changes by no more than the
/// level of detail's own step is worth.
pub proof fn lemma_trilinear_continuous_in_width(levels: Seq<Grid>, wrap: ImageWrap, s: int, t: int, width: int)
    requires
        is_pyramid(levels, wrap),
        width >= 1,
        wrap != ImageWrap::Black || level_of_detail(width + 1, levels.len() - 1) < (levels.len() - 1) * ONE,
    ensures
        ({
            let top = levels.len() - 1;
            let here = trilinear(levels, wrap, s, t, level_of_detail(width, top));
            let next = trilinear(levels, wrap, s, t, level_of_detail(width + 1, top));
            -((2 * ONE / width + 1) * LOD_STEP_MAX) <= next - here <= (2 * ONE / width + 1) * LOD_STEP_MAX
        }),
{
    let top = levels.len() - 1;
    let from = level_of_detail(width, top);
    let to = level_of_detail(width + 1, top);
    lemma_lod_step(width, top);
    lemma_trilinear_lipschitz(levels, wrap, s, t, from, to);
    let bound = 2 * ONE / width + 1;
    assert((to - from) * LOD_STEP_MAX <= bound * LOD_STEP_MAX) by (nonlinear_arith)
        requires
            0 <= to - from <= bound,
    ;
}

/// Scaling the argument by a power of two shifts the logarithm by the
/// exponent, exactly.
pub proof fn lemma_log2_linear_scales(x: int, j: nat)
    requires
        x >= 1,
    ensures
        log2_linear(x * pow2(j)) == j * ONE + log2_linear(x),
{
    let k = log2_floor(x as nat);
    let p = pow2(k) as int;
    let f = pow2(j) as int;
    let one = ONE as int;
    crate::mipmap::fixed::lemma_log2_floor_bounds(x as nat);
    vstd::arithmetic::power2::lemma_pow2_pos(j);
    vstd::arithmetic::power2::lemma_pow2_pos(k);
    vstd::arithmetic::power2::lemma_pow2_adds(k, j);
    vstd::arithmetic::power2::lemma_pow2_adds(k + 1, j);
    assert(p * f <= x * f < pow2(k + 1) * f) by (nonlinear_arith)
        requires
            p <= x < pow2(k + 1),
            f > 0,
    ;
    crate::mipmap::fixed::lemma_log2_floor_unique((x * f) as nat, k + j);
    let q = (x * one) / p;
    let r = (x * one) % p;
    vstd::arithmetic::div_mod::lemma_fundamental_div_mod(x * one, p);
    vstd::arithmetic::div_mod::lemma_mod_bound(x * one, p);
    assert((x * f) * one == q * (p * f) + r * f && 0 <= r * f < p * f) by (nonlinear_arith)
        requires
            x * one == p * q + r,
            0 <= r < p,
            f > 0,
    ;
    vstd::arithmetic::div_mod::lemma_fundamental_div_mod_converse((x * f) * one, p * f, q, r * f);
    assert(((k + j) as int - FRAC_BITS) * ONE == j * ONE + (k as int - FRAC_BITS) * ONE) by (nonlinear_arith);
}

/// The level of detail is the logarithm of the footprint's width in texels
/// of the finest level, the greater extent counting: `log2(width * max(w, h))`,
/// clamped to the levels there are.
pub proof fn lemma_lod_in_texels(levels: Seq<Grid>, wrap: ImageWrap, width: int)
    requires
        is_pyramid(levels, wrap),
        width >= 1,
    ensures
        ({
            let top = levels.len() - 1;
            let extent = if levels[0].width >= levels[0].height { levels[0].width } else { levels[0].height };
            let lod = log2_linear(width * extent);
            level_of_detail(width, top) == if lod < 0 {
                0
            } else if lod > top * ONE {
                top * ONE
            } else {
                lod
            }
        }),
{
    let top = (levels.len() - 1) as nat;
    let extent = if levels[0].width >= levels[0].height { levels[0].width } else { levels[0].height };
    assert(levels[0].wf());
    assert(extent == vstd::math::max(levels[0].width, levels[0].height));
    assert(extent == pow2(top));
    lemma_log2_linear_scales(width, top);
}

} // verus!
