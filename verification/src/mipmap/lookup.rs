//! Filtered lookups in a pyramid: choosing levels from the footprint of the
//! lookup and blending what they hold.

use vstd::prelude::*;
use crate::mipmap::ewa::ewa_sample;
use crate::mipmap::filter::{bilinear, footprint_width, lerp, lerp_texel, level_of_detail, lod_of_width, log2_linear, log2_linear_of, trilinear};
use crate::mipmap::fixed::{floor_div, Fixed, ONE};
use crate::mipmap::footprint::{footprint_of, length_sq, Axes, Footprint, ANISO_MAX};
use crate::mipmap::kernel::WeightTable;
use crate::mipmap::level::{texel_in_range, Grid};
use crate::mipmap::pyramid::Pyramid;
use crate::mipmap::wrap::{FilteringMethod, ImageWrap};

verus! {

/// The level of detail of an elliptical footprint in a pyramid whose coarsest
/// level is `top`: `top` plus the binary logarithm of the length of the minor
/// axis, and at least zero. At that level the minor axis is between one and
/// two texels long.
pub open spec fn ewa_lod(axes: Axes, top: int) -> int {
    let lod = top * ONE + (log2_linear(length_sq(axes.minor_s as int, axes.minor_t as int)) - 16 * ONE) / 2;
    if lod < 0 {
        0
    } else {
        lod
    }
}

/// The isotropic lookup: the trilinear sample at the level of detail of the
/// footprint's width.
pub open spec fn trilinear_lookup(
    levels: Seq<Grid>,
    wrap: ImageWrap,
    s: int,
    t: int,
    dsdx: int,
    dtdx: int,
    dsdy: int,
    dtdy: int,
) -> int {
    trilinear(levels, wrap, s, t, level_of_detail(footprint_width(dsdx, dtdx, dsdy, dtdy), levels.len() - 1))
}

/// The anisotropic lookup at `(s, t)` with derivatives `(dsdx, dtdx)` and
/// `(dsdy, dtdy)`: the isotropic lookup where the footprint is degenerate;
/// the coarsest texel where it is vast or its level of detail is at or
/// above the coarsest level; otherwise the blend, by the fractional part of
/// the level of detail, of the elliptically weighted averages of the two
/// levels around it.
pub open spec fn ewa_lookup(
    levels: Seq<Grid>,
    wrap: ImageWrap,
    lut: Seq<int>,
    aniso: int,
    s: int,
    t: int,
    dsdx: int,
    dtdx: int,
    dsdy: int,
    dtdy: int,
) -> int {
    let top = levels.len() - 1;
    match footprint_of(dsdx, dtdx, dsdy, dtdy, aniso) {
        Footprint::Degenerate => trilinear_lookup(levels, wrap, s, t, dsdx, dtdx, dsdy, dtdy),
        Footprint::Vast => levels[top].at(0, 0),
        Footprint::Ellipse(axes) => {
            let lod = ewa_lod(axes, top);
            if lod >= top * ONE {
                levels[top].at(0, 0)
            } else {
                let k = lod / (ONE as int);
                lerp(
                    lod % (ONE as int),
                    ewa_sample(levels[k], wrap, lut, s, t, axes),
                    ewa_sample(levels[k + 1], wrap, lut, s, t, axes),
                )
            }
        },
    }
}

/// The anisotropy cap that a lookup works with: the configured one, but at
/// most [`ANISO_MAX`], beyond which a footprint would cover more texels
/// than a lookup scans.
pub open spec fn effective_anisotropy(aniso: int) -> int {
    if aniso > ANISO_MAX {
        ANISO_MAX as int
    } else {
        aniso
    }
}

/// The filtered lookup: anisotropic where that is the method and the
/// anisotropy cap is at least 1, isotropic otherwise.
pub open spec fn filtered_lookup(
    levels: Seq<Grid>,
    wrap: ImageWrap,
    filtering: FilteringMethod,
    lut: Seq<int>,
    aniso: int,
    s: int,
    t: int,
    dsdx: int,
    dtdx: int,
    dsdy: int,
    dtdy: int,
) -> int {
    if filtering == FilteringMethod::Ewa && aniso >= ONE {
        ewa_lookup(levels, wrap, lut, effective_anisotropy(aniso), s, t, dsdx, dtdx, dsdy, dtdy)
    } else {
        trilinear_lookup(levels, wrap, s, t, dsdx, dtdx, dsdy, dtdy)
    }
}

/// A lookup without derivatives is the bilinear sample of the finest level,
/// whatever the filtering method. Where, further, the sample point is the
/// centre of a texel, the lookup is that texel of the base image exactly;
/// under `Clamp`, a sample point outside the image gives the nearest edge texel.
pub proof fn lemma_lookup_at_rest(
    levels: Seq<Grid>,
    wrap: ImageWrap,
    filtering: FilteringMethod,
    lut: Seq<int>,
    aniso: int,
    s: int,
    t: int,
)
    ensures
        filtered_lookup(levels, wrap, filtering, lut, aniso, s, t, 0, 0, 0, 0) == bilinear(levels[0], wrap, s, t),
        crate::mipmap::filter::texel_position(s, levels[0].width) % (ONE as int) == 0
            && crate::mipmap::filter::texel_position(t, levels[0].height) % (ONE as int) == 0
            ==> filtered_lookup(levels, wrap, filtering, lut, aniso, s, t, 0, 0, 0, 0) == levels[0].fetch(
            wrap,
            crate::mipmap::filter::texel_position(s, levels[0].width) / (ONE as int),
            crate::mipmap::filter::texel_position(t, levels[0].height) / (ONE as int),
        ),
{
    assert(length_sq(0, 0) == 0) by (nonlinear_arith);
    assert(footprint_of(0, 0, 0, 0, effective_anisotropy(aniso)) == Footprint::Degenerate);
    assert(footprint_width(0, 0, 0, 0) == 0);
    if crate::mipmap::filter::texel_position(s, levels[0].width) % (ONE as int) == 0
        && crate::mipmap::filter::texel_position(t, levels[0].height) % (ONE as int) == 0 {
        crate::mipmap::filter::lemma_bilinear_at_texel_centre(levels[0], wrap, s, t);
    }
}

/// Every lookup in the pyramid of a constant image gives the constant, under
/// `Repeat` and `Clamp`: whatever the sample point, the derivatives, the
/// filtering method, the anisotropy cap and the kernel. On such an image
/// the two filtering methods agree exactly.
pub proof fn lemma_lookup_of_constant(
    levels: Seq<Grid>,
    wrap: ImageWrap,
    filtering: FilteringMethod,
    lut: Seq<int>,
    aniso: int,
    c: int,
    s: int,
    t: int,
    dsdx: int,
    dtdx: int,
    dsdy: int,
    dtdy: int,
)
    requires
        crate::mipmap::pyramid::is_pyramid(levels, wrap),
        levels[0].is_constant(c),
        wrap != ImageWrap::Black,
    ensures
        filtered_lookup(levels, wrap, filtering, lut, aniso, s, t, dsdx, dtdx, dsdy, dtdy) == c,
        ewa_lookup(levels, wrap, lut, aniso, s, t, dsdx, dtdx, dsdy, dtdy) == c,
        trilinear_lookup(levels, wrap, s, t, dsdx, dtdx, dsdy, dtdy) == c,
{
    let top = levels.len() - 1;
    assert forall|i: int| 0 <= i < levels.len() implies bilinear(#[trigger] levels[i], wrap, s, t) == c
        && (forall|axes: Axes| ewa_sample(levels[i], wrap, lut, s, t, axes) == c) by {
        crate::mipmap::pyramid::lemma_pyramid_of_constant(levels, wrap, c, i);
        assert(levels[i].wf());
        crate::mipmap::filter::lemma_bilinear_of_constant(levels[i], wrap, c, s, t);
        assert forall|axes: Axes| ewa_sample(levels[i], wrap, lut, s, t, axes) == c by {
            crate::mipmap::ewa::lemma_ewa_of_constant(levels[i], wrap, lut, c, s, t, axes);
        }
    }
    crate::mipmap::pyramid::lemma_pyramid_of_constant(levels, wrap, c, 0);
    crate::mipmap::filter::lemma_lerp_of_equal(0, c);
    assert forall|d: int| #[trigger] lerp(d, c, c) == c by {
        crate::mipmap::filter::lemma_lerp_of_equal(d, c);
    }
    let lod = level_of_detail(footprint_width(dsdx, dtdx, dsdy, dtdy), top);
    if 0 < lod < top * ONE {
        let k = lod / (ONE as int);
        assert(0 <= k < top);
        assert(bilinear(levels[k], wrap, s, t) == c);
        assert(bilinear(levels[k + 1], wrap, s, t) == c);
    }
    assert(bilinear(levels[0], wrap, s, t) == c);
    match footprint_of(dsdx, dtdx, dsdy, dtdy, aniso) {
        Footprint::Ellipse(axes) => {
            let lod = ewa_lod(axes, top);
            if lod < top * ONE {
                let k = lod / (ONE as int);
                assert(0 <= k < top);
                assert(ewa_sample(levels[k], wrap, lut, s, t, axes) == c);
                assert(ewa_sample(levels[k + 1], wrap, lut, s, t, axes) == c);
            }
        },
        _ => {},
    }
    match footprint_of(dsdx, dtdx, dsdy, dtdy, effective_anisotropy(aniso)) {
        Footprint::Ellipse(axes) => {
            let lod = ewa_lod(axes, top);
            if lod < top * ONE {
                let k = lod / (ONE as int);
                assert(0 <= k < top);
                assert(ewa_sample(levels[k], wrap, lut, s, t, axes) == c);
                assert(ewa_sample(levels[k + 1], wrap, lut, s, t, axes) == c);
            }
        },
        _ => {},
    }
}

/// Every lookup in a pyramid whose finest level has its texels between `lo`
/// and `hi` lies between them: whatever the sample point, the derivatives,
/// the filtering method, the anisotropy cap and the kernel. Filtering
/// neither overshoots nor undershoots. Under `Black` the zero outside the
/// image has to lie between `lo` and `hi` as well.
pub proof fn lemma_lookup_within(
    levels: Seq<Grid>,
    wrap: ImageWrap,
    filtering: FilteringMethod,
    lut: Seq<int>,
    aniso: int,
    lo: int,
    hi: int,
    s: int,
    t: int,
    dsdx: int,
    dtdx: int,
    dsdy: int,
    dtdy: int,
)
    requires
        crate::mipmap::pyramid::is_pyramid(levels, wrap),
        levels[0].within(lo, hi),
        wrap != ImageWrap::Black || lo <= 0 <= hi,
        crate::mipmap::kernel::table_wf(lut),
    ensures
        lo <= filtered_lookup(levels, wrap, filtering, lut, aniso, s, t, dsdx, dtdx, dsdy, dtdy) <= hi,
        lo <= ewa_lookup(levels, wrap, lut, aniso, s, t, dsdx, dtdx, dsdy, dtdy) <= hi,
        lo <= trilinear_lookup(levels, wrap, s, t, dsdx, dtdx, dsdy, dtdy) <= hi,
{
    let top = levels.len() - 1;
    assert forall|i: int| 0 <= i < levels.len() implies lo <= bilinear(#[trigger] levels[i], wrap, s, t) <= hi
        && (forall|axes: Axes| lo <= #[trigger] ewa_sample(levels[i], wrap, lut, s, t, axes) <= hi) by {
        crate::mipmap::pyramid::lemma_levels_within(levels, wrap, lo, hi, i);
        assert(levels[i].wf());
        crate::mipmap::filter::lemma_bilinear_within(levels[i], wrap, lo, hi, s, t);
        assert forall|axes: Axes| lo <= #[trigger] ewa_sample(levels[i], wrap, lut, s, t, axes) <= hi by {
            crate::mipmap::ewa::lemma_ewa_within(levels[i], wrap, lut, lo, hi, s, t, axes);
        }
    }
    // the single texel of the coarsest level
    crate::mipmap::pyramid::lemma_levels_within(levels, wrap, lo, hi, top);
    assert(levels[top].wf());
    assert(lo <= levels[top].texels[0] <= hi);
    assert(lo <= levels[top].at(0, 0) <= hi);
    assert(lo <= bilinear(levels[0], wrap, s, t) <= hi);
    let lod = level_of_detail(footprint_width(dsdx, dtdx, dsdy, dtdy), top);
    if 0 < lod < top * ONE {
        let k = lod / (ONE as int);
        assert(0 <= k < top);
        crate::mipmap::filter::lemma_lerp_within(
            lod % (ONE as int),
            bilinear(levels[k], wrap, s, t),
            bilinear(levels[k + 1], wrap, s, t),
            lo,
            hi,
        );
    }
    assert(lo <= trilinear_lookup(levels, wrap, s, t, dsdx, dtdx, dsdy, dtdy) <= hi);
    match footprint_of(dsdx, dtdx, dsdy, dtdy, aniso) {
        Footprint::Ellipse(axes) => {
            let lod = ewa_lod(axes, top);
            if lod < top * ONE {
                let k = lod / (ONE as int);
                assert(0 <= k < top);
                crate::mipmap::filter::lemma_lerp_within(
                    lod % (ONE as int),
                    ewa_sample(levels[k], wrap, lut, s, t, axes),
                    ewa_sample(levels[k + 1], wrap, lut, s, t, axes),
                    lo,
                    hi,
                );
            }
        },
        _ => {},
    }
    match footprint_of(dsdx, dtdx, dsdy, dtdy, effective_anisotropy(aniso)) {
        Footprint::Ellipse(axes) => {
            let lod = ewa_lod(axes, top);
            if lod < top * ONE {
                let k = lod / (ONE as int);
                assert(0 <= k < top);
                crate::mipmap::filter::lemma_lerp_within(
                    lod % (ONE as int),
                    ewa_sample(levels[k], wrap, lut, s, t, axes),
                    ewa_sample(levels[k + 1], wrap, lut, s, t, axes),
                    lo,
                    hi,
                );
            }
        },
        _ => {},
    }
}

/// The two filtering methods agree to within the range of the image: on a
/// pyramid whose finest level has its texels between `lo` and `hi`, the
/// elliptically weighted lookup and the trilinear lookup of one footprint
/// differ by at most `hi - lo`. On a footprint that is round the two also
/// read the same two levels (`lemma_round_footprint_levels`).
pub proof fn lemma_filtering_methods_agree(
    levels: Seq<Grid>,
    wrap: ImageWrap,
    lut: Seq<int>,
    aniso: int,
    lo: int,
    hi: int,
    s: int,
    t: int,
    dsdx: int,
    dtdx: int,
    dsdy: int,
    dtdy: int,
)
    requires
        crate::mipmap::pyramid::is_pyramid(levels, wrap),
        levels[0].within(lo, hi),
        wrap != ImageWrap::Black || lo <= 0 <= hi,
        crate::mipmap::kernel::table_wf(lut),
    ensures
        -(hi - lo) <= ewa_lookup(levels, wrap, lut, aniso, s, t, dsdx, dtdx, dsdy, dtdy) - trilinear_lookup(
            levels,
            wrap,
            s,
            t,
            dsdx,
            dtdx,
            dsdy,
            dtdy,
        ) <= hi - lo,
{
    lemma_lookup_within(levels, wrap, FilteringMethod::Ewa, lut, aniso, lo, hi, s, t, dsdx, dtdx, dsdy, dtdy);
}

/// The whole part of the level of detail of a footprint `r` wide, before it
/// is clamped to the levels there are: `top + floor(log2(r / 65536))`.
pub open spec fn whole_level(r: int, top: int) -> int {
    top + crate::mipmap::fixed::log2_floor(r as nat) - crate::mipmap::fixed::FRAC_BITS
}

/// A round footprint, of derivatives `(r, 0)` and `(0, r)`, is at the same
/// level for both filtering methods: its ellipse is the circle itself, and the
/// whole part of its level of detail is the same whether it is taken from
/// the length of the minor axis or from the width. The two methods then
/// read the same two levels, or both the finest, or both the coarsest.
pub proof fn lemma_round_footprint_levels(r: int, aniso: int, top: int)
    requires
        1 <= r < aniso,
        ONE <= aniso <= ANISO_MAX,
        0 <= top,
    ensures
        footprint_of(r, 0, 0, r, aniso) == Footprint::Ellipse(
            Axes { major_s: r as Fixed, major_t: 0, minor_s: 0, minor_t: r as Fixed },
        ),
        ({
            let axes = Axes { major_s: r as Fixed, major_t: 0, minor_s: 0, minor_t: r as Fixed };
            let whole = whole_level(r, top);
            &&& whole < 0 ==> ewa_lod(axes, top) == 0 && level_of_detail(footprint_width(r, 0, 0, r), top) == 0
            &&& whole >= top ==> ewa_lod(axes, top) >= top * ONE && level_of_detail(footprint_width(r, 0, 0, r), top)
                == top * ONE
            &&& 0 <= whole < top ==> ewa_lod(axes, top) / (ONE as int) == whole && level_of_detail(
                footprint_width(r, 0, 0, r),
                top,
            ) / (ONE as int) == whole
        }),
{
    let one = ONE as int;
    let k = crate::mipmap::fixed::log2_floor(r as nat);
    let p = vstd::arithmetic::power2::pow2(k) as int;
    crate::mipmap::fixed::lemma_log2_floor_bounds(r as nat);
    vstd::arithmetic::power2::lemma_pow2_unfold(k + 1);
    // the footprint
    let sq = r * r;
    assert(0int * 0int == 0);
    assert(length_sq(r, 0) == sq && length_sq(0, r) == sq);
    assert(1 <= sq < aniso * aniso) by (nonlinear_arith)
        requires
            1 <= r < aniso,
            sq == r * r,
    ;
    assert(sq * (aniso * aniso) >= sq * (one * one)) by (nonlinear_arith)
        requires
            sq >= 0,
            aniso >= one,
            one >= 0,
    ;
    assert(crate::mipmap::footprint::stretch(sq, sq, aniso) == one);
    crate::mipmap::fixed::lemma_quotient_exact(r, one);
    crate::mipmap::fixed::lemma_quotient_exact(0, one);
    assert(0 * one == 0);
    assert(r * one / one == r);
    assert(0 * one / one == 0);
    // the logarithm of the square has twice the whole part, or one more
    vstd::arithmetic::power2::lemma_pow2_adds(k, k);
    vstd::arithmetic::power2::lemma_pow2_unfold(2 * k + 1);
    vstd::arithmetic::power2::lemma_pow2_unfold(2 * k + 2);
    let pp = vstd::arithmetic::power2::pow2(2 * k) as int;
    assert(pp <= sq < 4 * pp) by (nonlinear_arith)
        requires
            1 <= p <= r < 2 * p,
            pp == p * p,
            sq == r * r,
    ;
    let big = if sq < 2 * pp { 2 * k } else { 2 * k + 1 };
    crate::mipmap::fixed::lemma_log2_floor_unique(sq as nat, big as nat);
    crate::mipmap::filter::lemma_log2_linear_parts(sq);
    crate::mipmap::filter::lemma_log2_linear_parts(r);
    let l2 = log2_linear(sq);
    let m2 = l2 % one;
    vstd::arithmetic::div_mod::lemma_fundamental_div_mod(l2, one);
    assert(l2 == (big - 16) * one + m2 && 0 <= m2 < one);
    let l1 = log2_linear(r);
    let m1 = l1 % one;
    vstd::arithmetic::div_mod::lemma_fundamental_div_mod(l1, one);
    assert(l1 == (k - 16) * one + m1 && 0 <= m1 < one);
    // half of it has the whole part of the logarithm itself
    let half = (l2 - 16 * one) / 2;
    assert((k - 16) * one <= half < (k - 16) * one + one);
    let whole = whole_level(r, top);
    assert(whole == top + k - 16);
    let e = top * one + half;
    assert(whole * one <= e < whole * one + one) by (nonlinear_arith)
        requires
            whole == top + k - 16,
            e == top * one + half,
            (k - 16) * one <= half < (k - 16) * one + one,
    ;
    let d = top * one + l1;
    assert(whole * one <= d < whole * one + one) by (nonlinear_arith)
        requires
            whole == top + k - 16,
            d == top * one + l1,
            l1 == (k - 16) * one + m1,
            0 <= m1 < one,
    ;
    assert(footprint_width(r, 0, 0, r) == r);
    if 0 <= whole < top {
        vstd::arithmetic::div_mod::lemma_fundamental_div_mod_converse(e, one, whole, e - whole * one);
        vstd::arithmetic::div_mod::lemma_fundamental_div_mod_converse(d, one, whole, d - whole * one);
        assert(d < top * one) by (nonlinear_arith)
            requires
                d < whole * one + one,
                whole < top,
                one > 0,
        ;
        assert(0 <= d && 0 <= e) by (nonlinear_arith)
            requires
                whole * one <= d,
                whole * one <= e,
                0 <= whole,
                one > 0,
        ;
    } else if whole < 0 {
        assert(d < 0 && e < 0) by (nonlinear_arith)
            requires
                d < whole * one + one,
                e < whole * one + one,
                whole < 0,
                one > 0,
        ;
    } else {
        assert(d >= top * one && e >= top * one) by (nonlinear_arith)
            requires
                whole * one <= d,
                whole * one <= e,
                whole >= top,
                one > 0,
        ;
    }
}

/// The magnitude of `v`.
fn magnitude_of(v: Fixed) -> (r: u64)
    ensures
        r == crate::mipmap::filter::magnitude(v as int),
{
    if v < 0 {
        (-(v as i128)) as u64
    } else {
        v as u64
    }
}

/// The greatest magnitude among four components.
pub fn width_of(dsdx: Fixed, dtdx: Fixed, dsdy: Fixed, dtdy: Fixed) -> (r: u64)
    ensures
        r == footprint_width(dsdx as int, dtdx as int, dsdy as int, dtdy as int),
{
    let p = magnitude_of(dsdx);
    let q = magnitude_of(dtdx);
    let u = magnitude_of(dsdy);
    let v = magnitude_of(dtdy);
    let a = if p >= q { p } else { q };
    let b = if u >= v { u } else { v };
    if a >= b {
        a
    } else {
        b
    }
}

impl Pyramid {
    /// The isotropic lookup at `(s, t)`.
    pub fn lookup_trilinear(&self, s: Fixed, t: Fixed, dsdx: Fixed, dtdx: Fixed, dsdy: Fixed, dtdy: Fixed) -> (r: i64)
        requires
            self.wf(),
        ensures
            r == trilinear_lookup(
                self.levels(),
                self.wrap_mode(),
                s as int,
                t as int,
                dsdx as int,
                dtdx as int,
                dsdy as int,
                dtdy as int,
            ),
            texel_in_range(r as int),
    {
        let top = self.level_count() - 1;
        let lod = lod_of_width(width_of(dsdx, dtdx, dsdy, dtdy), top);
        self.trilinear(s, t, lod)
    }

    /// The anisotropic lookup at `(s, t)`, under the anisotropy cap `aniso`
    /// and the kernel `lut`.
    pub fn lookup_ewa(
        &self,
        lut: &WeightTable,
        aniso: Fixed,
        s: Fixed,
        t: Fixed,
        dsdx: Fixed,
        dtdx: Fixed,
        dsdy: Fixed,
        dtdy: Fixed,
    ) -> (r: i64)
        requires
            self.wf(),
            lut.wf(),
            ONE <= aniso <= ANISO_MAX,
        ensures
            r == ewa_lookup(
                self.levels(),
                self.wrap_mode(),
                lut@,
                aniso as int,
                s as int,
                t as int,
                dsdx as int,
                dtdx as int,
                dsdy as int,
                dtdy as int,
            ),
            texel_in_range(r as int),
    {
        let wrap = self.wrap();
        let top = self.level_count() - 1;
        match Footprint::new(dsdx, dtdx, dsdy, dtdy, aniso) {
            Footprint::Degenerate => self.lookup_trilinear(s, t, dsdx, dtdx, dsdy, dtdy),
            Footprint::Vast => self.coarsest(),
            Footprint::Ellipse(axes) => {
                proof {
                    let m = ANISO_MAX as int;
                    crate::mipmap::fixed::lemma_product_bound(axes.minor_s as int, axes.minor_s as int, m, m);
                    crate::mipmap::fixed::lemma_product_bound(axes.minor_t as int, axes.minor_t as int, m, m);
                }
                let a = axes.minor_s as i128;
                let b = axes.minor_t as i128;
                let minor = (a * a + b * b) as u64;
                let log = log2_linear_of(minor) as i128;
                let raw = (top as i128) * (ONE as i128) + floor_div(log - 16 * (ONE as i128), 2);
                let lod: i128 = if raw < 0 {
                    0
                } else {
                    raw
                };
                if lod >= (top as i128) * (ONE as i128) {
                    self.coarsest()
                } else {
                    let k = (lod / (ONE as i128)) as usize;
                    let d = (lod % (ONE as i128)) as i64;
                    let fine = self.level(k).ewa(wrap, lut, s, t, &axes);
                    let coarse = self.level(k + 1).ewa(wrap, lut, s, t, &axes);
                    lerp_texel(d, fine, coarse)
                }
            },
        }
    }

    /// The filtered lookup at `(s, t)`.
    pub fn lookup(
        &self,
        filtering: FilteringMethod,
        lut: &WeightTable,
        aniso: Fixed,
        s: Fixed,
        t: Fixed,
        dsdx: Fixed,
        dtdx: Fixed,
        dsdy: Fixed,
        dtdy: Fixed,
    ) -> (r: i64)
        requires
            self.wf(),
            lut.wf(),
        ensures
            r == filtered_lookup(
                self.levels(),
                self.wrap_mode(),
                filtering,
                lut@,
                aniso as int,
                s as int,
                t as int,
                dsdx as int,
                dtdx as int,
                dsdy as int,
                dtdy as int,
            ),
            texel_in_range(r as int),
    {
        match filtering {
            FilteringMethod::Ewa => {
                if aniso >= ONE {
                    let cap = if aniso > ANISO_MAX {
                        ANISO_MAX
                    } else {
                        aniso
                    };
                    self.lookup_ewa(lut, cap, s, t, dsdx, dtdx, dsdy, dtdy)
                } else {
                    self.lookup_trilinear(s, t, dsdx, dtdx, dsdy, dtdy)
                }
            },
            FilteringMethod::Trilinear => self.lookup_trilinear(s, t, dsdx, dtdx, dsdy, dtdy),
        }
    }
}

} // verus!
