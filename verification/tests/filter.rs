use texmap::mipmap::filter::{lerp_texel, lod_of_width, log2_linear_of, LOD_STEP_MAX};
use texmap::mipmap::fixed::{HALF, ONE};
use texmap::mipmap::kernel::WeightTable;
use texmap::mipmap::level::Level;
use texmap::mipmap::lookup::width_of;
use texmap::mipmap::pyramid::Pyramid;
use texmap::mipmap::wrap::{FilteringMethod, ImageWrap};

fn box_kernel() -> WeightTable {
    WeightTable::new(&vec![ONE]).unwrap()
}

/// The texture coordinate of the centre of texel `i` on an axis of `n` texels.
fn centre(i: i64, n: i64) -> i64 {
    (2 * i + 1) * ONE / (2 * n)
}

/// A 4x4 image whose texel at `(s, t)` is `1000 * t + 100 * s`.
fn ramp() -> Vec<i64> {
    (0..16).map(|i| 1000 * (i / 4) + 100 * (i % 4)).collect()
}

#[test]
fn lerp_texel_values() {
    assert_eq!(lerp_texel(0, 10, 50), 10);
    assert_eq!(lerp_texel(ONE, 10, 50), 50);
    assert_eq!(lerp_texel(HALF, 10, 50), 30);
    assert_eq!(lerp_texel(ONE / 4, 0, 400), 100);
    assert_eq!(lerp_texel(HALF, 0, 1), 0);
    assert_eq!(lerp_texel(HALF, 0, -1), -1);
}

#[test]
fn log2_linear_values() {
    assert_eq!(log2_linear_of(1), -16 * ONE);
    assert_eq!(log2_linear_of(ONE as u64), 0);
    assert_eq!(log2_linear_of(2 * ONE as u64), ONE);
    assert_eq!(log2_linear_of(ONE as u64 / 4), -2 * ONE);
    // halfway between 1 and 2, and between 1/4 and 1/2
    assert_eq!(log2_linear_of(3 * ONE as u64 / 2), HALF);
    assert_eq!(log2_linear_of(3 * ONE as u64 / 8), -2 * ONE + HALF);
}

#[test]
fn lod_of_width_values() {
    // a pyramid of three levels: 4 texels across
    assert_eq!(lod_of_width(0, 2), 0);
    assert_eq!(lod_of_width(1, 2), 0);
    assert_eq!(lod_of_width(ONE as u64 / 4, 2), 0);
    assert_eq!(lod_of_width(ONE as u64 / 2, 2), ONE);
    assert_eq!(lod_of_width(3 * ONE as u64 / 8, 2), HALF);
    assert_eq!(lod_of_width(ONE as u64, 2), 2 * ONE);
    assert_eq!(lod_of_width(1000 * ONE as u64, 2), 2 * ONE);
    assert_eq!(lod_of_width(u64::MAX, 15), 15 * ONE);
}

#[test]
fn lod_rises_steadily_with_the_width() {
    for top in [0usize, 2, 6, 10, 15] {
        let mut width: u64 = 1;
        while width < 3 * ONE as u64 {
            let here = lod_of_width(width, top);
            let next = lod_of_width(width + 1, top);
            assert!(here <= next);
            assert!(next - here <= 2 * ONE / width as i64 + 1);
            width += 1 + width / 97;
        }
    }
    // the logarithm steps across a power of two as it does below it
    for k in 1..40u32 {
        let at = 1u64 << k;
        let before = log2_linear_of(at) - log2_linear_of(at - 1);
        let after = log2_linear_of(at + 1) - log2_linear_of(at);
        assert!(0 <= after && after <= before && before <= 2 * after + 1);
    }
}

#[test]
fn lod_is_the_logarithm_of_the_width_in_texels() {
    // 64 texels across: a footprint of 3/64 is 3 texels wide
    assert_eq!(lod_of_width(3 * ONE as u64 / 64, 6), log2_linear_of(3 * ONE as u64));
    assert_eq!(lod_of_width(ONE as u64 / 16, 6), 2 * ONE);
    assert_eq!(log2_linear_of(4 * ONE as u64), 2 * ONE);
}

#[test]
fn width_of_derivatives() {
    assert_eq!(width_of(0, 0, 0, 0), 0);
    assert_eq!(width_of(3, -7, 5, 2), 7);
    assert_eq!(width_of(i64::MIN, 0, 0, 0), 1u64 << 63);
    assert_eq!(width_of(1, 2, -9, 4), 9);
}

#[test]
fn bilinear_at_texel_centre() {
    let level = Level::new(4, 4, ramp()).unwrap();
    for wrap in [ImageWrap::Repeat, ImageWrap::Clamp, ImageWrap::Black] {
        for t in 0..4 {
            for s in 0..4 {
                assert_eq!(level.bilinear(wrap, centre(s, 4), centre(t, 4)), 1000 * t + 100 * s);
            }
        }
    }
}

#[test]
fn bilinear_between_texels() {
    let level = Level::new(4, 4, ramp()).unwrap();
    // halfway between the centres of texels 1 and 2 of row 0
    assert_eq!(level.bilinear(ImageWrap::Clamp, ONE / 2, centre(0, 4)), 150);
    // a quarter of the way from texel (1, 1) to texel (2, 1), halfway to row 2
    let s = centre(1, 4) + ONE / 16;
    let t = ONE / 2;
    assert_eq!(level.bilinear(ImageWrap::Clamp, s, t), 1500 + 125);
}

#[test]
fn bilinear_outside_the_image() {
    let level = Level::new(4, 4, ramp()).unwrap();
    let far = -3 * ONE - ONE / 8;
    // s = -3.125 is the centre of texel -13: texel 3 under repeat, texel 0 under clamp
    assert_eq!(level.bilinear(ImageWrap::Repeat, far, centre(2, 4)), 2300);
    assert_eq!(level.bilinear(ImageWrap::Clamp, far, centre(2, 4)), 2000);
    assert_eq!(level.bilinear(ImageWrap::Black, far, centre(2, 4)), 0);
    // at the very edge, half of the sample is outside
    assert_eq!(level.bilinear(ImageWrap::Black, 0, centre(2, 4)), 1000);
    assert_eq!(level.bilinear(ImageWrap::Clamp, 0, centre(2, 4)), 2000);
    assert_eq!(level.bilinear(ImageWrap::Repeat, 0, centre(2, 4)), 2150);
}

#[test]
fn trilinear_blend_values() {
    let p = Pyramid::new(4, 4, ramp(), ImageWrap::Clamp, &box_kernel()).unwrap();
    // level 1 holds 550, 750 / 2550, 2750, and level 2 their mean
    assert_eq!(p.level(1).get(0, 0), 550);
    assert_eq!(p.level(1).get(1, 0), 750);
    assert_eq!(p.level(1).get(0, 1), 2550);
    assert_eq!(p.level(1).get(1, 1), 2750);
    assert_eq!(p.coarsest(), 1650);
    // The centre of texel (0, 0) of level 0 lies a quarter of a texel before
    // the centre of texel (0, 0) of level 1, where the sample clamps.
    let s = centre(0, 4);
    let t = centre(0, 4);
    let fine = p.level(0).bilinear(ImageWrap::Clamp, s, t);
    let mid = p.level(1).bilinear(ImageWrap::Clamp, s, t);
    assert_eq!(fine, 0);
    assert_eq!(mid, 550);
    assert_eq!(p.trilinear(s, t, -5), 0);
    assert_eq!(p.trilinear(s, t, 0), 0);
    assert_eq!(p.trilinear(s, t, HALF), 275);
    assert_eq!(p.trilinear(s, t, ONE), 550);
    assert_eq!(p.trilinear(s, t, ONE + ONE / 4), 825);
    assert_eq!(p.trilinear(s, t, 2 * ONE), 1650);
    assert_eq!(p.trilinear(s, t, 100 * ONE), 1650);
    // on a ramp, the sample inside the image is the same at every level
    let s = centre(1, 4);
    assert_eq!(p.level(0).bilinear(ImageWrap::Clamp, s, s), 1100);
    assert_eq!(p.level(1).bilinear(ImageWrap::Clamp, s, s), 1100);
    assert_eq!(p.trilinear(s, s, ONE + ONE / 4), (3 * 1100 + 1650) / 4);
}

#[test]
fn trilinear_is_continuous_across_levels() {
    // a smooth image: a ramp along s
    let texels: Vec<i64> = (0..64 * 64).map(|i| (i % 64) * 1000).collect();
    let p = Pyramid::new(64, 64, texels, ImageWrap::Clamp, &box_kernel()).unwrap();
    let s = 27000;
    let t = 41000;
    for k in 0..7i64 {
        for lod in [k * ONE - 2, k * ONE - 1, k * ONE, k * ONE + 1] {
            let here = p.trilinear(s, t, lod);
            let next = p.trilinear(s, t, lod + 1);
            assert!((next - here).abs() <= LOD_STEP_MAX);
            // on this image the levels differ by less than the image's range
            assert!((next - here).abs() <= 2);
        }
    }
    // through the derivatives, too: one step of the width across a threshold
    let threshold = ONE / 8;
    let below = p.lookup_trilinear(s, t, threshold - 1, 0, 0, 0);
    let at = p.lookup_trilinear(s, t, threshold, 0, 0, 0);
    let above = p.lookup_trilinear(s, t, threshold + 1, 0, 0, 0);
    assert!((at - below).abs() <= 2);
    assert!((above - at).abs() <= 2);
}

#[test]
fn lookup_at_rest_is_the_base_texel() {
    let lut = WeightTable::new(&vec![ONE, ONE / 2, 0]).unwrap();
    let p = Pyramid::new(4, 4, ramp(), ImageWrap::Clamp, &box_kernel()).unwrap();
    for filtering in [FilteringMethod::Trilinear, FilteringMethod::Ewa] {
        for t in 0..4 {
            for s in 0..4 {
                let got = p.lookup(filtering, &lut, 8 * ONE, centre(s, 4), centre(t, 4), 0, 0, 0, 0);
                assert_eq!(got, 1000 * t + 100 * s);
            }
        }
        // outside the image, the nearest edge texel
        let got = p.lookup(filtering, &lut, 8 * ONE, centre(-2, 4), centre(9, 4), 0, 0, 0, 0);
        assert_eq!(got, 3000);
    }
}

#[test]
fn checkerboard_mean_at_coarsest_level() {
    let texels: Vec<i64> = (0..16).map(|i| if (i % 4 + i / 4) % 2 == 0 { 0 } else { ONE }).collect();
    let p = Pyramid::new(4, 4, texels, ImageWrap::Repeat, &box_kernel()).unwrap();
    let lut = WeightTable::new(&vec![ONE]).unwrap();
    // derivatives of one whole texture per sample force the coarsest level
    let got = p.lookup(FilteringMethod::Trilinear, &lut, 0, HALF, HALF, ONE, 0, 0, ONE);
    assert_eq!(got, ONE / 2);
    let got = p.lookup_trilinear(HALF, HALF, 4 * ONE, 0, 0, 4 * ONE);
    assert_eq!(got, ONE / 2);
}
