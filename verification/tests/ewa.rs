use texmap::mipmap::fixed::{HALF, ONE};
use texmap::mipmap::footprint::{Axes, Footprint, ANISO_MAX};
use texmap::mipmap::kernel::WeightTable;
use texmap::mipmap::level::Level;
use texmap::mipmap::pyramid::Pyramid;
use texmap::mipmap::wrap::{FilteringMethod, ImageWrap};

fn box_kernel() -> WeightTable {
    WeightTable::new(&vec![ONE]).unwrap()
}

/// The Gaussian `exp(-2 r^2) - exp(-2)` over the squared radius, with 128 samples.
fn gaussian() -> WeightTable {
    let n = 128;
    let samples: Vec<i64> = (0..n)
        .map(|k| {
            let r2 = k as f64 / (n - 1) as f64;
            (((-2.0 * r2).exp() - (-2.0f64).exp()) * 65536.0).round() as i64
        })
        .collect();
    WeightTable::new(&samples).unwrap()
}

fn centre(i: i64, n: i64) -> i64 {
    (2 * i + 1) * ONE / (2 * n)
}

fn ramp() -> Vec<i64> {
    (0..16).map(|i| 1000 * (i / 4) + 100 * (i % 4)).collect()
}

#[test]
fn footprint_classification() {
    let cap = 8 * ONE;
    assert_eq!(Footprint::new(0, 0, 0, 0, cap), Footprint::Degenerate);
    assert_eq!(Footprint::new(500, 0, 0, 0, cap), Footprint::Degenerate);
    assert_eq!(Footprint::new(0, 0, 0, 500, cap), Footprint::Degenerate);
    assert_eq!(Footprint::new(8 * ONE, 0, 0, 1, cap), Footprint::Vast);
    assert_eq!(Footprint::new(i64::MIN, i64::MAX, 1, 1, cap), Footprint::Vast);
    assert_eq!(
        Footprint::new(1000, 0, 0, 500, cap),
        Footprint::Ellipse(Axes { major_s: 1000, major_t: 0, minor_s: 0, minor_t: 500 })
    );
    // the longer derivative is the major axis, whichever it is
    assert_eq!(
        Footprint::new(0, 500, -1000, 0, cap),
        Footprint::Ellipse(Axes { major_s: -1000, major_t: 0, minor_s: 0, minor_t: 500 })
    );
    // equally long: the first
    assert_eq!(
        Footprint::new(3, 4, 5, 0, cap),
        Footprint::Ellipse(Axes { major_s: 3, major_t: 4, minor_s: 5, minor_t: 0 })
    );
}

#[test]
fn footprint_anisotropy_is_capped() {
    // 16 to 1, capped at 8 to 1: the minor axis doubles
    assert_eq!(
        Footprint::new(16000, 0, 0, 1000, 8 * ONE),
        Footprint::Ellipse(Axes { major_s: 16000, major_t: 0, minor_s: 0, minor_t: 2000 })
    );
    assert_eq!(
        Footprint::new(0, -1000, 16000, 0, 8 * ONE),
        Footprint::Ellipse(Axes { major_s: 16000, major_t: 0, minor_s: 0, minor_t: -2000 })
    );
    // at most 8 to 1 already: nothing changes
    assert_eq!(
        Footprint::new(8000, 0, 0, 1000, 8 * ONE),
        Footprint::Ellipse(Axes { major_s: 8000, major_t: 0, minor_s: 0, minor_t: 1000 })
    );
    // a cap of 1 makes the footprint round
    assert_eq!(
        Footprint::new(3000, 0, 0, 1000, ONE),
        Footprint::Ellipse(Axes { major_s: 3000, major_t: 0, minor_s: 0, minor_t: 3000 })
    );
    assert_eq!(ANISO_MAX, 64 * ONE);
}

#[test]
fn ewa_of_a_small_footprint_is_the_texel() {
    let level = Level::new(4, 4, ramp()).unwrap();
    let axes = Axes { major_s: 1, major_t: 0, minor_s: 0, minor_t: 1 };
    let lut = gaussian();
    for t in 0..4 {
        for s in 0..4 {
            assert_eq!(level.ewa(ImageWrap::Clamp, &lut, centre(s, 4), centre(t, 4), &axes), 1000 * t + 100 * s);
        }
    }
}

#[test]
fn ewa_between_two_texels_is_their_mean() {
    let level = Level::new(4, 4, ramp()).unwrap();
    let axes = Axes { major_s: 1, major_t: 0, minor_s: 0, minor_t: 1 };
    // halfway between texels (1, 2) and (2, 2): both are half a texel away, all others further than one
    let got = level.ewa(ImageWrap::Clamp, &gaussian(), HALF, centre(2, 4), &axes);
    assert_eq!(got, 2150);
}

#[test]
fn ewa_weighs_by_the_kernel() {
    // one row of texels 0, 900, 0, 0, sampled at the centre of texel 0 with a
    // footprint two texels long along s: texel 1 is at squared radius
    // 1 / (1 + 4) of the ellipse, texel 0 at its centre
    let level = Level::new(4, 1, vec![0, 900, 0, 0]).unwrap();
    let axes = Axes { major_s: HALF, major_t: 0, minor_s: 0, minor_t: 1 };
    let lut = WeightTable::new(&vec![ONE, ONE / 2, 0, 0, 0, 0]).unwrap();
    // weights: texel 0 has 1; texels -1 and 1 have 1/2 (squared radius 1/5 falls to the
    // second of 6 samples); texels -2 and 2 are at squared radius 4/5, which has weight 0
    let clamp = level.ewa(ImageWrap::Clamp, &lut, centre(0, 4), HALF, &axes);
    assert_eq!(clamp, 900 / 4);
    let black = level.ewa(ImageWrap::Black, &lut, centre(0, 4), HALF, &axes);
    assert_eq!(black, 900 / 4);
    let repeat = level.ewa(ImageWrap::Repeat, &lut, centre(1, 4), HALF, &axes);
    assert_eq!(repeat, 900 / 2);
}

#[test]
fn ewa_without_weight_is_bilinear() {
    let level = Level::new(4, 4, ramp()).unwrap();
    let axes = Axes { major_s: 100, major_t: 0, minor_s: 0, minor_t: 100 };
    let nothing = WeightTable::new(&vec![0]).unwrap();
    let s = centre(1, 4) + 1000;
    let t = centre(2, 4) + 3000;
    assert_eq!(level.ewa(ImageWrap::Clamp, &nothing, s, t, &axes), level.bilinear(ImageWrap::Clamp, s, t));
}

#[test]
fn ewa_too_wide_to_scan_is_bilinear() {
    // four whole textures per sample at the finest level of a 32768-wide image
    let level = Level::new(32768, 1, vec![5; 32768]).unwrap();
    let axes = Axes { major_s: 4 * ONE, major_t: 0, minor_s: 0, minor_t: 4 * ONE };
    let got = level.ewa(ImageWrap::Repeat, &gaussian(), 12345, 0, &axes);
    assert_eq!(got, level.bilinear(ImageWrap::Repeat, 12345, 0));
}

#[test]
fn ewa_degenerate_falls_back() {
    let p = Pyramid::new(4, 4, ramp(), ImageWrap::Clamp, &box_kernel()).unwrap();
    let lut = gaussian();
    let s = centre(1, 4) + 777;
    let t = centre(3, 4) - 555;
    let base = p.level(0).bilinear(ImageWrap::Clamp, s, t);
    assert_eq!(p.lookup_ewa(&lut, 8 * ONE, s, t, 0, 0, 0, 0), base);
    // a footprint without width is filtered as an isotropic one of its length
    let line = p.lookup_ewa(&lut, 8 * ONE, s, t, ONE / 2, 0, 0, 0);
    assert_eq!(line, p.lookup_trilinear(s, t, ONE / 2, 0, 0, 0));
    assert_eq!(line, p.trilinear(s, t, ONE));
    assert_eq!(p.lookup_ewa(&lut, 8 * ONE, s, t, 0, 0, 0, -ONE), p.coarsest());
    // without a usable anisotropy cap the lookup is trilinear
    assert_eq!(
        p.lookup(FilteringMethod::Ewa, &lut, 0, s, t, ONE / 2, 0, 0, ONE / 2),
        p.lookup_trilinear(s, t, ONE / 2, 0, 0, ONE / 2)
    );
    assert_eq!(
        p.lookup(FilteringMethod::Ewa, &lut, ONE - 1, s, t, ONE / 2, 0, 0, ONE / 2),
        p.lookup_trilinear(s, t, ONE / 2, 0, 0, ONE / 2)
    );
}

#[test]
fn ewa_vast_is_coarsest() {
    let p = Pyramid::new(4, 4, ramp(), ImageWrap::Clamp, &box_kernel()).unwrap();
    let lut = gaussian();
    assert_eq!(p.lookup_ewa(&lut, 8 * ONE, HALF, HALF, 8 * ONE, 0, 0, 8 * ONE), p.coarsest());
    assert_eq!(p.lookup_ewa(&lut, 8 * ONE, HALF, HALF, i64::MAX, i64::MIN, 5, 5), p.coarsest());
    // a minor axis one texture long is at the coarsest level of detail
    assert_eq!(p.lookup_ewa(&lut, 8 * ONE, HALF, HALF, 2 * ONE, 0, 0, ONE), p.coarsest());
    // a cap beyond the greatest is the greatest
    assert_eq!(
        p.lookup(FilteringMethod::Ewa, &lut, 1000 * ONE, HALF, HALF, 64 * ONE, 0, 0, 1),
        p.coarsest()
    );
}

#[test]
fn ewa_isotropic_agrees_with_trilinear() {
    // a smooth image: a ramp along both axes, 64 texels across
    let texels: Vec<i64> = (0..64 * 64).map(|i| ((i % 64) * 1000 + (i / 64) * 300) as i64).collect();
    let p = Pyramid::new(64, 64, texels, ImageWrap::Clamp, &box_kernel()).unwrap();
    let lut = gaussian();
    let range = 63 * 1000 + 63 * 300;
    for d in [ONE / 64, ONE / 48, ONE / 32, ONE / 20, ONE / 16, ONE / 8] {
        for (s, t) in [(HALF, HALF), (20000, 30000), (40000, 25000)] {
            let ewa = p.lookup(FilteringMethod::Ewa, &lut, 8 * ONE, s, t, d, 0, 0, d);
            let tri = p.lookup(FilteringMethod::Trilinear, &lut, 8 * ONE, s, t, d, 0, 0, d);
            assert!((ewa - tri).abs() * 100 <= range, "{} and {} at width {}", ewa, tri, d);
        }
    }
}

#[test]
fn ewa_blends_two_levels() {
    let texels: Vec<i64> = (0..16 * 16).map(|i| ((i % 16) * (i / 16) * 10) as i64).collect();
    let p = Pyramid::new(16, 16, texels, ImageWrap::Repeat, &box_kernel()).unwrap();
    let lut = gaussian();
    let s = 30000;
    let t = 20000;
    // a round footprint 3/32 across: level of detail 4 + log2(3/32) = 0.5, by the
    // logarithm that is linear between powers of two
    let d = 3 * ONE / 32;
    let axes = Axes { major_s: d, major_t: 0, minor_s: 0, minor_t: d };
    let fine = p.level(0).ewa(ImageWrap::Repeat, &lut, s, t, &axes);
    let coarse = p.level(1).ewa(ImageWrap::Repeat, &lut, s, t, &axes);
    assert_eq!(p.lookup_ewa(&lut, 8 * ONE, s, t, d, 0, 0, d), (fine + coarse).div_euclid(2));
    // a round footprint 1/8 across: level of detail 1 exactly
    let d = ONE / 8;
    let axes = Axes { major_s: d, major_t: 0, minor_s: 0, minor_t: d };
    assert_eq!(p.lookup_ewa(&lut, 8 * ONE, s, t, d, 0, 0, d), p.level(1).ewa(ImageWrap::Repeat, &lut, s, t, &axes));
}

#[test]
fn lookups_stay_within_the_range_of_the_image() {
    // texels between -300 and 900, scattered
    let mut seed: i64 = 12345;
    let texels: Vec<i64> = (0..12 * 9)
        .map(|_| {
            seed = (seed * 1103515245 + 12345) % 2147483648;
            seed % 1201 - 300
        })
        .collect();
    let lo = *texels.iter().min().unwrap();
    let hi = *texels.iter().max().unwrap();
    let lut = gaussian();
    let resample = WeightTable::new(&vec![ONE, 3 * ONE / 4, ONE / 3, ONE / 9]).unwrap();
    for wrap in [ImageWrap::Repeat, ImageWrap::Clamp, ImageWrap::Black] {
        let p = Pyramid::new(12, 9, texels.clone(), wrap, &resample).unwrap();
        for (s, t) in [(0, 0), (HALF, HALF), (-70000, 123456), (ONE - 1, 3)] {
            for (a, b, c, d) in [(0, 0, 0, 0), (900, 0, 0, 900), (20000, 3000, -100, 2500), (ONE / 3, 0, 0, ONE / 40)] {
                let ewa = p.lookup(FilteringMethod::Ewa, &lut, 8 * ONE, s, t, a, b, c, d);
                let tri = p.lookup(FilteringMethod::Trilinear, &lut, 8 * ONE, s, t, a, b, c, d);
                assert!(lo <= ewa && ewa <= hi);
                assert!(lo <= tri && tri <= hi);
                assert!((ewa - tri).abs() <= hi - lo);
            }
        }
    }
}

#[test]
fn round_footprints_read_the_same_levels() {
    // a checkerboard: the finest level alternates, every other level is its mean
    let texels: Vec<i64> = (0..64 * 64).map(|i| if (i % 64 + i / 64) % 2 == 0 { 0 } else { ONE }).collect();
    let p = Pyramid::new(64, 64, texels, ImageWrap::Repeat, &box_kernel()).unwrap();
    let lut = gaussian();
    // from two texels across on, both methods read levels above the finest only
    for r in [ONE / 32, ONE / 32 + 1, ONE / 20, ONE / 16 - 1, ONE / 16, ONE / 5, ONE, 3 * ONE] {
        for (s, t) in [(12345, 54321), (HALF, HALF), (0, 0)] {
            assert_eq!(p.lookup(FilteringMethod::Ewa, &lut, 8 * ONE, s, t, r, 0, 0, r), HALF);
            assert_eq!(p.lookup(FilteringMethod::Trilinear, &lut, 8 * ONE, s, t, r, 0, 0, r), HALF);
        }
    }
    // below, both reach into the finest level: at the centre of a texel that is 0
    // neither gives the mean
    let s = (2 * 10 + 1) * ONE / 128;
    let t = (2 * 20 + 1) * ONE / 128;
    let r = ONE / 32 - 1;
    assert!(p.lookup(FilteringMethod::Ewa, &lut, 8 * ONE, s, t, r, 0, 0, r) < HALF);
    assert!(p.lookup(FilteringMethod::Trilinear, &lut, 8 * ONE, s, t, r, 0, 0, r) < HALF);
}
