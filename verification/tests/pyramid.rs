use texmap::mipmap::fixed::ONE;
use texmap::mipmap::kernel::WeightTable;
use texmap::mipmap::level::{Level, MipError};
use texmap::mipmap::pyramid::Pyramid;
use texmap::mipmap::wrap::ImageWrap;

/// A kernel that weighs every distance alike.
fn box_kernel() -> WeightTable {
    WeightTable::new(&vec![ONE]).unwrap()
}

/// A kernel that falls off linearly from 1 at the centre, with 64 samples.
fn tent_kernel() -> WeightTable {
    let samples: Vec<i64> = (0..64).map(|k| ONE - k * (ONE / 64)).collect();
    WeightTable::new(&samples).unwrap()
}

/// A windowed sinc with two lobes on either side, with 1024 samples.
fn lanczos_kernel() -> WeightTable {
    let n = 1024;
    let samples: Vec<i64> = (0..n)
        .map(|k| {
            let x = (k as f64 + 0.5) / n as f64;
            let a = x * std::f64::consts::PI;
            let sinc = a.sin() / a;
            let window = (2.0 * a).sin() / (2.0 * a);
            (sinc * window * 65536.0).round() as i64
        })
        .collect();
    WeightTable::new(&samples).unwrap()
}

#[test]
fn weight_table_clamps_samples() {
    let table = WeightTable::new(&vec![-5, 70000, 30000]).unwrap();
    assert_eq!(table.len(), 3);
    assert_eq!(table.weight(0), 0);
    assert_eq!(table.weight(21845), 0);
    assert_eq!(table.weight(21846), ONE);
    assert_eq!(table.weight(43690), ONE);
    assert_eq!(table.weight(43691), 30000);
    assert_eq!(table.weight(ONE), 30000);
}

#[test]
fn weight_table_needs_samples() {
    assert!(WeightTable::new(&vec![]).is_none());
    assert!(WeightTable::new(&vec![1; 65536]).is_some());
    assert!(WeightTable::new(&vec![1; 65537]).is_none());
}

#[test]
fn resample_taps_of_three_to_four() {
    let taps = Level::resample_taps(&box_kernel(), 3, 4).unwrap();
    assert_eq!(taps.len(), 4);
    let firsts: Vec<i64> = taps.iter().map(|tap| tap.first).collect();
    assert_eq!(firsts, vec![-2, -1, 0, 1]);
    for tap in taps.iter() {
        assert_eq!(tap.weights, [ONE, ONE, ONE, ONE]);
    }
}

#[test]
fn resample_taps_weigh_by_distance() {
    // Output texel 0 of 3 -> 4 is centred at 0.375; its taps are centred at
    // -1.5, -0.5, 0.5 and 1.5, at half distances 0.9375, 0.4375, 0.0625, 0.5625.
    let taps = Level::resample_taps(&tent_kernel(), 3, 4).unwrap();
    let step = ONE / 64;
    assert_eq!(taps[0].first, -2);
    assert_eq!(taps[0].weights, [ONE - 60 * step, ONE - 28 * step, ONE - 4 * step, ONE - 36 * step]);
}

#[test]
fn resample_rows_with_box_kernel() {
    let level = Level::new(3, 1, vec![100, 200, 400]).unwrap();
    let table = box_kernel();
    let clamp = level.resample(ImageWrap::Clamp, &table, 4, true).unwrap();
    assert_eq!((clamp.width(), clamp.height()), (4, 1));
    let got: Vec<i64> = (0..4).map(|s| clamp.get(s, 0)).collect();
    assert_eq!(got, vec![125, 200, 275, 350]);
    let repeat = level.resample(ImageWrap::Repeat, &table, 4, true).unwrap();
    let got: Vec<i64> = (0..4).map(|s| repeat.get(s, 0)).collect();
    assert_eq!(got, vec![225, 275, 200, 225]);
    let black = level.resample(ImageWrap::Black, &table, 4, true).unwrap();
    let got: Vec<i64> = (0..4).map(|s| black.get(s, 0)).collect();
    assert_eq!(got, vec![75, 175, 175, 150]);
}

#[test]
fn resample_columns_with_box_kernel() {
    let level = Level::new(1, 3, vec![100, 200, 400]).unwrap();
    let stretched = level.resample(ImageWrap::Clamp, &box_kernel(), 4, false).unwrap();
    assert_eq!((stretched.width(), stretched.height()), (1, 4));
    let got: Vec<i64> = (0..4).map(|t| stretched.get(0, t)).collect();
    assert_eq!(got, vec![125, 200, 275, 350]);
}

#[test]
fn resample_degenerate_kernel() {
    let level = Level::new(3, 1, vec![100, 200, 400]).unwrap();
    let nothing = WeightTable::new(&vec![0]).unwrap();
    assert_eq!(level.resample(ImageWrap::Clamp, &nothing, 4, true).err(), Some(MipError::DegenerateFilter));
    assert!(Level::resample_taps(&nothing, 3, 4).is_none());
    assert_eq!(
        Pyramid::new(3, 1, vec![100, 200, 400], ImageWrap::Clamp, &nothing).err(),
        Some(MipError::DegenerateFilter)
    );
    // An image whose extents are powers of two is not resampled.
    assert!(Pyramid::new(4, 1, vec![1, 2, 3, 4], ImageWrap::Clamp, &nothing).is_ok());
}

#[test]
fn pyramid_errors() {
    let table = box_kernel();
    assert_eq!(Pyramid::new(0, 0, vec![], ImageWrap::Repeat, &table).err(), Some(MipError::Empty));
    assert_eq!(Pyramid::new(40000, 1, vec![], ImageWrap::Repeat, &table).err(), Some(MipError::TooLarge));
    assert_eq!(Pyramid::new(2, 2, vec![1], ImageWrap::Repeat, &table).err(), Some(MipError::SizeMismatch));
    assert_eq!(
        Pyramid::new(1, 1, vec![i64::MAX], ImageWrap::Repeat, &table).err(),
        Some(MipError::TexelOutOfRange)
    );
}

#[test]
fn pyramid_level_count_power_of_two() {
    let table = box_kernel();
    for (w, h, levels) in [(1usize, 1usize, 1usize), (2, 2, 2), (4, 4, 3), (8, 2, 4), (1, 16, 5), (64, 64, 7), (256, 8, 9)] {
        let p = Pyramid::new(w, h, vec![7; w * h], ImageWrap::Repeat, &table).unwrap();
        assert_eq!(p.level_count(), levels);
        assert_eq!(p.level(0).width(), w);
        assert_eq!(p.level(0).height(), h);
    }
    let widest = Pyramid::new(32768, 1, vec![1; 32768], ImageWrap::Clamp, &table).unwrap();
    assert_eq!(widest.level_count(), 16);
}

#[test]
fn pyramid_levels_halve() {
    let p = Pyramid::new(8, 2, vec![3; 16], ImageWrap::Clamp, &box_kernel()).unwrap();
    let extents: Vec<(usize, usize)> = (0..p.level_count()).map(|i| (p.level(i).width(), p.level(i).height())).collect();
    assert_eq!(extents, vec![(8, 2), (4, 1), (2, 1), (1, 1)]);
    assert_eq!(p.wrap(), ImageWrap::Clamp);
}

#[test]
fn pyramid_coarsest_is_single_texel() {
    let table = lanczos_kernel();
    for (w, h) in [(1usize, 1usize), (3, 5), (4, 4), (7, 2), (100, 37)] {
        let texels: Vec<i64> = (0..w * h).map(|i| (i as i64 * 977) % 5000).collect();
        let p = Pyramid::new(w, h, texels, ImageWrap::Repeat, &table).unwrap();
        let last = p.level(p.level_count() - 1);
        assert_eq!((last.width(), last.height()), (1, 1));
        assert_eq!(p.coarsest(), last.get(0, 0));
    }
}

#[test]
fn pyramid_of_constant_image() {
    let table = lanczos_kernel();
    for wrap in [ImageWrap::Repeat, ImageWrap::Clamp] {
        for (w, h) in [(4usize, 4usize), (5, 3), (16, 2), (9, 9)] {
            let p = Pyramid::new(w, h, vec![12345; w * h], wrap, &table).unwrap();
            for i in 0..p.level_count() {
                let level = p.level(i);
                for t in 0..level.height() {
                    for s in 0..level.width() {
                        assert_eq!(level.get(s, t), 12345);
                    }
                }
            }
            assert_eq!(p.coarsest(), 12345);
        }
    }
    // Under `Black` a square image whose side is a power of two keeps its constant.
    let p = Pyramid::new(8, 8, vec![-777; 64], ImageWrap::Black, &table).unwrap();
    assert_eq!(p.coarsest(), -777);
    // A wide one does not: the blocks of the 2x1 level reach below the image.
    let p = Pyramid::new(2, 1, vec![1000; 2], ImageWrap::Black, &table).unwrap();
    assert_eq!(p.coarsest(), 500);
}

#[test]
fn pyramid_non_power_of_two_base() {
    let p = Pyramid::new(3, 1, vec![100, 200, 400], ImageWrap::Clamp, &box_kernel()).unwrap();
    assert_eq!(p.level_count(), 3);
    let base: Vec<i64> = (0..4).map(|s| p.level(0).get(s, 0)).collect();
    assert_eq!(base, vec![125, 200, 275, 350]);
    // Each block of the one row takes the row itself as the row below.
    assert_eq!(p.level(1).get(0, 0), (125 + 200 + 125 + 200) / 4);
    assert_eq!(p.level(1).get(1, 0), (275 + 350 + 275 + 350) / 4);
    assert_eq!(p.coarsest(), (162 + 312 + 162 + 312) / 4);
}

#[test]
fn pyramid_resamples_both_axes() {
    let p = Pyramid::new(5, 3, vec![64; 15], ImageWrap::Repeat, &lanczos_kernel()).unwrap();
    assert_eq!((p.level(0).width(), p.level(0).height()), (8, 4));
    assert_eq!(p.level_count(), 4);
}

#[test]
fn checkerboard_box_levels() {
    let texels: Vec<i64> = (0..16).map(|i| if (i % 4 + i / 4) % 2 == 0 { 0 } else { ONE }).collect();
    let p = Pyramid::new(4, 4, texels, ImageWrap::Repeat, &box_kernel()).unwrap();
    for t in 0..2 {
        for s in 0..2 {
            assert_eq!(p.level(1).get(s, t), ONE / 2);
        }
    }
    assert_eq!(p.coarsest(), ONE / 2);
}
