use texmap::geometry::point2::point2;
use texmap::geometry::vector2::vector2;
use texmap::mipmap::fixed::{Fixed, ONE};
use texmap::mipmap::kernel::WeightTable;
use texmap::mipmap::level::MipError;
use texmap::mipmap::map::MIPMap;
use texmap::mipmap::texel::{Rgb, Texel};
use texmap::mipmap::wrap::{FilteringMethod, ImageWrap};

fn box_kernel() -> WeightTable {
    WeightTable::new(&vec![ONE]).unwrap()
}

fn centre(i: i64, n: i64) -> i64 {
    (2 * i + 1) * ONE / (2 * n)
}

#[test]
fn texel_channels() {
    assert_eq!(<Fixed as Texel>::channels(), 1);
    assert_eq!(<Rgb as Texel>::channels(), 3);
    assert_eq!(Texel::get(&77i64, 0), 77);
    let c = Rgb { r: 1, g: 2, b: 3 };
    assert_eq!((c.get(0), c.get(1), c.get(2)), (1, 2, 3));
    assert_eq!(<Rgb as Texel>::from_channels(&vec![4, 5, 6]), Rgb { r: 4, g: 5, b: 6 });
    assert_eq!(<Fixed as Texel>::from_channels(&vec![9]), 9);
}

#[test]
fn mipmap_of_scalars() {
    let texels: Vec<Fixed> = (0..16).map(|i| 1000 * (i / 4) + 100 * (i % 4)).collect();
    let map = MIPMap::<Fixed>::new(
        4,
        4,
        &texels,
        FilteringMethod::Trilinear,
        0,
        ImageWrap::Clamp,
        &box_kernel(),
        box_kernel(),
    )
    .ok()
    .unwrap();
    assert_eq!(map.levels_count(), 3);
    assert_eq!((map.width(), map.height()), (4, 4));
    assert_eq!(map.texel(0, 2, 3), 3200);
    assert_eq!(map.texel(0, -1, 3), 3000);
    assert_eq!(map.texel(1, 1, 1), 2750);
    assert_eq!(map.texel(2, 0, 0), 1650);
    let at_rest = map.lookup(&point2(centre(2, 4), centre(1, 4)), &vector2(0, 0), &vector2(0, 0));
    assert_eq!(at_rest, 1200);
    let coarsest = map.lookup(&point2(centre(2, 4), centre(1, 4)), &vector2(ONE, 0), &vector2(0, ONE));
    assert_eq!(coarsest, 1650);
}

#[test]
fn mipmap_of_colours_filters_each_channel() {
    let texels: Vec<Rgb> = (0..16).map(|i| Rgb { r: 100 * (i % 4), g: 1000 * (i / 4), b: 42 }).collect();
    let map = MIPMap::<Rgb>::new(
        4,
        4,
        &texels,
        FilteringMethod::Trilinear,
        0,
        ImageWrap::Clamp,
        &box_kernel(),
        box_kernel(),
    )
    .ok()
    .unwrap();
    assert_eq!(map.texel(0, 3, 1), Rgb { r: 300, g: 1000, b: 42 });
    let st = point2(ONE / 2, centre(2, 4));
    assert_eq!(map.lookup(&st, &vector2(0, 0), &vector2(0, 0)), Rgb { r: 150, g: 2000, b: 42 });
    assert_eq!(map.lookup(&st, &vector2(ONE, 0), &vector2(0, ONE)), Rgb { r: 150, g: 1500, b: 42 });
    // half a level up: the mean of the two levels' samples
    let half_up = map.lookup(&st, &vector2(3 * ONE / 8, 0), &vector2(0, 0));
    assert_eq!(half_up, Rgb { r: 150, g: (2000 + 2000) / 2, b: 42 });
}

#[test]
fn mipmap_errors() {
    let table = box_kernel();
    let nothing = WeightTable::new(&vec![0]).unwrap();
    let new = |w: usize, h: usize, texels: &Vec<Rgb>, resample: &WeightTable| {
        MIPMap::<Rgb>::new(w, h, texels, FilteringMethod::Ewa, 8 * ONE, ImageWrap::Repeat, resample, box_kernel()).err()
    };
    let grey = Rgb { r: 1, g: 1, b: 1 };
    assert_eq!(new(0, 1, &vec![], &table), Some(MipError::Empty));
    assert_eq!(new(1, 40000, &vec![], &table), Some(MipError::TooLarge));
    assert_eq!(new(2, 2, &vec![grey; 3], &table), Some(MipError::SizeMismatch));
    assert_eq!(new(3, 1, &vec![grey; 3], &nothing), Some(MipError::DegenerateFilter));
    let hot = Rgb { r: 1, g: 1, b: i64::MAX };
    assert_eq!(new(2, 1, &vec![grey, hot], &table), Some(MipError::TexelOutOfRange));
    // the first channel decides first: its kernel fails before the third channel is looked at
    assert_eq!(new(3, 1, &vec![grey, hot, grey], &nothing), Some(MipError::DegenerateFilter));
    assert_eq!(new(2, 1, &vec![grey, grey], &nothing), None);
}

#[test]
fn mipmap_with_ewa_filtering() {
    let texels: Vec<Fixed> = (0..64).map(|i| 500 * (i % 8)).collect();
    let lut = WeightTable::new(&vec![ONE, 3 * ONE / 4, ONE / 2, ONE / 4, 0]).unwrap();
    let map = MIPMap::<Fixed>::new(8, 8, &texels, FilteringMethod::Ewa, 8 * ONE, ImageWrap::Clamp, &box_kernel(), lut)
        .ok()
        .unwrap();
    // at rest, the texel
    assert_eq!(map.lookup(&point2(centre(5, 8), centre(2, 8)), &vector2(0, 0), &vector2(0, 0)), 2500);
    // a round footprint on a ramp gives the ramp's value at the sample point
    let got = map.lookup(&point2(centre(4, 8), centre(4, 8)), &vector2(ONE / 16, 0), &vector2(0, ONE / 16));
    assert!((got - 2000).abs() <= 20, "{}", got);
}
