use texmap::mipmap::level::{Level, MipError};
use texmap::mipmap::wrap::ImageWrap;

#[test]
fn wrap_minus_one() {
    let width = 8;
    assert_eq!(ImageWrap::Repeat.resolve(-1, width), Some(7));
    assert_eq!(ImageWrap::Clamp.resolve(-1, width), Some(0));
    assert_eq!(ImageWrap::Black.resolve(-1, width), None);
}

#[test]
fn wrap_past_the_end() {
    assert_eq!(ImageWrap::Repeat.resolve(8, 8), Some(0));
    assert_eq!(ImageWrap::Repeat.resolve(17, 8), Some(1));
    assert_eq!(ImageWrap::Repeat.resolve(-9, 8), Some(7));
    assert_eq!(ImageWrap::Clamp.resolve(8, 8), Some(7));
    assert_eq!(ImageWrap::Clamp.resolve(1000, 8), Some(7));
    assert_eq!(ImageWrap::Black.resolve(8, 8), None);
}

#[test]
fn wrap_in_range_is_identity() {
    for i in 0..5i128 {
        assert_eq!(ImageWrap::Repeat.resolve(i, 5), Some(i as usize));
        assert_eq!(ImageWrap::Clamp.resolve(i, 5), Some(i as usize));
        assert_eq!(ImageWrap::Black.resolve(i, 5), Some(i as usize));
    }
}

#[test]
fn wrap_from_name() {
    assert_eq!(ImageWrap::from_name("black"), ImageWrap::Black);
    assert_eq!(ImageWrap::from_name("clamp"), ImageWrap::Clamp);
    assert_eq!(ImageWrap::from_name("repeat"), ImageWrap::Repeat);
    assert_eq!(ImageWrap::from_name("mirror"), ImageWrap::Repeat);
    assert_eq!(ImageWrap::from_name(""), ImageWrap::Repeat);
    assert_eq!(ImageWrap::from_name("Black"), ImageWrap::Repeat);
}

#[test]
fn level_new_errors() {
    assert_eq!(Level::new(0, 4, vec![]).err(), Some(MipError::Empty));
    assert_eq!(Level::new(4, 0, vec![]).err(), Some(MipError::Empty));
    assert_eq!(Level::new(32769, 1, vec![]).err(), Some(MipError::TooLarge));
    assert_eq!(Level::new(2, 2, vec![1, 2, 3]).err(), Some(MipError::SizeMismatch));
    assert_eq!(Level::new(2, 1, vec![0, (1i64 << 40) + 1]).err(), Some(MipError::TexelOutOfRange));
    assert_eq!(Level::new(2, 1, vec![-(1i64 << 40) - 1, 0]).err(), Some(MipError::TexelOutOfRange));
    assert!(Level::new(2, 1, vec![1i64 << 40, -(1i64 << 40)]).is_ok());
}

#[test]
fn level_texel_wraps() {
    // 3 wide, 2 high
    let level = Level::new(3, 2, vec![10, 20, 30, 40, 50, 60]).unwrap();
    assert_eq!(level.width(), 3);
    assert_eq!(level.height(), 2);
    assert_eq!(level.get(2, 1), 60);
    assert_eq!(level.texel(ImageWrap::Repeat, -1, 0), 30);
    assert_eq!(level.texel(ImageWrap::Clamp, -1, 0), 10);
    assert_eq!(level.texel(ImageWrap::Black, -1, 0), 0);
    assert_eq!(level.texel(ImageWrap::Repeat, 4, 3), 50);
    assert_eq!(level.texel(ImageWrap::Clamp, 4, 3), 60);
    assert_eq!(level.texel(ImageWrap::Black, 1, 2), 0);
    assert_eq!(level.texel(ImageWrap::Black, 1, 1), 50);
}

#[test]
fn level_downsample_box() {
    let level = Level::new(4, 2, vec![1, 3, 5, 7, 11, 13, 17, 19]).unwrap();
    let half = level.downsample(ImageWrap::Clamp);
    assert_eq!(half.width(), 2);
    assert_eq!(half.height(), 1);
    // (1 + 3 + 11 + 13) / 4 = 7, (5 + 7 + 17 + 19) / 4 = 12
    assert_eq!(half.get(0, 0), 7);
    assert_eq!(half.get(1, 0), 12);
    // 2x1 halves to 1x1; the row below the only row wraps
    let last = half.downsample(ImageWrap::Clamp);
    assert_eq!((last.width(), last.height()), (1, 1));
    assert_eq!(last.get(0, 0), (7 + 12 + 7 + 12) / 4);
    let black = half.downsample(ImageWrap::Black);
    assert_eq!(black.get(0, 0), (7 + 12) / 4);
}

#[test]
fn level_downsample_rounds_down() {
    let level = Level::new(2, 2, vec![-1, 0, 0, 0]).unwrap();
    assert_eq!(level.downsample(ImageWrap::Repeat).get(0, 0), -1);
    let level = Level::new(2, 2, vec![1, 1, 1, 0]).unwrap();
    assert_eq!(level.downsample(ImageWrap::Repeat).get(0, 0), 0);
}
