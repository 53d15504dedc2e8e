use texmap::geometry::point2::point2;
use texmap::geometry::vector2::vector2;
use texmap::mipmap::fixed::{Fixed, ONE};
use texmap::mipmap::kernel::WeightTable;
use texmap::mipmap::level::MipError;
use texmap::mipmap::map::MIPMap;
use texmap::mipmap::texel::Rgb;
use texmap::mipmap::wrap::{FilteringMethod, ImageWrap};
use texmap::textures::cache::{Begin, MIPMapCache};
use texmap::textures::constant::ConstantTexture;
use texmap::textures::imagemap::{ArcMIPMap, ImageLoadError, ImageTexture, Texture, TextureMap2DResult, TextureMapping2D};
use texmap::textures::options::{ends_with, TexInfo, DEFAULT_MAX_ANISOTROPY};

fn box_kernel() -> WeightTable {
    WeightTable::new(&vec![ONE]).unwrap()
}

fn centre(i: i64, n: i64) -> i64 {
    (2 * i + 1) * ONE / (2 * n)
}

fn key(path: &str) -> TexInfo {
    TexInfo::new(path, FilteringMethod::Trilinear, ImageWrap::Repeat, ONE, false, 8 * ONE)
}

fn ramp_map(wrap: ImageWrap) -> MIPMap<Fixed> {
    let texels: Vec<Fixed> = (0..16).map(|i| 1000 * (i / 4) + 100 * (i % 4)).collect();
    MIPMap::<Fixed>::new(4, 4, &texels, FilteringMethod::Trilinear, 0, wrap, &box_kernel(), box_kernel())
        .ok()
        .unwrap()
}

/// A surface point is its own texture coordinate, in texels of a 4x4 image.
struct TexelMapping;

impl TextureMapping2D<(i64, i64)> for TexelMapping {
    fn map(&self, si: &(i64, i64)) -> TextureMap2DResult {
        TextureMap2DResult { p: point2(centre(si.0, 4), centre(si.1, 4)), dstdx: vector2(0, 0), dstdy: vector2(0, 0) }
    }
}

/// The surface point offset by a number of texels.
struct Shifted(i64, i64);

impl TextureMapping2D<(i64, i64)> for Shifted {
    fn map(&self, si: &(i64, i64)) -> TextureMap2DResult {
        TextureMap2DResult {
            p: point2(centre(si.0 + self.0, 4), centre(si.1 + self.1, 4)),
            dstdx: vector2(0, 0),
            dstdy: vector2(0, 0),
        }
    }
}

/// The surface point seen from so far that a sample covers the image.
struct Wide;

impl TextureMapping2D<(i64, i64)> for Wide {
    fn map(&self, si: &(i64, i64)) -> TextureMap2DResult {
        TextureMap2DResult { p: point2(centre(si.0, 4), centre(si.1, 4)), dstdx: vector2(ONE, 0), dstdy: vector2(0, ONE) }
    }
}

#[test]
fn ends_with_suffix() {
    assert!(ends_with("brick.png", ".png"));
    assert!(ends_with(".png", ".png"));
    assert!(!ends_with("png", ".png"));
    assert!(!ends_with("brick.png.bak", ".png"));
    assert!(!ends_with("brick.PNG", ".png"));
    assert!(ends_with("anything", ""));
    assert!(ends_with("stra\u{df}e.tga", ".tga"));
}

#[test]
fn tex_info_holds_its_options() {
    let info = TexInfo::new("a/b.exr", FilteringMethod::Ewa, ImageWrap::Black, 2 * ONE, true, 16 * ONE);
    assert_eq!(info.path, "a/b.exr");
    assert_eq!(info.filtering_method, FilteringMethod::Ewa);
    assert_eq!(info.wrap_mode, ImageWrap::Black);
    assert_eq!(info.scale, 2 * ONE);
    assert!(info.gamma);
    assert_eq!(info.max_anisotropy, 16 * ONE);
}

#[test]
fn tex_info_equality_is_by_every_field() {
    let a = TexInfo::new("a.png", FilteringMethod::Ewa, ImageWrap::Repeat, ONE, true, 8 * ONE);
    assert!(a.same(&TexInfo::new("a.png", FilteringMethod::Ewa, ImageWrap::Repeat, ONE, true, 8 * ONE)));
    assert!(!a.same(&TexInfo::new("b.png", FilteringMethod::Ewa, ImageWrap::Repeat, ONE, true, 8 * ONE)));
    assert!(!a.same(&TexInfo::new("a.png", FilteringMethod::Trilinear, ImageWrap::Repeat, ONE, true, 8 * ONE)));
    assert!(!a.same(&TexInfo::new("a.png", FilteringMethod::Ewa, ImageWrap::Clamp, ONE, true, 8 * ONE)));
    assert!(!a.same(&TexInfo::new("a.png", FilteringMethod::Ewa, ImageWrap::Repeat, ONE + 1, true, 8 * ONE)));
    assert!(!a.same(&TexInfo::new("a.png", FilteringMethod::Ewa, ImageWrap::Repeat, ONE, false, 8 * ONE)));
    assert!(!a.same(&TexInfo::new("a.png", FilteringMethod::Ewa, ImageWrap::Repeat, ONE, true, 4 * ONE)));
}

#[test]
fn resolve_defaults() {
    let info = TexInfo::resolve(None, None, None, None, None, None);
    assert_eq!(info.path, "");
    assert_eq!(info.filtering_method, FilteringMethod::Ewa);
    assert_eq!(info.wrap_mode, ImageWrap::Repeat);
    assert_eq!(info.scale, ONE);
    assert!(!info.gamma);
    assert_eq!(info.max_anisotropy, 8 * ONE);
    assert_eq!(DEFAULT_MAX_ANISOTROPY, 8 * ONE);
}

#[test]
fn resolve_gamma_by_extension() {
    assert!(TexInfo::resolve(None, None, None, None, Some("wood.png"), None).gamma);
    assert!(TexInfo::resolve(None, None, None, None, Some("wood.tga"), None).gamma);
    assert!(!TexInfo::resolve(None, None, None, None, Some("wood.exr"), None).gamma);
    assert!(!TexInfo::resolve(None, None, None, None, Some("wood.png.exr"), None).gamma);
    // what the description says wins over the extension
    assert!(!TexInfo::resolve(None, None, None, None, Some("wood.png"), Some(false)).gamma);
    assert!(TexInfo::resolve(None, None, None, None, Some("wood.exr"), Some(true)).gamma);
}

#[test]
fn resolve_given_options() {
    let info = TexInfo::resolve(Some(4 * ONE), Some(true), Some("clamp"), Some(ONE / 2), Some("t.exr"), None);
    assert_eq!(info.path, "t.exr");
    assert_eq!(info.filtering_method, FilteringMethod::Trilinear);
    assert_eq!(info.wrap_mode, ImageWrap::Clamp);
    assert_eq!(info.scale, ONE / 2);
    assert_eq!(info.max_anisotropy, 4 * ONE);
    assert_eq!(TexInfo::resolve(None, Some(false), Some("black"), None, None, None).wrap_mode, ImageWrap::Black);
    assert_eq!(
        TexInfo::resolve(None, Some(false), None, None, None, None).filtering_method,
        FilteringMethod::Ewa
    );
}

#[test]
fn resolve_substitutes_unknown_wrap_mode() {
    // a wrap mode that is not known is no error: it is the default
    assert_eq!(TexInfo::resolve(None, None, Some("mirror"), None, None, None).wrap_mode, ImageWrap::Repeat);
    assert_eq!(TexInfo::resolve(None, None, Some(""), None, None, None).wrap_mode, ImageWrap::Repeat);
}

#[test]
fn cache_builds_once() {
    let mut cache: MIPMapCache<u32> = MIPMapCache::new();
    let mut builds = 0;
    assert_eq!(cache.count(), 0);
    assert!(cache.value(&key("a.png")).is_none());
    // the first requester is told to build
    let first = cache.begin(key("a.png"));
    assert_eq!(first, Begin::Build);
    builds += 1;
    // requesters that come while it builds are told to wait
    assert_eq!(cache.begin(key("a.png")), Begin::Pending);
    assert_eq!(cache.begin(key("a.png")), Begin::Pending);
    assert!(cache.value(&key("a.png")).is_none());
    cache.finish(&key("a.png"), Some(17));
    // and find the value once it is published, as every later requester does
    for _ in 0..5 {
        match cache.begin(key("a.png")) {
            Begin::Build => builds += 1,
            Begin::Pending => panic!("nothing is being built"),
            Begin::Hit => assert_eq!(cache.value(&key("a.png")), Some(&17)),
        }
    }
    assert_eq!(builds, 1);
    assert_eq!(cache.count(), 1);
}

#[test]
fn cache_keeps_requests_apart() {
    let mut cache: MIPMapCache<&str> = MIPMapCache::new();
    assert_eq!(cache.begin(key("a.png")), Begin::Build);
    assert_eq!(cache.begin(key("b.png")), Begin::Build);
    let clamped = TexInfo::new("a.png", FilteringMethod::Trilinear, ImageWrap::Clamp, ONE, false, 8 * ONE);
    assert_eq!(cache.begin(clamped), Begin::Build);
    assert_eq!(cache.count(), 3);
    cache.finish(&key("b.png"), Some("b"));
    assert_eq!(cache.begin(key("a.png")), Begin::Pending);
    assert_eq!(cache.begin(key("b.png")), Begin::Hit);
    cache.finish(&key("a.png"), Some("a"));
    assert_eq!(cache.value(&key("a.png")), Some(&"a"));
    assert_eq!(cache.value(&key("b.png")), Some(&"b"));
    assert_eq!(cache.count(), 3);
}

#[test]
fn cache_publishes_once() {
    let mut cache: MIPMapCache<u32> = MIPMapCache::new();
    // without a build under way there is nothing to end
    cache.finish(&key("a.png"), Some(1));
    assert_eq!(cache.count(), 0);
    assert_eq!(cache.begin(key("a.png")), Begin::Build);
    cache.finish(&key("a.png"), Some(2));
    // a published value is never replaced, nor dropped
    cache.finish(&key("a.png"), Some(3));
    assert_eq!(cache.value(&key("a.png")), Some(&2));
    cache.finish(&key("a.png"), None);
    assert_eq!(cache.value(&key("a.png")), Some(&2));
}

#[test]
fn cache_forgets_a_failed_build() {
    let mut cache: MIPMapCache<u32> = MIPMapCache::new();
    assert_eq!(cache.begin(key("gone.png")), Begin::Build);
    assert_eq!(cache.begin(key("here.png")), Begin::Build);
    cache.finish(&key("gone.png"), None);
    assert_eq!(cache.count(), 1);
    assert!(cache.value(&key("gone.png")).is_none());
    // the next requester builds anew
    assert_eq!(cache.begin(key("gone.png")), Begin::Build);
    assert_eq!(cache.begin(key("here.png")), Begin::Pending);
}

#[test]
fn image_texture_of_a_missing_file() {
    let mut cache: MIPMapCache<ArcMIPMap<Fixed>> = MIPMapCache::new();
    let info = key("no/such/file.png");
    assert_eq!(cache.begin(key("no/such/file.png")), Begin::Build);
    let made = ImageTexture::publish(&mut cache, TexelMapping, &info, Err(ImageLoadError::Missing));
    assert_eq!(made.err(), Some(ImageLoadError::Missing));
    assert_eq!(cache.count(), 0);
    assert!(cache.value(&info).is_none());
    assert!(ImageTexture::cached(&cache, TexelMapping, &info).is_err());
    assert_eq!(cache.begin(key("no/such/file.png")), Begin::Build);
}

#[test]
fn image_texture_of_an_unreadable_or_corrupt_file() {
    for error in [ImageLoadError::Unreadable, ImageLoadError::Corrupt] {
        let mut cache: MIPMapCache<ArcMIPMap<Fixed>> = MIPMapCache::new();
        let info = key("locked.png");
        assert_eq!(cache.begin(key("locked.png")), Begin::Build);
        assert_eq!(cache.begin(key("fine.png")), Begin::Build);
        let made = ImageTexture::publish(&mut cache, TexelMapping, &info, Err(error));
        assert_eq!(made.err(), Some(error));
        // the failure touches no other request
        assert_eq!(cache.count(), 1);
        assert_eq!(cache.begin(key("fine.png")), Begin::Pending);
    }
}

#[test]
fn image_texture_of_an_unusable_image() {
    let mut cache: MIPMapCache<ArcMIPMap<Fixed>> = MIPMapCache::new();
    let info = key("empty.png");
    assert_eq!(cache.begin(key("empty.png")), Begin::Build);
    let loaded = MIPMap::<Fixed>::new(
        0,
        0,
        &vec![],
        FilteringMethod::Trilinear,
        0,
        ImageWrap::Repeat,
        &box_kernel(),
        box_kernel(),
    );
    let error = loaded.err().unwrap();
    assert_eq!(error, MipError::Empty);
    let made = ImageTexture::publish(&mut cache, TexelMapping, &info, Err(ImageLoadError::Unusable(error)));
    assert_eq!(made.err(), Some(ImageLoadError::Unusable(MipError::Empty)));
    assert_eq!(cache.count(), 0);
}

#[test]
fn image_texture_shares_the_cached_map() {
    let mut cache: MIPMapCache<ArcMIPMap<Fixed>> = MIPMapCache::new();
    let info = key("ramp.png");
    assert!(ImageTexture::cached(&cache, TexelMapping, &info).is_err());
    assert_eq!(cache.begin(key("ramp.png")), Begin::Build);
    let first = ImageTexture::publish(&mut cache, TexelMapping, &info, Ok(ramp_map(ImageWrap::Clamp))).ok().unwrap();
    assert_eq!(cache.begin(key("ramp.png")), Begin::Hit);
    let second = ImageTexture::cached(&cache, TexelMapping, &info).ok().unwrap();
    assert_eq!(cache.count(), 1);
    for t in 0..4 {
        for s in 0..4 {
            assert_eq!(first.evaluate(&(s, t)), 1000 * t + 100 * s);
            assert_eq!(second.evaluate(&(s, t)), 1000 * t + 100 * s);
        }
    }
    // the two textures show one map: the registry's
    let shared = cache.value(&info).unwrap();
    assert_eq!(shared.get().texel(1, 1, 1), 2750);
    assert_eq!(shared.share().get().texel(1, 1, 1), 2750);
}

#[test]
fn image_texture_of_a_request_that_has_its_map() {
    // a second map for a request that has one is dropped: the texture shows the registry's
    let mut cache: MIPMapCache<ArcMIPMap<Fixed>> = MIPMapCache::new();
    let info = key("ramp.png");
    assert_eq!(cache.begin(key("ramp.png")), Begin::Build);
    let first = ImageTexture::publish(&mut cache, TexelMapping, &info, Ok(ramp_map(ImageWrap::Clamp))).ok().unwrap();
    let other: Vec<Fixed> = vec![9; 16];
    let second_map = MIPMap::<Fixed>::new(4, 4, &other, FilteringMethod::Trilinear, 0, ImageWrap::Clamp, &box_kernel(), box_kernel())
        .ok()
        .unwrap();
    let second = ImageTexture::publish(&mut cache, TexelMapping, &info, Ok(second_map)).ok().unwrap();
    assert_eq!(cache.count(), 1);
    assert_eq!(first.evaluate(&(2, 1)), 1200);
    assert_eq!(second.evaluate(&(2, 1)), 1200);
    assert_eq!(cache.value(&info).unwrap().get().texel(0, 2, 1), 1200);
    // a failed load does not take the map away
    let third = ImageTexture::publish(&mut cache, TexelMapping, &info, Err(ImageLoadError::Missing));
    assert_eq!(third.err(), Some(ImageLoadError::Missing));
    assert_eq!(cache.begin(key("ramp.png")), Begin::Hit);
}

#[test]
fn image_texture_of_a_request_nobody_announced() {
    // a map that is published without a request before it is registered all the same
    let mut cache: MIPMapCache<ArcMIPMap<Fixed>> = MIPMapCache::new();
    let info = key("ramp.png");
    let texture = ImageTexture::publish(&mut cache, TexelMapping, &info, Ok(ramp_map(ImageWrap::Clamp))).ok().unwrap();
    assert_eq!(cache.count(), 1);
    assert_eq!(cache.begin(key("ramp.png")), Begin::Hit);
    assert_eq!(texture.evaluate(&(3, 0)), 300);
    assert_eq!(cache.value(&info).unwrap().get().texel(0, 3, 0), 300);
    // and a load that failed without one leaves nothing
    let other = key("gone.png");
    assert_eq!(ImageTexture::publish(&mut cache, TexelMapping, &other, Err(ImageLoadError::Corrupt)).err(), Some(ImageLoadError::Corrupt));
    assert_eq!(cache.count(), 1);
}

#[test]
fn cache_counts_its_entries() {
    let mut cache: MIPMapCache<u32> = MIPMapCache::new();
    assert_eq!(cache.begin(key("a.png")), Begin::Build);
    assert_eq!(cache.begin(key("b.png")), Begin::Build);
    assert_eq!(cache.count(), 2);
    cache.finish(&key("a.png"), Some(1));
    assert_eq!(cache.count(), 2);
    cache.finish(&key("a.png"), None);
    assert_eq!(cache.count(), 2);
    cache.finish(&key("b.png"), None);
    assert_eq!(cache.count(), 1);
    cache.finish(&key("b.png"), None);
    cache.finish(&key("c.png"), Some(3));
    assert_eq!(cache.count(), 1);
}

#[test]
fn image_texture_looks_up_where_its_mapping_says() {
    // a mapping that offsets the surface point: the lookup moves with it
    let texture = ImageTexture::new(Shifted(1, 2), ArcMIPMap::new(ramp_map(ImageWrap::Clamp)));
    assert_eq!(texture.evaluate(&(0, 0)), 2100);
    assert_eq!(texture.evaluate(&(2, 1)), 3300);
    let plain = ImageTexture::new(Shifted(0, 0), ArcMIPMap::new(ramp_map(ImageWrap::Clamp)));
    assert_eq!(plain.evaluate(&(2, 1)), 1200);
    // and its derivatives reach the lookup: a texture a whole image wide per sample is the mean
    let wide = ImageTexture::new(Wide, ArcMIPMap::new(ramp_map(ImageWrap::Clamp)));
    assert_eq!(wide.evaluate(&(2, 1)), 1650);
}

#[test]
fn image_texture_evaluates_through_its_mapping() {
    let texture = ImageTexture::new(TexelMapping, ArcMIPMap::new(ramp_map(ImageWrap::Clamp)));
    assert_eq!(texture.evaluate(&(2, 1)), 1200);
    assert_eq!(texture.evaluate(&(-5, 1)), 1000);
    assert_eq!(Texture::evaluate(&texture, &(3, 3)), 3300);
    let mapped = TextureMap2DResult { p: point2(ONE / 2, centre(0, 4)), dstdx: vector2(0, 0), dstdy: vector2(0, 0) };
    assert_eq!(texture.evaluate_at(&mapped), 150);
    let wide = TextureMap2DResult { p: point2(ONE / 2, ONE / 2), dstdx: vector2(ONE, 0), dstdy: vector2(0, ONE) };
    assert_eq!(texture.evaluate_at(&wide), 1650);
}

#[test]
fn image_texture_of_colours() {
    let texels: Vec<Rgb> = (0..16).map(|i| Rgb { r: i, g: 2 * i, b: -i }).collect();
    let map = MIPMap::<Rgb>::new(4, 4, &texels, FilteringMethod::Ewa, 8 * ONE, ImageWrap::Repeat, &box_kernel(), box_kernel())
        .ok()
        .unwrap();
    let texture = ImageTexture::new(TexelMapping, ArcMIPMap::new(map));
    assert_eq!(texture.evaluate(&(1, 2)), Rgb { r: 9, g: 18, b: -9 });
    assert_eq!(texture.evaluate(&(-1, 0)), Rgb { r: 3, g: 6, b: -3 });
}

#[test]
fn constant_texture_is_constant() {
    let texture = ConstantTexture::new(77i64);
    assert_eq!(Texture::<(i64, i64), i64>::evaluate(&texture, &(0, 0)), 77);
    assert_eq!(Texture::<u8, i64>::evaluate(&texture, &3), 77);
}
