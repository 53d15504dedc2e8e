//! Image textures: a 2D mapping of surface points to texture coordinates,
//! bound to a shared MIP map.

use vstd::prelude::*;
use std::sync::Arc;
use crate::geometry::point2::Point2;
use crate::geometry::vector2::Vector2;
use crate::mipmap::fixed::Fixed;
use crate::mipmap::level::{texel_in_range, MipError};
use crate::mipmap::map::MIPMap;
use crate::mipmap::texel::Texel;
use crate::textures::cache::{after_finish, Entry, MIPMapCache};
use crate::textures::options::{TexInfo, TexKey};

verus! {

/// Why the image behind a texture could not be had.
#[derive(Copy, Clone, Debug, PartialEq, Eq, Structural)]
pub enum ImageLoadError {
    /// There is no file at the path.
    Missing,
    /// The file is there and cannot be read.
    Unreadable,
    /// The file does not decode to an image.
    Corrupt,
    /// The image decodes and has no pyramid.
    Unusable(MipError),
}

/// Where a surface point falls in the texture, and how that position changes
/// from one raster sample to the next.
#[derive(Copy, Clone, Debug)]
pub struct TextureMap2DResult {
    /// The texture coordinate.
    pub p: Point2<Fixed>,
    /// Its derivative along the raster's x axis.
    pub dstdx: Vector2<Fixed>,
    /// Its derivative along the raster's y axis.
    pub dstdy: Vector2<Fixed>,
}

/// A parameterisation of surfaces: the texture coordinate of a surface point.
pub trait TextureMapping2D<S> {
    /// `mapped` is the texture coordinate of `si`, with its derivatives. A
    /// mapping that does not say what it maps to leaves every coordinate open.
    open spec fn maps_to(&self, si: &S, mapped: TextureMap2DResult) -> bool {
        true
    }

    /// The texture coordinate of `si` and its derivatives.
    fn map(&self, si: &S) -> (mapped: TextureMap2DResult)
        ensures
            self.maps_to(si, mapped),
    ;
}

/// Something that has a value at every surface point.
pub trait Texture<S, R> {
    /// `value` is the texture's value at `si`. A texture that does not say
    /// what its values are leaves every value open.
    open spec fn has_value(&self, si: &S, value: R) -> bool {
        true
    }

    /// The value at `si`.
    fn evaluate(&self, si: &S) -> (value: R)
        ensures
            self.has_value(si, value),
    ;
}

/// `Arc::clone`: a further handle to the value that `handle` shares.
#[verifier::external_body]
fn clone_handle<T>(handle: &Arc<T>) -> (r: Arc<T>)
    ensures
        r == *handle,
{
    Arc::clone(handle)
}

/// A MIP map shared by the textures that show it. It is never changed once
/// it is built.
pub struct ArcMIPMap<T: Texel> {
    map: Arc<MIPMap<T>>,
}

impl<T: Texel> ArcMIPMap<T> {
    #[verifier::type_invariant]
    spec fn inv(self) -> bool {
        self.map.wf()
    }

    /// The map that is shared.
    pub closed spec fn view(&self) -> MIPMap<T> {
        *self.map
    }

    /// Makes `map` shareable.
    pub fn new(map: MIPMap<T>) -> (r: Self)
        requires
            map.wf(),
        ensures
            r.view() == map,
    {
        ArcMIPMap { map: Arc::new(map) }
    }

    /// A further handle to the same map.
    pub fn share(&self) -> (r: Self)
        ensures
            r.view() == self.view(),
    {
        proof {
            use_type_invariant(self);
        }
        ArcMIPMap { map: clone_handle(&self.map) }
    }

    /// The map.
    pub fn get(&self) -> (r: &MIPMap<T>)
        ensures
            *r == self.view(),
            r.wf(),
    {
        proof {
            use_type_invariant(self);
        }
        &self.map
    }
}

/// A texture that shows an image.
pub struct ImageTexture<T: Texel, M> {
    mapping: M,
    mipmap: ArcMIPMap<T>,
}

impl<T: Texel, M> ImageTexture<T, M> {
    /// The MIP map of the image.
    pub closed spec fn mipmap(&self) -> MIPMap<T> {
        self.mipmap.view()
    }

    /// The mapping from surface points to texture coordinates.
    pub closed spec fn mapping(&self) -> M {
        self.mapping
    }

    /// `value` is what the image shows for a surface point that `mapped`
    /// is the texture coordinate of.
    pub open spec fn shows(&self, mapped: TextureMap2DResult, value: T) -> bool {
        forall|c: int| 0 <= c < T::channel_count() ==> (#[trigger] value.channel(c)) == self.mipmap().lookup_spec(
            c,
            mapped.p,
            mapped.dstdx,
            mapped.dstdy,
        )
    }

    /// The texture that shows `mipmap` under `mapping`.
    pub fn new(mapping: M, mipmap: ArcMIPMap<T>) -> (r: Self)
        ensures
            r.mapping() == mapping,
            r.mipmap() == mipmap.view(),
    {
        ImageTexture { mapping, mipmap }
    }

    /// The texture of the request `info`, where the registry holds its MIP
    /// map; the mapping is handed back where it does not.
    pub fn cached(cache: &MIPMapCache<ArcMIPMap<T>>, mapping: M, info: &TexInfo) -> (r: Result<Self, M>)
        requires
            cache.wf(),
        ensures
            match cache.entry(info@) {
                Entry::Ready(shared) => r matches Ok(texture) && texture.mapping() == mapping && texture.mipmap()
                    == shared.view(),
                _ => r == Err::<Self, M>(mapping),
            },
    {
        match cache.value(info) {
            Some(shared) => Ok(ImageTexture { mapping, mipmap: shared.share() }),
            None => Err(mapping),
        }
    }

    /// Ends the build of the request `info` and makes the texture of the
    /// request. A load that failed fails the construction with the same error
    /// and leaves no entry in the registry. A load that succeeded is
    /// published, and the texture shows what the registry then holds for
    /// the request: the map that was loaded, or, where the registry held a
    /// map for the request already, that map, so that no request ever has
    /// two maps.
    pub fn publish(
        cache: &mut MIPMapCache<ArcMIPMap<T>>,
        mapping: M,
        info: &TexInfo,
        loaded: Result<MIPMap<T>, ImageLoadError>,
    ) -> (r: Result<Self, ImageLoadError>)
        requires
            old(cache).wf(),
            loaded matches Ok(map) ==> map.wf(),
        ensures
            final(cache).wf(),
            forall|other: TexKey| other != info@ ==> final(cache).entry(other) == old(cache).entry(other),
            match loaded {
                Ok(map) => {
                    &&& r matches Ok(texture) && texture.mapping() == mapping && (final(cache).entry(info@) matches Entry::Ready(
                        shared,
                    ) && texture.mipmap() == shared.view())
                    &&& old(cache).entry(info@) is Ready ==> final(cache).entry(info@) == old(cache).entry(info@)
                    &&& !(old(cache).entry(info@) is Ready) ==> (final(cache).entry(info@) matches Entry::Ready(shared)
                        && shared.view() == map)
                    &&& final(cache).len() == old(cache).len() + (if old(cache).entry(info@) is Absent {
                        1nat
                    } else {
                        0nat
                    })
                },
                Err(e) => {
                    &&& r == Err::<Self, ImageLoadError>(e)
                    &&& final(cache).entry(info@) == after_finish(old(cache).entry(info@), None)
                    &&& old(cache).len() == final(cache).len() + (if old(cache).entry(info@) is Building {
                        1nat
                    } else {
                        0nat
                    })
                },
            },
    {
        match loaded {
            Ok(map) => {
                if let Some(shared) = cache.value(info) {
                    return Ok(ImageTexture { mapping, mipmap: shared.share() });
                }
                let shared = ArcMIPMap::new(map);
                let texture = ImageTexture { mapping, mipmap: shared.share() };
                let _ = cache.begin(info.duplicate());
                cache.finish(info, Some(shared));
                Ok(texture)
            },
            Err(e) => {
                cache.finish(info, None);
                Err(e)
            },
        }
    }

    /// What the image shows at the texture coordinate `mapped`.
    pub fn evaluate_at(&self, mapped: &TextureMap2DResult) -> (r: T)
        ensures
            self.shows(*mapped, r),
            forall|c: int| 0 <= c < T::channel_count() ==> texel_in_range((#[trigger] r.channel(c)) as int),
    {
        self.mipmap.get().lookup(&mapped.p, &mapped.dstdx, &mapped.dstdy)
    }

    /// `value` is what the image shows at the surface point `si`: its
    /// filtered value at a texture coordinate that the mapping gives for `si`.
    pub open spec fn shows_at<S>(&self, si: &S, value: T) -> bool where M: TextureMapping2D<S> {
        exists|mapped: TextureMap2DResult| #[trigger] self.mapping().maps_to(si, mapped) && self.shows(mapped, value)
    }

    /// What the image shows at the surface point `si`: its value at the
    /// texture coordinate that the mapping gives for `si`.
    pub fn evaluate<S>(&self, si: &S) -> (r: T) where M: TextureMapping2D<S>
        ensures
            self.shows_at(si, r),
            forall|c: int| 0 <= c < T::channel_count() ==> texel_in_range((#[trigger] r.channel(c)) as int),
    {
        let mapped = self.mapping.map(si);
        let r = self.evaluate_at(&mapped);
        assert(self.mapping().maps_to(si, mapped) && self.shows(mapped, r));
        r
    }
}

impl<S, T: Texel, M: TextureMapping2D<S>> Texture<S, T> for ImageTexture<T, M> {
    open spec fn has_value(&self, si: &S, value: T) -> bool {
        self.shows_at(si, value)
    }

    /// What the image shows at the surface point `si`.
    fn evaluate(&self, si: &S) -> (value: T) {
        ImageTexture::evaluate(self, si)
    }
}

} // verus!
