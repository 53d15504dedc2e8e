//! The MIP map of an image: one pyramid for each channel of its texels, and
//! the options its lookups are filtered with.

use vstd::prelude::*;
use std::marker::PhantomData;
use crate::geometry::point2::Point2;
use crate::geometry::vector2::Vector2;
use crate::mipmap::fixed::{pow2_ceil, Fixed};
use crate::mipmap::kernel::{table_wf, WeightTable};
use crate::mipmap::level::{texel_in_range, Grid, MipError};
use crate::mipmap::lookup::filtered_lookup;
use crate::mipmap::pyramid::{base_grid, image_grid, is_pyramid, pyramid_error, Pyramid};
use crate::mipmap::texel::Texel;
use crate::mipmap::wrap::{FilteringMethod, ImageWrap};

verus! {

/// Channel `c` of every texel of an image.
pub open spec fn channel_plane<T: Texel>(texels: Seq<T>, c: int) -> Seq<Fixed> {
    Seq::new(texels.len(), |i: int| texels[i].channel(c))
}

/// The reason, if any, for which the channels from `c` on have no pyramid:
/// that of the first channel that has none.
pub open spec fn mipmap_error<T: Texel>(width: int, height: int, texels: Seq<T>, table: Seq<int>, c: int) -> Option<MipError>
    decreases T::channel_count() - c,
{
    if c >= T::channel_count() {
        None
    } else if pyramid_error(width, height, channel_plane(texels, c), table).is_some() {
        pyramid_error(width, height, channel_plane(texels, c), table)
    } else {
        mipmap_error(width, height, texels, table, c + 1)
    }
}

/// An image at every resolution from its own down to a single texel.
pub struct MIPMap<T: Texel> {
    planes: Vec<Pyramid>,
    wrap: ImageWrap,
    filtering: FilteringMethod,
    max_anisotropy: Fixed,
    weights: WeightTable,
    texel: PhantomData<T>,
}

impl<T: Texel> MIPMap<T> {
    /// The levels of channel `c`, finest first.
    pub closed spec fn levels(&self, c: int) -> Seq<Grid> {
        self.planes@[c].levels()
    }

    /// The wrap mode.
    pub closed spec fn wrap_mode(&self) -> ImageWrap {
        self.wrap
    }

    /// The filtering method.
    pub closed spec fn filtering(&self) -> FilteringMethod {
        self.filtering
    }

    /// The cap on the anisotropy of a footprint.
    pub closed spec fn max_anisotropy(&self) -> Fixed {
        self.max_anisotropy
    }

    /// The kernel of the elliptically weighted average.
    pub closed spec fn weights(&self) -> Seq<int> {
        self.weights@
    }

    /// There is one pyramid for each channel, each under the map's wrap mode.
    pub closed spec fn planes_wf(&self) -> bool {
        &&& self.planes@.len() == T::channel_count()
        &&& forall|c: int| 0 <= c < self.planes@.len() ==> (#[trigger] self.planes@[c]).wrap_mode() == self.wrap
    }

    /// Every channel has a full pyramid, all of the same extents, and the
    /// kernel is well formed.
    pub open spec fn wf(&self) -> bool {
        &&& self.planes_wf()
        &&& table_wf(self.weights())
        &&& forall|c: int| 0 <= c < T::channel_count() ==> is_pyramid(#[trigger] self.levels(c), self.wrap_mode())
        &&& forall|c: int| 0 <= c < T::channel_count() ==> {
            &&& (#[trigger] self.levels(c))[0].width == self.levels(0)[0].width
            &&& self.levels(c)[0].height == self.levels(0)[0].height
        }
    }

    /// Channel `c` of the filtered lookup at `st` with the derivatives
    /// `dstdx` and `dstdy` of `st` along the two raster axes.
    pub open spec fn lookup_spec(&self, c: int, st: Point2<Fixed>, dstdx: Vector2<Fixed>, dstdy: Vector2<Fixed>) -> int {
        filtered_lookup(
            self.levels(c),
            self.wrap_mode(),
            self.filtering(),
            self.weights(),
            self.max_anisotropy() as int,
            st.x as int,
            st.y as int,
            dstdx.x as int,
            dstdx.y as int,
            dstdy.x as int,
            dstdy.y as int,
        )
    }

    /// Builds the MIP map of an image given row by row. `resample` is the
    /// kernel that stretches an image whose extents are not powers of two;
    /// `weights` is the kernel of the elliptically weighted average.
    pub fn new(
        width: usize,
        height: usize,
        texels: &Vec<T>,
        filtering: FilteringMethod,
        max_anisotropy: Fixed,
        wrap: ImageWrap,
        resample: &WeightTable,
        weights: WeightTable,
    ) -> (r: Result<MIPMap<T>, MipError>)
        requires
            resample.wf(),
            weights.wf(),
        ensures
            match r {
                Ok(map) => {
                    &&& mipmap_error(width as int, height as int, texels@, resample@, 0).is_none()
                    &&& map.wf()
                    &&& map.wrap_mode() == wrap
                    &&& map.filtering() == filtering
                    &&& map.max_anisotropy() == max_anisotropy
                    &&& map.weights() == weights@
                    &&& forall|c: int| 0 <= c < T::channel_count() ==> (#[trigger] map.levels(c))[0] == base_grid(
                        image_grid(width as int, height as int, channel_plane(texels@, c)),
                        wrap,
                        resample@,
                    )
                    &&& map.levels(0)[0].width == pow2_ceil(width as nat)
                    &&& map.levels(0)[0].height == pow2_ceil(height as nat)
                },
                Err(e) => mipmap_error(width as int, height as int, texels@, resample@, 0) == Some(e),
            },
    {
        let n = T::channels();
        proof {
            T::lemma_channel_count();
        }
        let mut planes: Vec<Pyramid> = Vec::new();
        let mut c: usize = 0;
        while c < n
            invariant
                resample.wf(),
                n == T::channel_count(),
                c <= n,
                planes@.len() == c,
                mipmap_error(width as int, height as int, texels@, resample@, 0) == mipmap_error(
                    width as int,
                    height as int,
                    texels@,
                    resample@,
                    c as int,
                ),
                forall|j: int| 0 <= j < c ==> {
                    &&& (#[trigger] planes@[j]).wf()
                    &&& planes@[j].wrap_mode() == wrap
                    &&& planes@[j].levels()[0] == base_grid(
                        image_grid(width as int, height as int, channel_plane(texels@, j)),
                        wrap,
                        resample@,
                    )
                    &&& planes@[j].levels()[0].width == pow2_ceil(width as nat)
                    &&& planes@[j].levels()[0].height == pow2_ceil(height as nat)
                },
            decreases n - c,
        {
            let mut plane: Vec<Fixed> = Vec::new();
            let mut i: usize = 0;
            while i < texels.len()
                invariant
                    c < T::channel_count(),
                    i <= texels@.len(),
                    plane@.len() == i,
                    forall|k: int| 0 <= k < i ==> #[trigger] plane@[k] == texels@[k].channel(c as int),
                decreases texels@.len() - i,
            {
                plane.push(texels[i].get(c));
                i = i + 1;
            }
            assert(plane@ =~= channel_plane(texels@, c as int));
            match Pyramid::new(width, height, plane, wrap, resample) {
                Ok(p) => {
                    planes.push(p);
                },
                Err(e) => {
                    return Err(e);
                },
            }
            c = c + 1;
        }
        let map = MIPMap { planes, wrap, filtering, max_anisotropy, weights, texel: PhantomData };
        proof {
            assert forall|j: int| 0 <= j < T::channel_count() implies is_pyramid(#[trigger] map.levels(j), wrap) by {
                assert(map.planes@[j].wf());
            }
            assert forall|j: int| 0 <= j < T::channel_count() implies (#[trigger] map.levels(j))[0] == base_grid(
                image_grid(width as int, height as int, channel_plane(texels@, j)),
                wrap,
                resample@,
            ) && map.levels(j)[0].width == pow2_ceil(width as nat) && map.levels(j)[0].height == pow2_ceil(
                height as nat,
            ) by {
                assert(map.planes@[j].wf());
            }
            assert(map.levels(0)[0].width == pow2_ceil(width as nat));
        }
        Ok(map)
    }

    /// Number of pyramid levels.
    pub fn levels_count(&self) -> (r: usize)
        requires
            self.wf(),
        ensures
            r == self.levels(0).len(),
            1 <= r <= 16,
    {
        proof {
            T::lemma_channel_count();
            assert(is_pyramid(self.levels(0), self.wrap_mode()));
        }
        self.planes[0].level_count()
    }

    /// Width of the finest level.
    pub fn width(&self) -> (r: usize)
        requires
            self.wf(),
        ensures
            r == self.levels(0)[0].width,
    {
        proof {
            T::lemma_channel_count();
            assert(is_pyramid(self.levels(0), self.wrap_mode()));
        }
        self.planes[0].level(0).width()
    }

    /// Height of the finest level.
    pub fn height(&self) -> (r: usize)
        requires
            self.wf(),
        ensures
            r == self.levels(0)[0].height,
    {
        proof {
            T::lemma_channel_count();
            assert(is_pyramid(self.levels(0), self.wrap_mode()));
        }
        self.planes[0].level(0).height()
    }

    /// The texel at integer position `(s, t)` of level `level`, resolved
    /// through the wrap mode.
    pub fn texel(&self, level: usize, s: i64, t: i64) -> (r: T)
        requires
            self.wf(),
            level < self.levels(0).len(),
        ensures
            forall|c: int| 0 <= c < T::channel_count() ==> (#[trigger] r.channel(c)) == self.levels(c)[level as int].fetch(
                self.wrap_mode(),
                s as int,
                t as int,
            ),
    {
        let n = T::channels();
        let mut values: Vec<Fixed> = Vec::new();
        let mut c: usize = 0;
        while c < n
            invariant
                self.wf(),
                level < self.levels(0).len(),
                n == T::channel_count(),
                c <= n,
                values@.len() == c,
                forall|j: int| 0 <= j < c ==> #[trigger] values@[j] == self.levels(j)[level as int].fetch(
                    self.wrap_mode(),
                    s as int,
                    t as int,
                ),
            decreases n - c,
        {
            proof {
                assert(is_pyramid(self.levels(c as int), self.wrap_mode()));
                assert(is_pyramid(self.levels(0), self.wrap_mode()));
            }
            let plane = &self.planes[c];
            values.push(plane.level(level).texel(self.wrap, s as i128, t as i128));
            c = c + 1;
        }
        let r = T::from_channels(&values);
        assert forall|c: int| 0 <= c < T::channel_count() implies (#[trigger] r.channel(c)) == self.levels(c)[level as int].fetch(
            self.wrap_mode(),
            s as int,
            t as int,
        ) by {
            assert(r.channel(c) == values@[c]);
        }
        r
    }

    /// The filtered value of the image at `st`, for a lookup whose footprint
    /// is spanned by the derivatives `dstdx` and `dstdy`.
    pub fn lookup(&self, st: &Point2<Fixed>, dstdx: &Vector2<Fixed>, dstdy: &Vector2<Fixed>) -> (r: T)
        requires
            self.wf(),
        ensures
            forall|c: int| 0 <= c < T::channel_count() ==> (#[trigger] r.channel(c)) == self.lookup_spec(c, *st, *dstdx, *dstdy),
            forall|c: int| 0 <= c < T::channel_count() ==> texel_in_range((#[trigger] r.channel(c)) as int),
    {
        let n = T::channels();
        let mut values: Vec<Fixed> = Vec::new();
        let mut c: usize = 0;
        while c < n
            invariant
                self.wf(),
                n == T::channel_count(),
                c <= n,
                values@.len() == c,
                forall|j: int| 0 <= j < c ==> #[trigger] values@[j] == self.lookup_spec(j, *st, *dstdx, *dstdy),
                forall|j: int| 0 <= j < c ==> texel_in_range(#[trigger] values@[j] as int),
            decreases n - c,
        {
            proof {
                assert(is_pyramid(self.levels(c as int), self.wrap_mode()));
            }
            let plane = &self.planes[c];
            let v = plane.lookup(
                self.filtering,
                &self.weights,
                self.max_anisotropy,
                st.x,
                st.y,
                dstdx.x,
                dstdx.y,
                dstdy.x,
                dstdy.y,
            );
            values.push(v);
            c = c + 1;
        }
        let r = T::from_channels(&values);
        assert forall|c: int| 0 <= c < T::channel_count() implies (#[trigger] r.channel(c)) == self.lookup_spec(
            c,
            *st,
            *dstdx,
            *dstdy,
        ) && texel_in_range(r.channel(c) as int) by {
            assert(r.channel(c) == values@[c]);
        }
        r
    }
}

} // verus!
