//! The environment camera: it sees in every direction from a point.

use vstd::prelude::*;
use crate::geometry::point2::Point2;
use crate::mipmap::fixed::{floor_div, Fixed, ONE};

verus! {

/// What every camera holds.
pub struct CameraData<X, F, M> {
    /// Transformation from camera space to world space.
    pub camera_to_world: X,
    /// Time when the shutter opens.
    pub shutter_open: Fixed,
    /// Time when the shutter closes.
    pub shutter_close: Fixed,
    /// The film that captures the image.
    pub film: F,
    /// The medium the camera lies in.
    pub medium: M,
}

impl<X, F, M> CameraData<X, F, M> {
    /// The data of a camera.
    pub fn new(camera_to_world: X, shutter_open: Fixed, shutter_close: Fixed, film: F, medium: M) -> (r: Self)
        ensures
            r == (CameraData { camera_to_world, shutter_open, shutter_close, film, medium }),
    {
        CameraData { camera_to_world, shutter_open, shutter_close, film, medium }
    }
}

/// A camera that maps the film to the sphere of directions: rows to polar
/// angles, columns to azimuths.
pub struct EnvironmentCamera<X, F, M> {
    /// Common camera parameters.
    pub data: CameraData<X, F, M>,
}

/// One whole, in the fractions that the camera takes and gives: they have 32
/// fractional bits, so that nothing of a film position or of a sample's time
/// is lost in them.
pub const FRACTION_ONE: i128 = 0x1_0000_0000;

/// The fraction `position / extent` of a fixed-point position along an
/// extent in whole pixels, with 32 fractional bits.
pub open spec fn film_fraction(position: Fixed, extent: int) -> int {
    position as int * (ONE as int) / extent
}

/// The time between `open` and `close` that the fraction `t` stands for,
/// `t` having 32 fractional bits; beyond them where `t` is below 0 or above 1.
pub open spec fn shutter_time(t: i64, open: Fixed, close: Fixed) -> int {
    ((FRACTION_ONE - t) * open + t * close) / (FRACTION_ONE as int)
}

impl<X, F, M> EnvironmentCamera<X, F, M> {
    /// The environment camera with the given parameters.
    pub fn new(camera_to_world: X, shutter_open: Fixed, shutter_close: Fixed, film: F, medium: M) -> (r: Self)
        ensures
            r.data == (CameraData { camera_to_world, shutter_open, shutter_close, film, medium }),
    {
        EnvironmentCamera { data: CameraData::new(camera_to_world, shutter_open, shutter_close, film, medium) }
    }

    /// The angles of the ray through the film position `p_film`, on a film of
    /// `resolution` pixels, each as a fraction of its range: the polar
    /// angle as a fraction of a half turn, and the azimuth as a fraction
    /// of a full turn.
    pub fn ray_angles(&self, p_film: &Point2<Fixed>, resolution: &Point2<i32>) -> (r: (i128, i128))
        requires
            resolution.x > 0,
            resolution.y > 0,
        ensures
            r.0 == film_fraction(p_film.y, resolution.y as int),
            r.1 == film_fraction(p_film.x, resolution.x as int),
    {
        proof {
            crate::mipmap::fixed::lemma_product_bound(p_film.x as int, ONE as int, 0x8000_0000_0000_0000, ONE as int);
            crate::mipmap::fixed::lemma_product_bound(p_film.y as int, ONE as int, 0x8000_0000_0000_0000, ONE as int);
        }
        let theta = floor_div((p_film.y as i128) * (ONE as i128), resolution.y as i128);
        let phi = floor_div((p_film.x as i128) * (ONE as i128), resolution.x as i128);
        (theta, phi)
    }

    /// The time of a ray whose sample carries the time fraction
    /// `sample_time`, a number with 32 fractional bits: that fraction of the
    /// way from the opening of the shutter to its closing. There is none
    /// where that time is beyond what a fixed-point number holds, which no
    /// fraction from 0 to 1 is.
    pub fn ray_time(&self, sample_time: i64) -> (r: Option<Fixed>)
        ensures
            r.is_some() <==> i64::MIN <= shutter_time(sample_time, self.data.shutter_open, self.data.shutter_close)
                <= i64::MAX,
            r matches Some(time) ==> time == shutter_time(
                sample_time,
                self.data.shutter_open,
                self.data.shutter_close,
            ),
            0 <= sample_time <= FRACTION_ONE ==> r.is_some(),
    {
        let open = self.data.shutter_open as i128;
        let close = self.data.shutter_close as i128;
        let t = sample_time as i128;
        proof {
            crate::mipmap::fixed::lemma_product_bound(
                FRACTION_ONE - t,
                open as int,
                0x8000_0001_0000_0000,
                0x8000_0000_0000_0000,
            );
            crate::mipmap::fixed::lemma_product_bound(
                t as int,
                close as int,
                0x8000_0000_0000_0000,
                0x8000_0000_0000_0000,
            );
            if 0 <= sample_time <= FRACTION_ONE {
                lemma_between(t as int, open as int, close as int);
            }
        }
        let from_open: i128 = (FRACTION_ONE - t) * open;
        let from_close: i128 = t * close;
        match from_open.checked_add(from_close) {
            Some(sum) => {
                let time = floor_div(sum, FRACTION_ONE);
                if time < i64::MIN as i128 || time > i64::MAX as i128 {
                    None
                } else {
                    Some(time as i64)
                }
            },
            None => None,
        }
    }
}

/// A time between the opening and the closing of the shutter is a time that
/// can be represented.
proof fn lemma_between(t: int, open: int, close: int)
    requires
        0 <= t <= FRACTION_ONE,
        -0x8000_0000_0000_0000 <= open < 0x8000_0000_0000_0000,
        -0x8000_0000_0000_0000 <= close < 0x8000_0000_0000_0000,
    ensures
        -0x8000_0000_0000_0000 <= ((FRACTION_ONE - t) * open + t * close) / (FRACTION_ONE as int)
            < 0x8000_0000_0000_0000,
{
    let one = FRACTION_ONE as int;
    let lo = if open <= close { open } else { close };
    let hi = if open <= close { close } else { open };
    let n = (one - t) * open + t * close;
    assert(lo * one <= n <= hi * one) by (nonlinear_arith)
        requires
            0 <= t <= one,
            lo <= open <= hi,
            lo <= close <= hi,
            n == (one - t) * open + t * close,
    ;
    vstd::arithmetic::div_mod::lemma_div_is_ordered(lo * one, n, one);
    vstd::arithmetic::div_mod::lemma_div_is_ordered(n, hi * one, one);
    crate::mipmap::fixed::lemma_quotient_exact(lo, one);
    crate::mipmap::fixed::lemma_quotient_exact(hi, one);
}

} // verus!
