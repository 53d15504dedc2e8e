//! The plastic material: a diffuse lobe under a glossy dielectric coat.

use vstd::prelude::*;
use vstd::std_specs::convert::FromSpec;
use crate::mipmap::fixed::{Fixed, ONE};
use crate::mipmap::texel::Rgb;
use crate::textures::constant::ConstantTexture;
use crate::textures::imagemap::Texture;

verus! {

/// Reflectance of a plastic that names none: 0.25 in every channel.
pub const DEFAULT_REFLECTANCE: Fixed = 0x4000;

/// Roughness of a plastic that names none: 0.1.
pub const DEFAULT_ROUGHNESS: Fixed = 6554;

/// Index of refraction of the coat: 1.5.
pub const COAT_ETA: Fixed = 0x1_8000;

/// Index of refraction outside the coat: 1.
pub const OUTSIDE_ETA: Fixed = ONE;

/// The glossy lobe of a plastic.
#[derive(Copy, Clone, Debug, PartialEq, Eq, Structural)]
pub struct SpecularLobe {
    /// Specular reflectance.
    pub reflectance: Rgb,
    /// Roughness of the microfacet distribution, along both axes.
    pub roughness: Fixed,
    /// Whether `roughness` is a value in `[0, 1]` that is still to be mapped
    /// to the distribution's own parameter.
    pub remap_roughness: bool,
    /// Index of refraction on the side of the incident light.
    pub eta_i: Fixed,
    /// Index of refraction on the far side.
    pub eta_t: Fixed,
}

/// The lobes of a plastic at one surface point.
#[derive(Copy, Clone, Debug, PartialEq, Eq, Structural)]
pub struct Lobes {
    /// The diffuse lobe's reflectance, where there is a diffuse lobe.
    pub diffuse: Option<Rgb>,
    /// The glossy lobe, where there is one.
    pub specular: Option<SpecularLobe>,
}

/// `v`, or zero where `v` is negative.
pub open spec fn clamp_channel(v: Fixed) -> Fixed {
    if v < 0 {
        0
    } else {
        v
    }
}

/// `c` with every channel clamped to be non-negative.
pub open spec fn clamp_spectrum(c: Rgb) -> Rgb {
    Rgb { r: clamp_channel(c.r), g: clamp_channel(c.g), b: clamp_channel(c.b) }
}

/// Whether `c` is zero in every channel.
pub open spec fn is_black(c: Rgb) -> bool {
    c.r == 0 && c.g == 0 && c.b == 0
}

/// The lobes of a plastic whose textures evaluate to `kd`, `ks` and
/// `roughness`: a diffuse lobe unless the clamped `kd` is black, and a glossy
/// lobe unless the clamped `ks` is black.
pub open spec fn plastic_lobes(kd: Rgb, ks: Rgb, roughness: Fixed, remap_roughness: bool) -> Lobes {
    Lobes {
        diffuse: if is_black(clamp_spectrum(kd)) {
            None
        } else {
            Some(clamp_spectrum(kd))
        },
        specular: if is_black(clamp_spectrum(ks)) {
            None
        } else {
            Some(
                SpecularLobe {
                    reflectance: clamp_spectrum(ks),
                    roughness,
                    remap_roughness,
                    eta_i: COAT_ETA,
                    eta_t: OUTSIDE_ETA,
                },
            )
        },
    }
}

/// `c` with every channel clamped to be non-negative.
pub fn clamp_default(c: Rgb) -> (r: Rgb)
    ensures
        r == clamp_spectrum(c),
{
    Rgb {
        r: if c.r < 0 { 0 } else { c.r },
        g: if c.g < 0 { 0 } else { c.g },
        b: if c.b < 0 { 0 } else { c.b },
    }
}

/// Implements the plastic material over textures of reflectance (`K`) and of
/// roughness (`R`).
pub struct PlasticMaterial<K, R> {
    kd: K,
    ks: K,
    roughness: R,
    bump_map: Option<R>,
    remap_roughness: bool,
}

impl<K, R> PlasticMaterial<K, R> {
    /// Spectral diffuse reflection.
    pub closed spec fn kd(&self) -> K {
        self.kd
    }

    /// Spectral specular reflection.
    pub closed spec fn ks(&self) -> K {
        self.ks
    }

    /// Roughness.
    pub closed spec fn roughness(&self) -> R {
        self.roughness
    }

    /// Bump map.
    pub closed spec fn bump_map(&self) -> Option<R> {
        self.bump_map
    }

    /// Whether roughness is given in `[0, 1]`.
    pub closed spec fn remap_roughness(&self) -> bool {
        self.remap_roughness
    }

    /// The plastic with the given textures.
    pub fn new(kd: K, ks: K, roughness: R, remap_roughness: bool, bump_map: Option<R>) -> (r: Self)
        ensures
            r.kd() == kd,
            r.ks() == ks,
            r.roughness() == roughness,
            r.remap_roughness() == remap_roughness,
            r.bump_map() == bump_map,
    {
        PlasticMaterial { kd, ks, roughness, bump_map, remap_roughness }
    }

    /// The plastic that a description amounts to. What it does not give takes
    /// its default: reflectances of 0.25, a roughness of 0.1 that is still
    /// to be mapped, and no bump map.
    pub fn with_defaults(
        kd: Option<K>,
        ks: Option<K>,
        roughness: Option<R>,
        bump_map: Option<R>,
        remap_roughness: Option<bool>,
    ) -> (r: Self) where K: From<ConstantTexture<Rgb>>, R: From<ConstantTexture<Fixed>>
        ensures
            kd matches Some(k) ==> r.kd() == k,
            kd.is_none() && K::obeys_from_spec() ==> r.kd() == K::from_spec(
                ConstantTexture {
                    value: Rgb { r: DEFAULT_REFLECTANCE, g: DEFAULT_REFLECTANCE, b: DEFAULT_REFLECTANCE },
                },
            ),
            ks matches Some(k) ==> r.ks() == k,
            ks.is_none() && K::obeys_from_spec() ==> r.ks() == K::from_spec(
                ConstantTexture {
                    value: Rgb { r: DEFAULT_REFLECTANCE, g: DEFAULT_REFLECTANCE, b: DEFAULT_REFLECTANCE },
                },
            ),
            roughness matches Some(t) ==> r.roughness() == t,
            roughness.is_none() && R::obeys_from_spec() ==> r.roughness() == R::from_spec(
                ConstantTexture { value: DEFAULT_ROUGHNESS },
            ),
            r.bump_map() == bump_map,
            r.remap_roughness() == (remap_roughness != Some(false)),
    {
        let grey = Rgb { r: DEFAULT_REFLECTANCE, g: DEFAULT_REFLECTANCE, b: DEFAULT_REFLECTANCE };
        let kd = match kd {
            Some(k) => k,
            None => K::from(ConstantTexture::new(grey)),
        };
        let ks = match ks {
            Some(k) => k,
            None => K::from(ConstantTexture::new(grey)),
        };
        let roughness = match roughness {
            Some(t) => t,
            None => R::from(ConstantTexture::new(DEFAULT_ROUGHNESS)),
        };
        let remap_roughness = match remap_roughness {
            Some(flag) => flag,
            None => true,
        };
        Self::new(kd, ks, roughness, remap_roughness, bump_map)
    }

    /// The bump map, where the material has one: it is applied to the
    /// surface point before the lobes are made.
    pub fn bump(&self) -> (r: Option<&R>)
        ensures
            match self.bump_map() {
                Some(map) => r == Some(&map),
                None => r.is_none(),
            },
    {
        self.bump_map.as_ref()
    }

    /// The lobes at a surface point where the textures evaluate to `kd`, `ks`
    /// and `roughness`.
    pub fn lobes(&self, kd: Rgb, ks: Rgb, roughness: Fixed) -> (r: Lobes)
        ensures
            r == plastic_lobes(kd, ks, roughness, self.remap_roughness()),
    {
        let kd = clamp_default(kd);
        let ks = clamp_default(ks);
        let diffuse = if kd.r == 0 && kd.g == 0 && kd.b == 0 {
            None
        } else {
            Some(kd)
        };
        let specular = if ks.r == 0 && ks.g == 0 && ks.b == 0 {
            None
        } else {
            Some(
                SpecularLobe {
                    reflectance: ks,
                    roughness,
                    remap_roughness: self.remap_roughness,
                    eta_i: COAT_ETA,
                    eta_t: OUTSIDE_ETA,
                },
            )
        };
        Lobes { diffuse, specular }
    }

    /// `lobes` are the lobes at the surface point `si`: those of values that
    /// the textures of reflectance have at `si`, and, where there is a glossy
    /// lobe, of a value that the texture of roughness has there.
    pub open spec fn scatters<S>(&self, si: &S, lobes: Lobes) -> bool where K: Texture<S, Rgb>, R: Texture<S, Fixed> {
        exists|kd: Rgb, ks: Rgb, roughness: Fixed|
            {
                &&& self.kd().has_value(si, kd)
                &&& self.ks().has_value(si, ks)
                &&& is_black(clamp_spectrum(ks)) || self.roughness().has_value(si, roughness)
                &&& lobes == #[trigger] plastic_lobes(kd, ks, roughness, self.remap_roughness())
            }
    }

    /// The lobes at the surface point `si`: those of the values that the
    /// material's textures have there. The roughness is looked up only
    /// where there is a glossy lobe.
    pub fn compute_scattering_functions<S>(&self, si: &S) -> (r: Lobes) where
        K: Texture<S, Rgb>,
        R: Texture<S, Fixed>,

        ensures
            self.scatters(si, r),
    {
        let kd = self.kd.evaluate(si);
        let ks = self.ks.evaluate(si);
        let clamped = clamp_default(ks);
        let roughness = if clamped.r == 0 && clamped.g == 0 && clamped.b == 0 {
            0
        } else {
            self.roughness.evaluate(si)
        };
        let r = self.lobes(kd, ks, roughness);
        assert(self.kd().has_value(si, kd) && self.ks().has_value(si, ks) && (is_black(clamp_spectrum(ks))
            || self.roughness().has_value(si, roughness)) && r == plastic_lobes(
            kd,
            ks,
            roughness,
            self.remap_roughness(),
        ));
        r
    }
}

} // verus!
