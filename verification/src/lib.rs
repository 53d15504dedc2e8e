//! Filtered image textures over MIP pyramids, with the small geometry types
//! they are addressed by.
//!
//! Texel values, texture coordinates and filter weights are fixed-point numbers
//! with sixteen fractional bits (see [`mipmap::fixed`]); every lookup is exact
//! integer arithmetic, so the contracts of this crate state results to the
//! last bit.

pub mod cameras;
pub mod geometry;
pub mod materials;
pub mod mipmap;
pub mod textures;
