//! MIP pyramids of images and the filtered lookups they answer.

pub mod ewa;
pub mod filter;
pub mod fixed;
pub mod footprint;
pub mod kernel;
pub mod level;
pub mod lookup;
pub mod map;
pub mod pyramid;
pub mod resample;
pub mod texel;
pub mod wrap;
