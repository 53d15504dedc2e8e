//! Materials: which scattering lobes a surface point gets.

pub mod plastic;
