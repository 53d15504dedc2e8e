//! Points and vectors in two and three dimensions.

pub mod axis;
pub mod common;
pub mod point2;
pub mod point3;
pub mod premul;
pub mod scalar;
pub mod vector2;
