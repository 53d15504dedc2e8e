//! Textures backed by images, and the registry that shares their MIP maps.

pub mod cache;
pub mod constant;
pub mod imagemap;
pub mod options;
