//! Cameras.

pub mod environment_camera;
