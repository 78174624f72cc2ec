//! Verified core of a small ray tracer: command-line settings, scene
//! selection, cube face picking, nearest-hit choice and PPM encoding.

pub mod text;
pub mod config;
pub mod scene;
pub mod object;
pub mod ppm;
pub mod hit;
