//! The path tracer around its shading: random bits, tiles, and the picture put together.

pub mod image;
pub mod rng;
pub mod tiles;
