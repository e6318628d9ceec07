//! Escape-time fractal rendering: colour mapping, plane mapping, the
//! escape-time evaluator, column tiling and image assembly.

pub mod color;
pub mod plane;
pub mod tiles;
pub mod escape;
pub mod raster;
pub mod render;
