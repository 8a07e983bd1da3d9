//! Bounds-checked pixel addressing over a linear framebuffer, and the point,
//! rectangle and line rasterizers built on it.

pub mod bitmap;
pub mod canvas;
pub mod error;
pub mod line;
pub mod line_laws;
pub mod raster;
pub mod scene;
pub mod vram;
