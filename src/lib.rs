//! A small software rasterizer: a bounded pixel buffer of packed RGB colors,
//! area fills, line drawing and a binary PPM encoding, all proved against
//! contracts over the buffer's pixel model.
pub mod canvas;
pub mod raster;
pub mod laws;

pub use canvas::{CanvasError, RustCanvas};
