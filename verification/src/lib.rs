//! A character-mosaic renderer core: tiles a source image into glyph-sized
//! cells, averages each cell's color, and plans one glyph per cell for an
//! external rasterizer to paint.

pub mod charset;
pub mod color;
pub mod compose;
pub mod errors;
pub mod picker;
pub mod rng;
pub mod sampler;
pub mod text;
