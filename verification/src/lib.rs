//! Glyph bitmaps for short texts: each character of a text becomes one
//! 32 x 32 one-bit image, made from what a font reports for that character
//! by clipping to the canvas and thresholding the coverage of each pixel.
//!
//! - `bitmap`: the canvas and its bit layout.
//! - `coverage`: coverage as a bit pattern, and the threshold.
//! - `raster`: what the font is asked, and what it answers.
//! - `quantizer`: from one answer to one bitmap.
//! - `driver`: from a text to its bitmaps, one character at a time.
//! - `picture`: a bitmap written out as text.
//! - `font`: the font out of the bytes of a font file.

pub mod bitmap;
pub mod coverage;
pub mod driver;
pub mod font;
pub mod picture;
pub mod quantizer;
pub mod raster;

pub use crate::bitmap::Bitmap;
pub use crate::driver::{generate_bitmap_data_sized, render_text, render_text_debug};
pub use crate::font::{load_font, FontError};
pub use crate::quantizer::quantize;
pub use crate::raster::{CoverageSample, GlyphRaster, PixelBoundingBox, RasterRequest};
