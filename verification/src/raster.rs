//! What the font is asked for one character, and what it answers.

use vstd::prelude::*;
use crate::coverage::coverage_is_ink;

verus! {

/// The input to one character's rasterization: the character, and the size
/// to draw it at, in pixels from the font's ascent to its descent.
#[derive(Clone, Copy, Debug, PartialEq, Eq)]
pub struct RasterRequest {
    pub character: char,
    pub font_size: usize,
}

/// The rectangle of pixels within which a positioned glyph's ink may fall.
#[derive(Clone, Copy, Debug, PartialEq, Eq)]
pub struct PixelBoundingBox {
    pub min_x: i32,
    pub min_y: i32,
    pub max_x: i32,
    pub max_y: i32,
}

/// How much of one pixel a glyph covers.
///
/// `x` and `y` count from the top left corner of the glyph's bounding box.
/// `coverage` is the bit pattern of a single-precision number, as the font's
/// rasterizer computed it.
#[derive(Clone, Copy, Debug, PartialEq, Eq)]
pub struct CoverageSample {
    pub x: u32,
    pub y: u32,
    pub coverage: u32,
}

/// What the font reports for one request: the glyph's bounding box, absent
/// where the glyph has no outline, and its coverage samples.
#[derive(Clone, Debug, PartialEq, Eq)]
pub struct GlyphRaster {
    pub bounds: Option<PixelBoundingBox>,
    pub samples: Vec<CoverageSample>,
}

/// A `GlyphRaster` as a value: its samples as a sequence.
pub ghost struct GlyphRasterView {
    pub bounds: Option<PixelBoundingBox>,
    pub samples: Seq<CoverageSample>,
}

impl View for GlyphRaster {
    type V = GlyphRasterView;

    open spec fn view(&self) -> GlyphRasterView {
        GlyphRasterView { bounds: self.bounds, samples: self.samples@ }
    }
}

impl CoverageSample {
    /// The canvas column that the sample falls in, for a glyph with these
    /// bounds.
    pub open spec fn column(self, bounds: PixelBoundingBox) -> int {
        bounds.min_x + self.x
    }

    /// The canvas row that the sample falls in, for a glyph with these bounds.
    pub open spec fn row(self, bounds: PixelBoundingBox) -> int {
        bounds.min_y + self.y
    }

    /// Whether the sample puts ink on the pixel `(x, y)`.
    pub open spec fn inks(self, bounds: PixelBoundingBox, x: int, y: int) -> bool {
        &&& coverage_is_ink(self.coverage)
        &&& self.column(bounds) == x
        &&& self.row(bounds) == y
    }
}

} // verus!
