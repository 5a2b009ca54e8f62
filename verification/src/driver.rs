//! The Text Batch Driver: one bitmap for each character of a text, in the
//! text's order. Every character is drawn alone, on a canvas of its own.
//!
//! The font stands behind a callback, `rasterize`, which answers one
//! `RasterRequest` with one `GlyphRaster`. The driver asks it once for each
//! character and quantizes each answer. It keeps no position from one
//! character to the next: the callback is to place each glyph at the same
//! origin, at the left edge of the canvas with the font's ascent at the top.

use vstd::prelude::*;
use crate::bitmap::Bitmap;
use crate::picture::{picture, picture_text};
use crate::quantizer::{lemma_no_samples_no_ink, quantize};
use crate::raster::{CoverageSample, GlyphRaster, RasterRequest};

verus! {

/// The size at which `render_text` draws when it is given none.
pub const DEFAULT_FONT_SIZE: usize = 32;

/// The size at which `render_text_debug` draws.
pub const DEBUG_FONT_SIZE: usize = 24;

/// The request for the `i`-th character of `text`.
pub open spec fn request_at(text: Seq<char>, font_size: usize, i: int) -> RasterRequest {
    RasterRequest { character: text[i], font_size }
}

/// Whether `glyph` is the bitmap of an answer that `rasterize` can give to
/// `request`.
pub open spec fn renders<F: Fn(RasterRequest) -> GlyphRaster>(
    rasterize: F,
    request: RasterRequest,
    glyph: Bitmap,
) -> bool {
    exists|raster: GlyphRaster| #[trigger]
        call_ensures(rasterize, (request,), raster) && glyph@ == raster@.ink()
}

/// Whether `glyphs` is a rendering of `text` at `font_size`: one bitmap for
/// each character, in order, each the bitmap of an answer of `rasterize` to
/// the request for that character at that size.
pub open spec fn is_rendering<F: Fn(RasterRequest) -> GlyphRaster>(
    rasterize: F,
    text: Seq<char>,
    font_size: usize,
    glyphs: Seq<Bitmap>,
) -> bool {
    &&& glyphs.len() == text.len()
    &&& forall|i: int|
        0 <= i < text.len() ==> renders(
            rasterize,
            request_at(text, font_size, i),
            #[trigger] glyphs[i],
        )
}

/// Whether `rasterize` can be asked for every character of `text` at
/// `font_size`.
pub open spec fn accepts<F: Fn(RasterRequest) -> GlyphRaster>(
    rasterize: F,
    text: Seq<char>,
    font_size: usize,
) -> bool {
    forall|i: int|
        0 <= i < text.len() ==> call_requires(
            rasterize,
            (#[trigger] request_at(text, font_size, i),),
        )
}

/// The size to draw at: the one given, or the default of 32.
pub open spec fn size_or_default(size: Option<usize>) -> usize {
    match size {
        Some(font_size) => font_size,
        None => DEFAULT_FONT_SIZE,
    }
}

/// Draws each character of `text` at `font_size`.
///
/// The result has one bitmap for each character, also for a character that
/// the font cannot draw, in the order of the text. `rasterize` must take the
/// request for each of the characters, as every callback without a
/// precondition does.
pub fn generate_bitmap_data_sized<F: Fn(RasterRequest) -> GlyphRaster>(
    text: &str,
    font_size: usize,
    rasterize: F,
) -> (glyphs: Vec<Bitmap>)
    requires
        accepts(rasterize, text@, font_size),
    ensures
        glyphs@.len() == text@.len(),
        is_rendering(rasterize, text@, font_size, glyphs@),
{
    let mut glyphs: Vec<Bitmap> = Vec::new();
    for ch in iter: text.chars()
        invariant
            iter.seq() == text@,
            accepts(rasterize, text@, font_size),
            is_rendering(rasterize, text@.take(iter.index() as int), font_size, glyphs@),
    {
        let ghost done = text@.take(iter.index() as int);
        let ghost before = glyphs@;
        let request = RasterRequest { character: ch, font_size };
        assert(request == request_at(text@, font_size, iter.index() as int));
        let raster = rasterize(request);
        let glyph = quantize(&raster);
        glyphs.push(glyph);
        proof {
            let next = text@.take(iter.index() + 1);
            assert(next =~= done.push(ch));
            assert forall|i: int| 0 <= i < next.len() implies renders(
                rasterize,
                request_at(next, font_size, i),
                #[trigger] glyphs@[i],
            ) by {
                if i < done.len() {
                    assert(glyphs@[i] == before[i]);
                    assert(request_at(next, font_size, i) == request_at(done, font_size, i));
                } else {
                    assert(request_at(next, font_size, i) == request);
                    assert(call_ensures(rasterize, (request,), raster));
                }
            }
        }
    }
    assert(text@.take(text@.len() as int) =~= text@);
    glyphs
}

/// Draws each character of `text` at `size`, or at the default size of 32
/// where `size` is `None`.
pub fn render_text<F: Fn(RasterRequest) -> GlyphRaster>(
    text: &str,
    size: Option<usize>,
    rasterize: F,
) -> (glyphs: Vec<Bitmap>)
    requires
        accepts(rasterize, text@, size_or_default(size)),
    ensures
        glyphs@.len() == text@.len(),
        is_rendering(rasterize, text@, size_or_default(size), glyphs@),
{
    let font_size: usize = match size {
        Some(font_size) => font_size,
        None => DEFAULT_FONT_SIZE,
    };
    generate_bitmap_data_sized(text, font_size, rasterize)
}

/// Whether `rasterize` answers each request in one way only.
pub open spec fn is_single_valued<F: Fn(RasterRequest) -> GlyphRaster>(rasterize: F) -> bool {
    forall|request: RasterRequest, first: GlyphRaster, second: GlyphRaster|
        #![trigger
            call_ensures(rasterize, (request,), first),
            call_ensures(rasterize, (request,), second)]
        call_ensures(rasterize, (request,), first) && call_ensures(rasterize, (request,), second)
            ==> first@ == second@
}

/// Determinism: with a font that answers each request in one way only, a
/// text and a size have one rendering. Two renderings of the same text at
/// the same size are the same bitmaps, bit for bit.
pub proof fn lemma_rendering_is_unique<F: Fn(RasterRequest) -> GlyphRaster>(
    rasterize: F,
    text: Seq<char>,
    font_size: usize,
    first: Seq<Bitmap>,
    second: Seq<Bitmap>,
)
    requires
        is_single_valued(rasterize),
        is_rendering(rasterize, text, font_size, first),
        is_rendering(rasterize, text, font_size, second),
    ensures
        first == second,
{
    assert forall|i: int| 0 <= i < text.len() implies first[i] == second[i] by {
        let request = request_at(text, font_size, i);
        assert(renders(rasterize, request, first[i]));
        assert(renders(rasterize, request, second[i]));
        let a = choose|raster: GlyphRaster| #[trigger]
            call_ensures(rasterize, (request,), raster) && first[i]@ == raster@.ink();
        let b = choose|raster: GlyphRaster| #[trigger]
            call_ensures(rasterize, (request,), raster) && second[i]@ == raster@.ink();
        assert(a@ == b@);
        first[i].lemma_pixels_determine_rows(second[i]);
    }
    assert(first =~= second);
}

/// Length preservation: a rendering has as many bitmaps as the text has
/// characters; that of the empty text is empty.
pub proof fn lemma_rendering_keeps_length<F: Fn(RasterRequest) -> GlyphRaster>(
    rasterize: F,
    text: Seq<char>,
    font_size: usize,
    glyphs: Seq<Bitmap>,
)
    requires
        is_rendering(rasterize, text, font_size, glyphs),
    ensures
        glyphs.len() == text.len(),
        text.len() == 0 ==> glyphs == Seq::<Bitmap>::empty(),
{
    if text.len() == 0 {
        assert(glyphs =~= Seq::<Bitmap>::empty());
    }
}

/// A character for which the font reports no bounding box or no sample is
/// still in the rendering, as a bitmap whose 32 rows are zero.
pub proof fn lemma_inkless_glyph_is_blank<F: Fn(RasterRequest) -> GlyphRaster>(
    rasterize: F,
    text: Seq<char>,
    font_size: usize,
    glyphs: Seq<Bitmap>,
    i: int,
)
    requires
        is_rendering(rasterize, text, font_size, glyphs),
        0 <= i < text.len(),
        forall|raster: GlyphRaster| #[trigger]
            call_ensures(rasterize, (request_at(text, font_size, i),), raster)
                ==> raster.bounds is None || raster.samples@.len() == 0,
    ensures
        glyphs[i].is_blank(),
{
    let request = request_at(text, font_size, i);
    assert(renders(rasterize, request, glyphs[i]));
    let raster = choose|raster: GlyphRaster| #[trigger]
        call_ensures(rasterize, (request,), raster) && glyphs[i]@ == raster@.ink();
    if raster.bounds is Some {
        lemma_no_samples_no_ink(raster.bounds->0);
        assert(raster.samples@ =~= Seq::<CoverageSample>::empty());
    }
    glyphs[i].lemma_blank_iff_no_ink();
}

/// Whether `pictures` holds the picture of each glyph under the heading of
/// its character.
pub open spec fn are_pictures(text: Seq<char>, glyphs: Seq<Bitmap>, pictures: Seq<String>) -> bool {
    &&& pictures.len() == text.len()
    &&& forall|i: int|
        0 <= i < text.len() ==> (#[trigger] pictures[i])@ == picture_text(text[i], glyphs[i])
}

/// Draws each character of `text` at the fixed size of 24 and writes each
/// bitmap out as text as well. Returns the pictures, then the bitmaps.
pub fn render_text_debug<F: Fn(RasterRequest) -> GlyphRaster>(
    text: &str,
    rasterize: F,
) -> (rendering: (Vec<String>, Vec<Bitmap>))
    requires
        accepts(rasterize, text@, DEBUG_FONT_SIZE),
    ensures
        rendering.1@.len() == text@.len(),
        is_rendering(rasterize, text@, DEBUG_FONT_SIZE, rendering.1@),
        are_pictures(text@, rendering.1@, rendering.0@),
{
    let glyphs = generate_bitmap_data_sized(text, DEBUG_FONT_SIZE, rasterize);
    let mut pictures: Vec<String> = Vec::new();
    for ch in iter: text.chars()
        invariant
            iter.seq() == text@,
            glyphs@.len() == text@.len(),
            are_pictures(text@.take(iter.index() as int), glyphs@, pictures@),
    {
        let index: usize = pictures.len();
        pictures.push(picture(ch, &glyphs[index]));
    }
    assert(text@.take(text@.len() as int) =~= text@);
    (pictures, glyphs)
}

} // verus!
