use font_macro::driver::{generate_bitmap_data_sized, render_text, render_text_debug};
use font_macro::font::{load_font, FontError};
use font_macro::raster::{CoverageSample, GlyphRaster, PixelBoundingBox, RasterRequest};
use rusttype::{point, Font, Scale};

fn be16(value: u16) -> [u8; 2] {
    value.to_be_bytes()
}

fn be32(value: u32) -> [u8; 4] {
    value.to_be_bytes()
}

/// The glyph of 'A': a square with the corners (0, 12) and (4, 16), in font
/// units.
fn square_glyph() -> Vec<u8> {
    let mut glyph = Vec::new();
    glyph.extend(be16(1));
    for bound in [0u16, 12, 4, 16] {
        glyph.extend(be16(bound));
    }
    glyph.extend(be16(3));
    glyph.extend(be16(0));
    glyph.extend([0x35, 0x33, 0x35, 0x23]);
    glyph.extend([4, 4]);
    glyph.extend([12, 4]);
    glyph.extend([0, 0]);
    glyph
}

fn head_table() -> Vec<u8> {
    let mut head = Vec::new();
    head.extend(be32(0x0001_0000));
    head.extend(be32(0x0001_0000));
    head.extend(be32(0));
    head.extend(be32(0x5F0F_3CF5));
    head.extend(be16(0));
    head.extend(be16(16));
    head.extend([0u8; 16]);
    for bound in [0u16, 0, 4, 16] {
        head.extend(be16(bound));
    }
    head.extend(be16(0));
    head.extend(be16(8));
    head.extend(be16(2));
    head.extend(be16(0));
    head.extend(be16(0));
    head
}

fn hhea_table() -> Vec<u8> {
    let mut hhea = Vec::new();
    hhea.extend(be32(0x0001_0000));
    hhea.extend(be16(16));
    hhea.extend(be16(0));
    hhea.extend(be16(0));
    hhea.extend([0u8; 26]);
    hhea
}

fn maxp_table() -> Vec<u8> {
    let mut maxp = Vec::new();
    maxp.extend(be32(0x0000_5000));
    maxp.extend(be16(3));
    maxp
}

fn cmap_table() -> Vec<u8> {
    let mut cmap = Vec::new();
    cmap.extend(be16(0));
    cmap.extend(be16(1));
    cmap.extend(be16(0));
    cmap.extend(be16(3));
    cmap.extend(be32(12));
    cmap.extend(be16(0));
    cmap.extend(be16(262));
    cmap.extend(be16(0));
    let mut glyph_ids = [0u8; 256];
    glyph_ids['A' as usize] = 1;
    glyph_ids[' ' as usize] = 2;
    cmap.extend(glyph_ids);
    cmap
}

/// A font of 16 units to the em, with an ascent of 16 and no descent, so
/// that at size 16 one unit is one pixel. Glyph 0 and the glyph of the space
/// have no outline; the glyph of 'A' is the square.
fn stub_font() -> Vec<u8> {
    let glyf = square_glyph();
    let mut loca = Vec::new();
    for offset in [0, 0, glyf.len() / 2, glyf.len() / 2] {
        loca.extend(be16(offset as u16));
    }
    let tables: [(&[u8; 4], Vec<u8>); 6] = [
        (b"cmap", cmap_table()),
        (b"glyf", glyf),
        (b"head", head_table()),
        (b"hhea", hhea_table()),
        (b"loca", loca),
        (b"maxp", maxp_table()),
    ];
    let mut font = Vec::new();
    font.extend(be32(0x0001_0000));
    font.extend(be16(tables.len() as u16));
    font.extend(be16(64));
    font.extend(be16(2));
    font.extend(be16(32));
    let mut offset = 12 + 16 * tables.len();
    let mut body = Vec::new();
    for (tag, data) in tables.iter() {
        font.extend(*tag);
        font.extend(be32(0));
        font.extend(be32((offset + body.len()) as u32));
        font.extend(be32(data.len() as u32));
        body.extend(data);
        while body.len() % 4 != 0 {
            body.push(0);
        }
    }
    offset += body.len();
    font.extend(body);
    assert_eq!(font.len(), offset);
    font
}

/// What rusttype reports for one character, drawn alone with its ascent at
/// the top of the canvas.
fn rasterize(font: &Font<'_>, request: RasterRequest) -> GlyphRaster {
    let scale = Scale::uniform(request.font_size as f32);
    let v_metrics = font.v_metrics(scale);
    let origin = point(0.0, v_metrics.ascent);
    let glyph = font.glyph(request.character).scaled(scale).positioned(origin);
    let bounds = glyph.pixel_bounding_box().map(|bb| PixelBoundingBox {
        min_x: bb.min.x,
        min_y: bb.min.y,
        max_x: bb.max.x,
        max_y: bb.max.y,
    });
    let mut samples = Vec::new();
    glyph.draw(|x, y, v| samples.push(CoverageSample { x, y, coverage: v.to_bits() }));
    GlyphRaster { bounds, samples }
}

fn square_rows(side: usize) -> [u32; 32] {
    let mut rows = [0u32; 32];
    for row in rows.iter_mut().take(side) {
        *row = if side >= 32 { u32::MAX } else { !(u32::MAX >> side) };
    }
    rows
}

#[test]
fn empty_data_is_an_absent_font() {
    assert_eq!(load_font(&[]).err(), Some(FontError::Absent));
}

#[test]
fn data_that_is_no_font_is_unrecognized() {
    assert_eq!(load_font(&[0]).err(), Some(FontError::Unrecognized));
    assert_eq!(load_font(b"not a font at all").err(), Some(FontError::Unrecognized));
    assert_eq!(load_font(&[0u8; 600]).err(), Some(FontError::Unrecognized));
}

#[test]
fn truncated_font_is_unrecognized() {
    let data = stub_font();
    assert_eq!(load_font(&data[..data.len() / 4]).err(), Some(FontError::Unrecognized));
    assert_eq!(load_font(&data[..11]).err(), Some(FontError::Unrecognized));
}

#[test]
fn stub_font_is_loaded() {
    let data = stub_font();
    let font = load_font(&data).expect("the stub font is a font");
    assert_eq!(font.glyph_count(), 3);
    assert_eq!(font.units_per_em(), 16);
}

#[test]
fn load_font_agrees_with_rusttype() {
    let data = stub_font();
    for end in 0..data.len() + 1 {
        assert_eq!(load_font(&data[..end]).is_ok(), Font::try_from_bytes(&data[..end]).is_some());
    }
}

#[test]
fn font_errors_say_what_went_wrong() {
    assert_eq!(FontError::Absent.describe(), "Failed to load font: the font data is empty");
    assert_eq!(
        FontError::Unrecognized.describe(),
        "Failed to load font: the font data is not a readable font"
    );
}

#[test]
fn end_to_end_square_at_size_16() {
    let data = stub_font();
    let font = load_font(&data).expect("the stub font is a font");
    let raster = rasterize(&font, RasterRequest { character: 'A', font_size: 16 });
    assert_eq!(raster.bounds, Some(PixelBoundingBox { min_x: 0, min_y: 0, max_x: 4, max_y: 4 }));
    assert_eq!(raster.samples.len(), 16);
    for sample in raster.samples.iter() {
        assert_eq!(f32::from_bits(sample.coverage), 1.0);
    }
    let glyphs = render_text("A", Some(16), |request| rasterize(&font, request));
    assert_eq!(glyphs.len(), 1);
    for y in 0..32 {
        assert_eq!(glyphs[0].rows[y], if y < 4 { 0xF000_0000 } else { 0 });
    }
}

#[test]
fn space_is_all_zero() {
    let data = stub_font();
    let font = load_font(&data).expect("the stub font is a font");
    for size in [8, 16, 24, 32, 64] {
        let glyphs = generate_bitmap_data_sized(" ", size, |request| rasterize(&font, request));
        assert_eq!(glyphs.len(), 1);
        assert_eq!(glyphs[0].rows, [0u32; 32]);
    }
}

#[test]
fn character_missing_from_the_font_is_all_zero() {
    let data = stub_font();
    let font = load_font(&data).expect("the stub font is a font");
    let glyphs = render_text("B新A", Some(16), |request| rasterize(&font, request));
    assert_eq!(glyphs.len(), 3);
    assert_eq!(glyphs[0].rows, [0u32; 32]);
    assert_eq!(glyphs[1].rows, [0u32; 32]);
    assert_eq!(glyphs[2].rows, square_rows(4));
}

#[test]
fn square_grows_with_the_size_and_the_canvas_does_not() {
    let data = stub_font();
    let font = load_font(&data).expect("the stub font is a font");
    for (size, side) in [(8, 2), (16, 4), (24, 6), (32, 8), (64, 16), (128, 32), (512, 32)] {
        let glyphs = generate_bitmap_data_sized("A", size, |request| rasterize(&font, request));
        assert_eq!(glyphs.len(), 1);
        assert_eq!(glyphs[0].rows.len(), 32);
        assert_eq!(glyphs[0].rows, square_rows(side), "size {}", size);
    }
}

#[test]
fn default_size_doubles_the_square_of_size_16() {
    let data = stub_font();
    let font = load_font(&data).expect("the stub font is a font");
    let glyphs = render_text("AA", None, |request| rasterize(&font, request));
    assert_eq!(glyphs.len(), 2);
    assert_eq!(glyphs[0].rows, square_rows(8));
    assert_eq!(glyphs[1].rows, square_rows(8));
}

#[test]
fn debug_rendering_draws_at_size_24() {
    let data = stub_font();
    let font = load_font(&data).expect("the stub font is a font");
    let (pictures, glyphs) = render_text_debug("A ", |request| rasterize(&font, request));
    assert_eq!(glyphs.len(), 2);
    assert_eq!(glyphs[0].rows, square_rows(6));
    assert_eq!(glyphs[1].rows, [0u32; 32]);
    let lines: Vec<&str> = pictures[0].split('\n').collect();
    assert_eq!(lines[0], "Character 'A' bitmap:");
    for y in 0..32 {
        let ink = if y < 6 { 12 } else { 0 };
        assert_eq!(lines[1 + y], format!("{}{}", "█".repeat(ink), " ".repeat(64 - ink)));
    }
    assert!(pictures[1].starts_with("Character ' ' bitmap:\n"));
}

#[test]
fn fresh_and_reused_fonts_give_the_same_bitmaps() {
    let data = stub_font();
    let kept = load_font(&data).expect("the stub font is a font");
    let first = render_text("A A", Some(24), |request| rasterize(&kept, request));
    let second = render_text("A A", Some(24), |request| rasterize(&kept, request));
    let fresh = load_font(&data).expect("the stub font is a font");
    let third = render_text("A A", Some(24), |request| rasterize(&fresh, request));
    assert_eq!(first, second);
    assert_eq!(first, third);
}
