//! Reading the font out of the bytes of a font file.
//!
//! The font is rusttype's. The library does not look inside one: it hands
//! the font on to whoever rasterizes with it.

use vstd::prelude::*;
use vstd::string::StringExecFns;

verus! {

/// `rusttype::Font`, as a value that is carried and not looked into:
/// nothing is said of what a font holds.
#[verifier::external_type_specification]
#[verifier::external_body]
pub struct ExFont<'a>(rusttype::Font<'a>);

/// Whether rusttype takes `data` for a font: whether
/// `rusttype::Font::try_from_bytes` returns a font for these bytes.
pub uninterp spec fn is_font_data(data: Seq<u8>) -> bool;

/// `rusttype::Font::try_from_bytes`: reads the font in `data`, the first one
/// where `data` is a collection, and returns `None` where it finds none that
/// it can read. Whether it finds one depends on the bytes alone.
#[verifier::external_body]
fn parse_font<'a>(data: &'a [u8]) -> (font: Option<rusttype::Font<'a>>)
    ensures
        font is Some <==> is_font_data(data@),
{
    rusttype::Font::try_from_bytes(data)
}

/// Why no font could be had from the bytes given. Without a font nothing
/// can be drawn.
#[derive(Clone, Copy, Debug, PartialEq, Eq)]
pub enum FontError {
    /// There are no bytes at all.
    Absent,
    /// The bytes are cut short, or are no font of a format that is read.
    Unrecognized,
}

impl FontError {
    /// What went wrong, in words.
    pub open spec fn describe_spec(self) -> Seq<char> {
        match self {
            FontError::Absent => "Failed to load font: the font data is empty"@,
            FontError::Unrecognized => "Failed to load font: the font data is not a readable font"@,
        }
    }

    /// What went wrong, in words.
    pub fn describe(&self) -> (text: String)
        ensures
            text@ == self.describe_spec(),
    {
        match self {
            FontError::Absent => String::from_str("Failed to load font: the font data is empty"),
            FontError::Unrecognized => String::from_str(
                "Failed to load font: the font data is not a readable font",
            ),
        }
    }
}

/// Reads the font in `data`.
pub fn load_font<'a>(data: &'a [u8]) -> (loaded: Result<rusttype::Font<'a>, FontError>)
    ensures
        loaded is Ok <==> data@.len() > 0 && is_font_data(data@),
        loaded matches Err(error) ==> (error == FontError::Absent <==> data@.len() == 0),
{
    if data.len() == 0 {
        return Err(FontError::Absent);
    }
    match parse_font(data) {
        Some(font) => Ok(font),
        None => Err(FontError::Unrecognized),
    }
}

} // verus!
