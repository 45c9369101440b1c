//! The bitmap font: 16 pixels high, monospaced.

use noto_sans_mono_bitmap::{FontWeight, RasterHeight};
use vstd::prelude::*;

verus! {

/// Height of every glyph in pixels.
pub const CHAR_RASTER_HEIGHT: usize = 16;

/// Width of every glyph in pixels.
pub const CHAR_RASTER_WIDTH: usize = 7;

/// The picture of one character: rows of pixel intensities, from 0 (black) to 255 (white).
pub struct Glyph {
    pub rows: &'static [&'static [u8]],
    pub width: usize,
}

impl View for Glyph {
    type V = Seq<Seq<u8>>;

    open spec fn view(&self) -> Seq<Seq<u8>> {
        Seq::new(self.rows@.len(), |y: int| self.rows@[y]@)
    }
}

/// The rows form a box of the size that all glyphs of the font have.
pub open spec fn fills_raster_box(rows: Seq<Seq<u8>>) -> bool {
    &&& rows.len() == CHAR_RASTER_HEIGHT
    &&& forall|y: int| 0 <= y < rows.len() ==> (#[trigger] rows[y]).len() == CHAR_RASTER_WIDTH
}

/// The font has a picture of `c`: it covers the printable characters of ASCII.
pub open spec fn in_font(c: char) -> bool {
    0x20 <= c as u32 <= 0x7e
}

/// The pixel rows of `c` in the font, for a character that the font covers.
pub uninterp spec fn raster_rows(c: char) -> Seq<Seq<u8>>;

/// Looks `c` up with `noto_sans_mono_bitmap::get_raster`, in regular weight and 16 pixels height.
///
/// With the Unicode range "basic latin", the only one compiled in, it finds exactly the printable
/// ASCII characters. The pixels it returns for a character are always the same, in 16 rows of 7,
/// and 7 is also the width it reports.
#[verifier::external_body]
fn get_raster(c: char) -> (glyph: Option<Glyph>)
    ensures
        glyph is Some <==> in_font(c),
        glyph matches Some(g) ==> g@ == raster_rows(c),
        glyph matches Some(g) ==> fills_raster_box(g@),
        glyph matches Some(g) ==> g.width == CHAR_RASTER_WIDTH,
{
    let raster =
        noto_sans_mono_bitmap::get_raster(c, FontWeight::Regular, RasterHeight::Size16)?;
    Some(Glyph { rows: raster.raster(), width: raster.width() })
}

/// The width that `noto_sans_mono_bitmap::get_raster_width` reports for regular weight and
/// 16 pixels height.
#[verifier::external_body]
pub(crate) fn char_raster_width() -> (width: usize)
    ensures
        width == CHAR_RASTER_WIDTH,
{
    noto_sans_mono_bitmap::get_raster_width(FontWeight::Regular, RasterHeight::Size16)
}

/// The pixel rows that stand for `c` on the screen: a space for a character that the font does
/// not cover.
pub open spec fn glyph_rows(c: char) -> Seq<Seq<u8>> {
    if in_font(c) {
        raster_rows(c)
    } else {
        raster_rows(' ')
    }
}

/// The picture to draw for `c`; falls back to a space.
pub fn get_char_raster(c: char) -> (glyph: Glyph)
    ensures
        glyph@ == glyph_rows(c),
        fills_raster_box(glyph@),
        glyph.width == CHAR_RASTER_WIDTH,
        0x20 <= c as u32 <= 0x7e ==> glyph@ == raster_rows(c),
        !(0x20 <= c as u32 <= 0x7e) ==> glyph@ == raster_rows(' '),
        glyph.rows@.len() == 16,
        forall|y: int| 0 <= y < 16 ==> (#[trigger] glyph.rows@[y])@.len() == 7,
        forall|y: int| 0 <= y < 16 ==> (#[trigger] glyph.rows@[y])@ == glyph@[y],
{
    let glyph = match get_raster(c) {
        Some(glyph) => glyph,
        None => get_raster(' ').unwrap(),
    };
    assert forall|y: int| 0 <= y < 16 implies (#[trigger] glyph.rows@[y])@ == glyph@[y]
        && glyph@[y].len() == 7 by {
        assert(glyph@[y].len() == CHAR_RASTER_WIDTH);
    }
    glyph
}

/// Every printable ASCII character is shown by its own picture, and every other character by the
/// picture of a space.
pub proof fn law_pictures_of_characters(c: char)
    ensures
        glyph_rows(c) == if 0x20 <= c as u32 <= 0x7e {
            raster_rows(c)
        } else {
            raster_rows(' ')
        },
{
}

} // verus!
