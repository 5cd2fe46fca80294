//! Glyph rasterization and text layout, both done by the `fontdue` crate.
//!
//! The library holds what it reads of a rasterized or positioned glyph as
//! plain integers. What `fontdue` computes is not proved here: it has a name
//! in contracts, and the functions below are believed to return it.

use core::time::Duration;
use fontdue::Font;
use fontdue::layout::{CoordinateSystem, Layout, LayoutSettings, TextStyle};
use vstd::prelude::*;

verus! {

/// A parsed font of the `fontdue` crate. Whoever makes a writer parses the
/// font and hands it over; it does not change once it is made.
#[verifier::external_type_specification]
#[verifier::external_body]
pub struct ExFont(Font);

/// A rasterized glyph: its metrics in whole pixels and its coverage bitmap.
#[derive(Debug, Clone, PartialEq, Eq)]
pub struct Glyph {
    /// Width of the bitmap.
    pub width: usize,
    /// Height of the bitmap.
    pub height: usize,
    /// How far the cursor moves to the right after the glyph.
    pub advance: usize,
    /// Offset of the bottom edge of the bitmap from the baseline.
    pub ymin: i32,
    /// One alpha value for each pixel of the bitmap, in rows from the top:
    /// 0 is transparent, 255 is opaque.
    pub coverage: Vec<u8>,
}

/// What a `Glyph` holds, as mathematical values.
pub struct GlyphModel {
    pub width: nat,
    pub height: nat,
    pub advance: nat,
    pub ymin: int,
    pub coverage: Seq<u8>,
}

impl View for Glyph {
    type V = GlyphModel;

    open spec fn view(&self) -> GlyphModel {
        GlyphModel {
            width: self.width as nat,
            height: self.height as nat,
            advance: self.advance as nat,
            ymin: self.ymin as int,
            coverage: self.coverage@,
        }
    }
}

impl GlyphModel {
    /// Whether the bitmap is shorter than its width times its height.
    pub open spec fn short(self) -> bool {
        self.coverage.len() < self.width * self.height
    }
}

/// A glyph that the layout has given a place: the character it stands for
/// and the box of its bitmap. The position is that of the top left corner
/// and may lie left of or above the origin.
#[derive(Debug, Clone, Copy, PartialEq, Eq)]
pub struct PositionedGlyph {
    pub parent: char,
    pub x: i32,
    pub y: i32,
    pub width: usize,
    pub height: usize,
}

/// The region that a text is laid out in: its top left corner, its width and
/// its height where it has a bound, and the height of a line in thousandths
/// of the font's own line height.
#[derive(Debug, Clone, Copy)]
pub struct LayoutBox {
    pub x: usize,
    pub y: usize,
    pub max_width: Option<usize>,
    pub max_height: Option<usize>,
    pub line_height_permille: u16,
}

/// The glyphs of a font: what `fontdue` rasterizes for each character at
/// each size in pixels.
pub uninterp spec fn font_glyphs(font: Font) -> Map<(char, u16), GlyphModel>;

/// The layouts of a font: the glyphs that `fontdue` positions for each text
/// at each size in pixels in each region, the y axis pointing down.
pub uninterp spec fn font_layouts(font: Font) -> Map<
    (Seq<char>, u16, LayoutBox),
    Seq<PositionedGlyph>,
>;

/// The glyphs that `fontdue` positions for `text` at `size` pixels in the
/// region `frame`: one entry for each character that it places, in the
/// order of the text.
pub open spec fn laid_out(font: Font, text: Seq<char>, size: u16, frame: LayoutBox) -> Seq<
    PositionedGlyph,
> {
    font_layouts(font)[(text, size, frame)]
}

/// Rasterizes one character with `fontdue::Font::rasterize`. The result is
/// the font's glyph for that character and size, the same at every call,
/// and its bitmap has one value for each pixel of its width times its
/// height; the advance is cut to whole pixels.
#[verifier::external_body]
pub(crate) fn rasterize(font: &Font, ch: char, size: u16) -> (glyph: Glyph)
    ensures
        glyph@ == font_glyphs(*font)[(ch, size)],
        glyph@.coverage.len() == glyph@.width * glyph@.height,
{
    let (metrics, coverage) = font.rasterize(ch, size.into());
    Glyph {
        width: metrics.width,
        height: metrics.height,
        advance: metrics.advance_width as usize,
        ymin: metrics.ymin,
        coverage,
    }
}

/// Lays a text out with `fontdue::layout::Layout`: a fresh layout with the
/// y axis pointing down (`Layout::new`) is reset to the region
/// (`Layout::reset`), the text is appended in the one font
/// (`Layout::append`), and the positioned glyphs (`Layout::glyphs`) are
/// handed back with their whole-pixel positions as integers. The line height
/// goes in as a factor: the thousandths are read as milliseconds and taken
/// as seconds. All other settings are `fontdue`'s defaults. The result
/// depends on the arguments alone.
#[verifier::external_body]
pub(crate) fn layout_text(font: &Font, text: &str, size: u16, frame: &LayoutBox) -> (glyphs: Vec<
    PositionedGlyph,
>)
    ensures
        glyphs@ == font_layouts(*font)[(text@, size, *frame)],
{
    let mut layout = Layout::new(CoordinateSystem::PositiveYDown);
    layout.reset(&LayoutSettings {
        x: frame.x as _,
        y: frame.y as _,
        max_width: frame.max_width.map(|w| w as _),
        max_height: frame.max_height.map(|h| h as _),
        line_height: Duration::from_millis(frame.line_height_permille.into()).as_secs_f32(),
        ..LayoutSettings::default()
    });
    layout.append(&[font], &TextStyle::new(text, size.into(), 0));
    layout.glyphs().iter().map(|g| PositionedGlyph {
        parent: g.parent, x: g.x as i32, y: g.y as i32, width: g.width, height: g.height,
    }).collect()
}

} // verus!
