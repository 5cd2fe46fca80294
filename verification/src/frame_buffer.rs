//! The writer: a text sink that owns a pixel buffer, keeps a cursor and two
//! colors, and draws characters and strings at the cursor.

use fontdue::Font;
use vstd::prelude::*;
use crate::color::{BLACK, WHITE};
use crate::flow::{
    after_char, after_clear, after_glyph, after_newline, after_placed, after_repeated, after_run,
    after_string, after_wrapped, as_size, BORDER_PADDING, bottom_edge, cursor_stamp, extent,
    FONT_SIZE, glyph_of, left_edge, LETTER_SPACING, LINE_HEIGHT_PERMILLE,
    LINE_SPACING, next_line_y, placed_stamp, right_edge, text_dimensions, text_frame, text_width,
    top_edge, usable, WriterState,
};
use crate::font::{Glyph, layout_text, LayoutBox, PositionedGlyph, rasterize};
use crate::pixel::encoded;
use crate::raster::{
    blitted, BufferGeometry, fill_pixels, filled, lemma_blit_below, load_bytes,
    pixel_set, render_bitmap, Stamp, write_pixel_at,
};
use crate::text::{is_control, split_words, texts, words_of};

verus! {

/// What went wrong in a call on the frame buffer.
#[derive(Debug, Clone, Copy, PartialEq, Eq, Structural)]
pub enum FrameBufferError {
    /// A cursor or pixel position lies outside the buffer's geometry.
    InvalidPosition,
    /// A coverage bitmap is shorter than its width times its height.
    BufferTooSmall,
}

/// Why a writer could not be made.
#[derive(Debug, Clone, Copy, PartialEq, Eq, Structural)]
pub enum InitError {
    /// The buffer's pixels are in a format that text cannot be drawn in.
    UnsupportedPixelFormat,
    /// The screen has no room for the border on both sides.
    ScreenTooSmall,
}

/// The reason, if there is one, for which no writer can be made for a
/// geometry.
pub open spec fn init_error(info: BufferGeometry) -> Option<InitError> {
    if !info.pixel_format.supported() {
        Some(InitError::UnsupportedPixelFormat)
    } else if info.width < 2 * BORDER_PADDING || info.height < 2 * BORDER_PADDING {
        Some(InitError::ScreenTooSmall)
    } else {
        None
    }
}

/// A text sink on a pixel buffer that it alone owns.
pub struct FrameBufferWriter {
    x_pos: usize,
    y_pos: usize,
    buffer: &'static mut [u8],
    info: BufferGeometry,
    font: Font,
    background_color: u32,
    foreground_color: u32,
}

impl View for FrameBufferWriter {
    type V = WriterState;

    closed spec fn view(&self) -> WriterState {
        WriterState {
            x: self.x_pos as int,
            y: self.y_pos as int,
            foreground: self.foreground_color,
            background: self.background_color,
            pixels: self.buffer@,
        }
    }
}

impl FrameBufferWriter {
    /// The geometry that the writer was made for.
    pub closed spec fn geometry(&self) -> BufferGeometry {
        self.info
    }

    /// The font that the writer draws in.
    pub closed spec fn typeface(&self) -> Font {
        self.font
    }

    /// What holds of every writer: its geometry is usable and its cursor is
    /// a visible pixel.
    pub open spec fn wf(&self) -> bool {
        &&& usable(self.geometry())
        &&& self.geometry().contains(self@.x, self@.y)
    }

    /// Whether `next` is this writer after a step to `state`: geometry and
    /// font are kept, and the writer is well formed.
    pub open spec fn steps_to(&self, next: &FrameBufferWriter, state: WriterState) -> bool {
        &&& next.wf()
        &&& next.geometry() == self.geometry()
        &&& next.typeface() == self.typeface()
        &&& next@ == state
    }

    /// Makes a writer that owns `buffer` and draws in `font`: white on black,
    /// the screen cleared, the cursor at the top left inside the border. A
    /// geometry that no writer can work on is refused before a byte of the
    /// buffer is written.
    pub fn new(buffer: &'static mut [u8], info: BufferGeometry, font: Font) -> (made: Result<
        FrameBufferWriter,
        InitError,
    >)
        ensures
            made is Err <==> init_error(info) is Some,
            made is Err ==> Some(made->Err_0) == init_error(info),
            made is Err ==> final(buffer)@ == old(buffer)@,
            made is Ok ==> made->Ok_0.wf() && made->Ok_0.geometry() == info
                && made->Ok_0.typeface() == font && made->Ok_0@ == (WriterState {
                x: BORDER_PADDING as int,
                y: BORDER_PADDING as int,
                foreground: WHITE,
                background: BLACK,
                pixels: filled(old(buffer)@, info, BLACK),
            }),
    {
        if !info.pixel_format.is_supported() {
            return Err(InitError::UnsupportedPixelFormat);
        }
        if info.width < 2 * BORDER_PADDING || info.height < 2 * BORDER_PADDING {
            return Err(InitError::ScreenTooSmall);
        }
        let mut writer = FrameBufferWriter {
            x_pos: BORDER_PADDING,
            y_pos: BORDER_PADDING,
            buffer,
            info,
            font,
            background_color: BLACK,
            foreground_color: WHITE,
        };
        writer.clear();
        Ok(writer)
    }

    /// Fills the screen with the background color and moves the cursor to
    /// the top left inside the border.
    pub fn clear(&mut self)
        requires
            old(self).wf(),
        ensures
            old(self).steps_to(final(self), after_clear(old(self)@, old(self).geometry())),
    {
        self.fill_screen(self.background_color);
        self.reset_cursor();
    }

    /// Writes `color` to every visible pixel.
    pub fn fill_screen(&mut self, color: u32)
        requires
            old(self).wf(),
        ensures
            old(self).steps_to(
                final(self),
                WriterState {
                    pixels: filled(old(self)@.pixels, old(self).geometry(), color),
                    ..old(self)@
                },
            ),
    {
        fill_pixels(self.buffer, &self.info, color);
    }

    /// Moves the cursor to the top left inside the border.
    pub fn reset_cursor(&mut self)
        requires
            old(self).wf(),
        ensures
            old(self).steps_to(
                final(self),
                WriterState { x: BORDER_PADDING as int, y: BORDER_PADDING as int, ..old(self)@ },
            ),
    {
        self.x_pos = BORDER_PADDING;
        self.y_pos = BORDER_PADDING;
    }

    /// Moves the cursor to `(x, y)`. A position off the screen is refused
    /// and the cursor stays.
    pub fn set_position(&mut self, x: usize, y: usize) -> (result: Result<(), FrameBufferError>)
        requires
            old(self).wf(),
        ensures
            result is Err <==> !old(self).geometry().contains(x as int, y as int),
            result is Err ==> result == Err::<(), _>(FrameBufferError::InvalidPosition)
                && old(self).steps_to(final(self), old(self)@),
            result is Ok ==> old(self).steps_to(
                final(self),
                WriterState { x: x as int, y: y as int, ..old(self)@ },
            ),
    {
        if x >= self.info.width || y >= self.info.height {
            return Err(FrameBufferError::InvalidPosition);
        }
        self.x_pos = x;
        self.y_pos = y;
        Ok(())
    }

    /// The cursor.
    pub fn get_position(&self) -> (position: (usize, usize))
        ensures
            position.0 == self@.x,
            position.1 == self@.y,
    {
        (self.x_pos, self.y_pos)
    }

    /// Sets the color that text is drawn in.
    pub fn set_foreground_color(&mut self, color: u32)
        requires
            old(self).wf(),
        ensures
            old(self).steps_to(final(self), WriterState { foreground: color, ..old(self)@ }),
    {
        self.foreground_color = color;
    }

    /// Sets the color that text is drawn on.
    pub fn set_background_color(&mut self, color: u32)
        requires
            old(self).wf(),
        ensures
            old(self).steps_to(final(self), WriterState { background: color, ..old(self)@ }),
    {
        self.background_color = color;
    }

    /// Moves the cursor to the start of the next line, or of the first line
    /// where the next would not hold a glyph.
    pub fn newline(&mut self) -> (result: Result<(), FrameBufferError>)
        requires
            old(self).wf(),
        ensures
            result == Ok::<(), FrameBufferError>(()),
            old(self).steps_to(final(self), after_newline(old(self)@, old(self).geometry())),
    {
        let below: usize = self.line_below(self.y_pos);
        self.x_pos = BORDER_PADDING;
        self.y_pos = below;
        Ok(())
    }

    /// The y coordinate of the line below the line at `y`.
    fn line_below(&self, y: usize) -> (below: usize)
        requires
            usable(self.geometry()),
        ensures
            below == next_line_y(self.geometry(), y as int),
            below < self.geometry().height,
    {
        let limit: usize = self.info.height - BORDER_PADDING;
        let size: usize = FONT_SIZE as usize;
        let below: usize = y.saturating_add(size + LINE_SPACING);
        if below > limit || size > limit - below {
            BORDER_PADDING
        } else {
            below
        }
    }

    /// Draws a rasterized glyph at the cursor and moves the cursor past it.
    pub fn render_glyph(&mut self, glyph: &Glyph) -> (result: Result<(), FrameBufferError>)
        requires
            old(self).wf(),
        ensures
            result == after_glyph(old(self)@, old(self).geometry(), glyph@).1,
            old(self).steps_to(
                final(self),
                after_glyph(old(self)@, old(self).geometry(), glyph@).0,
            ),
    {
        let lift: usize = if glyph.ymin > 0 {
            glyph.ymin as usize
        } else {
            0
        };
        let render_y: usize = self.y_pos.saturating_add(lift);
        proof {
            let wanted = cursor_stamp(self@, glyph@);
            let drawn = Stamp { y: render_y as int, ..wanted };
            if wanted.y != drawn.y {
                lemma_blit_below(self@.pixels, self.geometry(), wanted);
                lemma_blit_below(self@.pixels, self.geometry(), drawn);
            }
        }
        match self.render_bitmap_at(
            self.x_pos,
            render_y,
            glyph.coverage.as_slice(),
            glyph.width,
            glyph.height,
        ) {
            Err(e) => {
                return Err(e);
            },
            Ok(()) => {},
        }
        let moved: usize = self.x_pos.saturating_add(glyph.advance).saturating_add(LETTER_SPACING);
        if moved > self.info.width - BORDER_PADDING {
            self.newline()
        } else {
            self.x_pos = moved;
            Ok(())
        }
    }

    /// The font's glyph for a character at the size that text is drawn at.
    pub fn rasterize_char(&self, ch: char) -> (glyph: Glyph)
        ensures
            glyph@ == glyph_of(self.typeface(), ch),
            !glyph@.short(),
    {
        rasterize(&self.font, ch, FONT_SIZE)
    }

    /// Rasterizes a character and draws it at the cursor.
    fn render_character(&mut self, ch: char) -> (result: Result<(), FrameBufferError>)
        requires
            old(self).wf(),
        ensures
            result is Ok,
            result == after_glyph(
                old(self)@,
                old(self).geometry(),
                glyph_of(old(self).typeface(), ch),
            ).1,
            old(self).steps_to(
                final(self),
                after_glyph(old(self)@, old(self).geometry(), glyph_of(old(self).typeface(), ch)).0,
            ),
    {
        let glyph = self.rasterize_char(ch);
        self.render_glyph(&glyph)
    }

    /// Writes one character at the cursor.
    pub fn write_char(&mut self, ch: char) -> (result: Result<(), FrameBufferError>)
        requires
            old(self).wf(),
        ensures
            result is Ok,
            result == after_char(old(self)@, old(self).geometry(), old(self).typeface(), ch).1,
            old(self).steps_to(
                final(self),
                after_char(old(self)@, old(self).geometry(), old(self).typeface(), ch).0,
            ),
    {
        if ch == '\n' {
            self.newline()
        } else if ch == '\r' {
            self.x_pos = BORDER_PADDING;
            Ok(())
        } else if ch == '\t' {
            let ghost space = glyph_of(self.typeface(), ' ');
            let mut done: usize = 0;
            while done < 4
                invariant
                    ch == '\t',
                    done <= 4,
                    space == glyph_of(old(self).typeface(), ' '),
                    old(self).steps_to(self, self@),
                    after_repeated(self@, self.geometry(), space, (4 - done) as nat)
                        == after_repeated(old(self)@, old(self).geometry(), space, 4),
                decreases 4 - done,
            {
                let ghost before = self@;
                match self.render_character(' ') {
                    Err(e) => {
                        assert(after_repeated(before, self.geometry(), space, (4 - done) as nat)
                            == after_glyph(before, self.geometry(), space));
                        return Err(e);
                    },
                    Ok(()) => {},
                }
                assert(after_repeated(before, self.geometry(), space, (4 - done) as nat)
                    == after_repeated(self@, self.geometry(), space, (4 - done - 1) as nat));
                done += 1;
            }
            Ok(())
        } else if is_control(ch) {
            Ok(())
        } else {
            self.render_character(ch)
        }
    }

    /// Rasterizes the character of a positioned glyph and draws it at the
    /// glyph's place.
    fn render_glyph_at_position(&mut self, placed: &PositionedGlyph) -> (result: Result<
        (),
        FrameBufferError,
    >)
        requires
            old(self).wf(),
        ensures
            result is Ok,
            !glyph_of(old(self).typeface(), placed.parent).short(),
            old(self).steps_to(
                final(self),
                WriterState {
                    pixels: blitted(
                        old(self)@.pixels,
                        old(self).geometry(),
                        placed_stamp(old(self)@, old(self).typeface(), *placed),
                    ),
                    ..old(self)@
                },
            ),
    {
        let glyph = self.rasterize_char(placed.parent);
        let x: usize = if placed.x > 0 {
            placed.x as usize
        } else {
            0
        };
        let y: usize = if placed.y > 0 {
            placed.y as usize
        } else {
            0
        };
        self.render_bitmap_at(x, y, glyph.coverage.as_slice(), glyph.width, glyph.height)
    }

    /// Draws a run of positioned glyphs in order and moves the cursor to the
    /// end of the run.
    pub fn render_glyphs(&mut self, glyphs: &Vec<PositionedGlyph>) -> (result: Result<
        (),
        FrameBufferError,
    >)
        requires
            old(self).wf(),
        ensures
            result is Ok,
            result == after_run(old(self)@, old(self).geometry(), old(self).typeface(), glyphs@).1,
            old(self).steps_to(
                final(self),
                after_run(old(self)@, old(self).geometry(), old(self).typeface(), glyphs@).0,
            ),
    {
        let n: usize = glyphs.len();
        let mut i: usize = 0;
        while i < n
            invariant
                n == glyphs@.len(),
                i <= n,
                old(self).steps_to(self, WriterState { pixels: self@.pixels, ..old(self)@ }),
                after_placed(
                    old(self)@,
                    old(self).geometry(),
                    old(self).typeface(),
                    glyphs@,
                    i as nat,
                ) == (self@.pixels, Ok::<(), FrameBufferError>(())),
            decreases n - i,
        {
            match self.render_glyph_at_position(&glyphs[i]) {
                Err(e) => {
                    return Err(e);
                },
                Ok(()) => {},
            }
            i += 1;
        }
        if n == 0 {
            return Ok(());
        }
        let last: PositionedGlyph = glyphs[n - 1];
        let end_x: i128 = last.x as i128 + last.width as i128;
        let end_y: usize = if last.y > 0 {
            last.y as usize
        } else {
            0
        };
        if 0 <= end_x && end_x < self.info.width as i128 && end_y < self.info.height {
            self.x_pos = end_x as usize;
            self.y_pos = end_y;
        } else if end_x < 0 && end_y < self.info.height {
            self.x_pos = 0;
            self.y_pos = end_y;
        } else {
            let below: usize = self.line_below(end_y);
            self.x_pos = BORDER_PADDING;
            self.y_pos = below;
        }
        Ok(())
    }

    /// Writes a text in one layout from the cursor on, and moves the cursor
    /// to its end.
    pub fn write_string(&mut self, text: &str) -> (result: Result<(), FrameBufferError>)
        requires
            old(self).wf(),
        ensures
            result is Ok,
            result == after_string(
                old(self)@,
                old(self).geometry(),
                old(self).typeface(),
                text@,
            ).1,
            old(self).steps_to(
                final(self),
                after_string(old(self)@, old(self).geometry(), old(self).typeface(), text@).0,
            ),
    {
        if text.is_empty() {
            return Ok(());
        }
        let frame = LayoutBox {
            x: self.x_pos,
            y: self.y_pos,
            max_width: Some(self.info.width - self.x_pos - BORDER_PADDING),
            max_height: Some(self.info.height - self.y_pos - BORDER_PADDING),
            line_height_permille: LINE_HEIGHT_PERMILLE,
        };
        assert(frame == text_frame(self@, self.geometry()));
        let glyphs = layout_text(&self.font, text, FONT_SIZE, &frame);
        self.render_glyphs(&glyphs)
    }

    /// Writes a text word by word and breaks the line before a word that
    /// does not fit.
    pub fn write_string_wrapped(&mut self, text: &str) -> (result: Result<(), FrameBufferError>)
        requires
            old(self).wf(),
        ensures
            result is Ok,
            result == after_wrapped(
                old(self)@,
                old(self).geometry(),
                old(self).typeface(),
                words_of(text@),
                0,
            ).1,
            old(self).steps_to(
                final(self),
                after_wrapped(
                    old(self)@,
                    old(self).geometry(),
                    old(self).typeface(),
                    words_of(text@),
                    0,
                ).0,
            ),
    {
        let words = split_words(text);
        let ghost list = words_of(text@);
        let n: usize = words.len();
        let mut i: usize = 0;
        while i < n
            invariant
                n == words@.len(),
                list == words_of(text@),
                texts(words@) == list,
                i <= n,
                old(self).steps_to(self, self@),
                after_wrapped(self@, self.geometry(), self.typeface(), list, i as nat)
                    == after_wrapped(
                    old(self)@,
                    old(self).geometry(),
                    old(self).typeface(),
                    list,
                    0,
                ),
            decreases n - i,
        {
            let ghost before = self@;
            let word: &str = words[i];
            assert(word@ == list[i as int]);
            let word_width: usize = self.calculate_text_width(word);
            let room: usize = self.info.width - self.x_pos - BORDER_PADDING;
            if word_width > room {
                let _ = self.newline();
            }
            match self.write_string(word) {
                Err(e) => {
                    return Err(e);
                },
                Ok(()) => {},
            }
            if i + 1 < n {
                proof {
                    reveal_strlit(" ");
                    assert(" "@ =~= seq![' ']);
                }
                let next: &str = words[i + 1];
                assert(next@ == list[i + 1]);
                let space_width: usize = self.calculate_text_width(" ");
                let next_width: usize = self.calculate_text_width(next);
                let reach: usize = self.x_pos.saturating_add(space_width).saturating_add(
                    next_width,
                );
                if reach > self.info.width - BORDER_PADDING {
                    let _ = self.newline();
                } else {
                    match self.write_char(' ') {
                        Err(e) => {
                            return Err(e);
                        },
                        Ok(()) => {},
                    }
                }
            }
            i += 1;
        }
        Ok(())
    }

    /// The width and height of a text laid out on one line.
    pub fn calculate_text_dimensions(&self, text: &str) -> (dimensions: (usize, usize))
        ensures
            dimensions == text_dimensions(self.typeface(), text@),
    {
        if text.is_empty() {
            return (0, 0);
        }
        let frame = LayoutBox {
            x: 0,
            y: 0,
            max_width: None,
            max_height: None,
            line_height_permille: 1000,
        };
        let glyphs = layout_text(&self.font, text, FONT_SIZE, &frame);
        glyph_extent(&glyphs)
    }

    /// The width of a text laid out on one line.
    pub fn calculate_text_width(&self, text: &str) -> (width: usize)
        ensures
            width == text_width(self.typeface(), text@),
    {
        self.calculate_text_dimensions(text).0
    }

    /// Tells whether a text laid out on one line is at most `available_width`
    /// wide.
    pub fn will_text_fit(&self, text: &str, available_width: usize) -> (fits: bool)
        ensures
            fits == (text_width(self.typeface(), text@) <= available_width),
    {
        let text_width: usize = self.calculate_text_width(text);
        text_width <= available_width
    }

    /// Writes `color` to the pixel at `(x, y)`. A position off the screen is
    /// refused and leaves every byte as it was.
    pub fn write_pixel_at(&mut self, x: usize, y: usize, color: u32) -> (result: Result<
        (),
        FrameBufferError,
    >)
        requires
            old(self).wf(),
        ensures
            result is Err <==> !old(self).geometry().contains(x as int, y as int),
            result is Err ==> result == Err::<(), _>(FrameBufferError::InvalidPosition)
                && old(self).steps_to(final(self), old(self)@),
            result is Ok ==> old(self).steps_to(
                final(self),
                WriterState {
                    pixels: pixel_set(
                        old(self)@.pixels,
                        old(self).geometry(),
                        x as int,
                        y as int,
                        color,
                    ),
                    ..old(self)@
                },
            ),
    {
        write_pixel_at(self.buffer, &self.info, x, y, color)
    }

    /// Draws a coverage bitmap of `width` by `height` values with its top
    /// left corner at `(x, y)`, in the foreground color over the background
    /// color. A bitmap shorter than `width * height` is refused and nothing
    /// is drawn.
    pub fn render_bitmap_at(
        &mut self,
        x: usize,
        y: usize,
        bitmap: &[u8],
        width: usize,
        height: usize,
    ) -> (result: Result<(), FrameBufferError>)
        requires
            old(self).wf(),
        ensures
            result is Err <==> bitmap@.len() < width * height,
            result is Err ==> result == Err::<(), _>(FrameBufferError::BufferTooSmall)
                && old(self).steps_to(final(self), old(self)@),
            result is Ok ==> old(self).steps_to(
                final(self),
                WriterState {
                    pixels: blitted(
                        old(self)@.pixels,
                        old(self).geometry(),
                        Stamp {
                            x: x as int,
                            y: y as int,
                            coverage: bitmap@,
                            width: width as nat,
                            height: height as nat,
                            foreground: old(self)@.foreground,
                            background: old(self)@.background,
                        },
                    ),
                    ..old(self)@
                },
            ),
    {
        render_bitmap(
            self.buffer,
            &self.info,
            x,
            y,
            bitmap,
            width,
            height,
            self.foreground_color,
            self.background_color,
        )
    }

    /// The bytes that the buffer holds for the pixel at `(x, y)`: as many as
    /// an encoded pixel has. Gives `None` for a position off the screen and
    /// for a pixel that does not lie in the buffer as a whole.
    pub fn pixel_bytes_at(&self, x: usize, y: usize) -> (bytes: Option<Vec<u8>>)
        ensures
            bytes is Some <==> self.geometry().contains(x as int, y as int) && self.geometry().fits(
                self.geometry().pixel_offset(x as int, y as int),
                self@.pixels.len() as int,
            ),
            bytes is Some ==> bytes->0@ == self@.pixels.subrange(
                self.geometry().pixel_offset(x as int, y as int),
                self.geometry().pixel_offset(x as int, y as int) + encoded(
                    self.geometry().pixel_format,
                    self.geometry().bytes_per_pixel as nat,
                    0,
                ).len(),
            ),
    {
        if x >= self.info.width || y >= self.info.height {
            return None;
        }
        match self.info.slot(x, y, self.buffer.len()) {
            Some(offset) => {
                let count: usize = if self.info.bytes_per_pixel < 4 {
                    self.info.bytes_per_pixel
                } else {
                    4
                };
                Some(load_bytes(self.buffer, offset, count))
            },
            None => None,
        }
    }
}

/// The width and height of the smallest box around all the glyphs.
pub fn glyph_extent(glyphs: &Vec<PositionedGlyph>) -> (dimensions: (usize, usize))
    ensures
        dimensions == extent(glyphs@),
{
    let n: usize = glyphs.len();
    if n == 0 {
        return (0, 0);
    }
    let first: PositionedGlyph = glyphs[0];
    let mut left: i128 = first.x as i128;
    let mut right: i128 = first.x as i128 + first.width as i128;
    let mut top: i128 = first.y as i128;
    let mut bottom: i128 = first.y as i128 + first.height as i128;
    let mut i: usize = 1;
    while i < n
        invariant
            n == glyphs@.len(),
            1 <= i <= n,
            left == left_edge(glyphs@, i as nat),
            right == right_edge(glyphs@, i as nat),
            top == top_edge(glyphs@, i as nat),
            bottom == bottom_edge(glyphs@, i as nat),
            -0x8000_0000 <= left <= 0x7FFF_FFFF,
            -0x8000_0000 <= top <= 0x7FFF_FFFF,
            -0x8000_0000 <= right <= 0x7FFF_FFFF + usize::MAX,
            -0x8000_0000 <= bottom <= 0x7FFF_FFFF + usize::MAX,
        decreases n - i,
    {
        let glyph: PositionedGlyph = glyphs[i];
        let x: i128 = glyph.x as i128;
        let y: i128 = glyph.y as i128;
        if x < left {
            left = x;
        }
        if x + glyph.width as i128 > right {
            right = x + glyph.width as i128;
        }
        if y < top {
            top = y;
        }
        if y + glyph.height as i128 > bottom {
            bottom = y + glyph.height as i128;
        }
        i += 1;
    }
    (clip_size(right - left), clip_size(bottom - top))
}

/// A size as a machine integer: what does not fit is cut to the largest.
fn clip_size(v: i128) -> (size: usize)
    ensures
        size == as_size(v as int),
{
    if v < 0 {
        0
    } else if v > usize::MAX as i128 {
        usize::MAX
    } else {
        v as usize
    }
}

} // verus!
