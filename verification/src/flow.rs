//! The text flow as mathematics: what each operation of the writer does to
//! the cursor, the colors and the pixels.

use fontdue::Font;
use vstd::prelude::*;
use crate::font::{font_glyphs, GlyphModel, laid_out, LayoutBox, PositionedGlyph};
use crate::frame_buffer::FrameBufferError;
use crate::color::blend;
use crate::raster::{
    blitted, BufferGeometry, cell_drawn, filled, lemma_blit_draws_cell, lemma_fill_twice,
    lemma_filled_shows_color, shows, Stamp,
};
use crate::text::control;

verus! {

/// Empty pixels between a glyph and the next.
pub const LETTER_SPACING: usize = 1;

/// Empty rows between a line and the next.
pub const LINE_SPACING: usize = 2;

/// Pixels kept free along every edge of the screen.
pub const BORDER_PADDING: usize = 1;

/// The one size, in pixels, that text is drawn at.
pub const FONT_SIZE: u16 = 16;

/// The height of a line inside a laid out text, in thousandths of the font's
/// own line height.
pub const LINE_HEIGHT_PERMILLE: u16 = 1200;

/// The state of a writer: the cursor, the two colors and the bytes of the
/// pixel buffer.
pub struct WriterState {
    pub x: int,
    pub y: int,
    pub foreground: u32,
    pub background: u32,
    pub pixels: Seq<u8>,
}

/// What an operation leaves behind: the new state and what it returns.
pub type Outcome = (WriterState, Result<(), FrameBufferError>);

/// The geometries that a writer can work on: pixels in a supported format,
/// and room for the border on both sides in each direction.
pub open spec fn usable(geometry: BufferGeometry) -> bool {
    &&& geometry.pixel_format.supported()
    &&& geometry.width >= 2 * BORDER_PADDING
    &&& geometry.height >= 2 * BORDER_PADDING
}

/// The y coordinate of the line below the line at `y`: one glyph height and
/// the line spacing further down, or back at the top border where a glyph
/// on that line would reach below the bottom border.
pub open spec fn next_line_y(geometry: BufferGeometry, y: int) -> int {
    let below = y + FONT_SIZE + LINE_SPACING;
    if below + FONT_SIZE > geometry.height - BORDER_PADDING {
        BORDER_PADDING as int
    } else {
        below
    }
}

/// The state after a line break: the cursor at the left border of the next
/// line.
pub open spec fn after_newline(state: WriterState, geometry: BufferGeometry) -> WriterState {
    WriterState { x: BORDER_PADDING as int, y: next_line_y(geometry, state.y), ..state }
}

/// The state after the screen was cleared: every visible pixel in the
/// background color, the cursor at the top left inside the border.
pub open spec fn after_clear(state: WriterState, geometry: BufferGeometry) -> WriterState {
    WriterState {
        x: BORDER_PADDING as int,
        y: BORDER_PADDING as int,
        pixels: filled(state.pixels, geometry, state.background),
        ..state
    }
}

/// Clearing a cleared screen changes nothing.
pub proof fn lemma_clear_twice(state: WriterState, geometry: BufferGeometry)
    ensures
        after_clear(after_clear(state, geometry), geometry) == after_clear(state, geometry),
{
    lemma_fill_twice(state.pixels, geometry, state.background);
}

/// On a cleared screen every visible pixel shows the background color, and
/// the cursor stands at the top left inside the border.
pub proof fn lemma_cleared_shows_background(
    state: WriterState,
    geometry: BufferGeometry,
    x: int,
    y: int,
)
    requires
        geometry.contains(x, y),
    ensures
        shows(after_clear(state, geometry).pixels, geometry, x, y, state.background),
        after_clear(state, geometry).x == BORDER_PADDING,
        after_clear(state, geometry).y == BORDER_PADDING,
{
    lemma_filled_shows_color(state.pixels, geometry, state.background, x, y);
}

/// The stamp of a glyph drawn at the cursor: it is moved down by the
/// glyph's offset from the baseline where that is positive.
pub open spec fn cursor_stamp(state: WriterState, glyph: GlyphModel) -> Stamp {
    Stamp {
        x: state.x,
        y: state.y + if glyph.ymin > 0 {
            glyph.ymin
        } else {
            0
        },
        coverage: glyph.coverage,
        width: glyph.width,
        height: glyph.height,
        foreground: state.foreground,
        background: state.background,
    }
}

/// The outcome of drawing a glyph at the cursor. A glyph with a short bitmap
/// is refused and changes nothing. Any other is drawn, and the cursor moves
/// right by its advance and the letter spacing, and on to the next line
/// where that takes it past the right border.
pub open spec fn after_glyph(
    state: WriterState,
    geometry: BufferGeometry,
    glyph: GlyphModel,
) -> Outcome {
    if glyph.short() {
        (state, Err(FrameBufferError::BufferTooSmall))
    } else {
        let drawn = WriterState {
            x: state.x + glyph.advance + LETTER_SPACING,
            pixels: blitted(state.pixels, geometry, cursor_stamp(state, glyph)),
            ..state
        };
        if drawn.x > geometry.width - BORDER_PADDING {
            (after_newline(drawn, geometry), Ok(()))
        } else {
            (drawn, Ok(()))
        }
    }
}

/// The outcome of drawing the same glyph `times` times in a row, stopping at
/// the first refusal.
pub open spec fn after_repeated(
    state: WriterState,
    geometry: BufferGeometry,
    glyph: GlyphModel,
    times: nat,
) -> Outcome
    decreases times,
{
    if times == 0 {
        (state, Ok(()))
    } else {
        let first = after_glyph(state, geometry, glyph);
        if first.1 is Err {
            first
        } else {
            after_repeated(first.0, geometry, glyph, (times - 1) as nat)
        }
    }
}

/// The font's glyph for `ch` at the size that text is drawn at.
pub open spec fn glyph_of(font: Font, ch: char) -> GlyphModel {
    font_glyphs(font)[(ch, FONT_SIZE)]
}

/// The outcome of writing one character. A line feed breaks the line, a
/// carriage return moves the cursor to the left border, a tab is four
/// spaces, any other control character does nothing, and every other
/// character is drawn as its glyph.
pub open spec fn after_char(
    state: WriterState,
    geometry: BufferGeometry,
    font: Font,
    ch: char,
) -> Outcome {
    if ch == '\n' {
        (after_newline(state, geometry), Ok(()))
    } else if ch == '\r' {
        (WriterState { x: BORDER_PADDING as int, ..state }, Ok(()))
    } else if ch == '\t' {
        after_repeated(state, geometry, glyph_of(font, ' '), 4)
    } else if control(ch) {
        (state, Ok(()))
    } else {
        after_glyph(state, geometry, glyph_of(font, ch))
    }
}

/// A coordinate of the layout as a screen coordinate: what lies left of or
/// above the origin is moved onto it.
pub open spec fn on_screen(v: int) -> int {
    if v < 0 {
        0
    } else {
        v
    }
}

/// The stamp of a positioned glyph: the font's glyph for its character at
/// the place that the layout gave it.
pub open spec fn placed_stamp(state: WriterState, font: Font, placed: PositionedGlyph) -> Stamp {
    let glyph = glyph_of(font, placed.parent);
    Stamp {
        x: on_screen(placed.x as int),
        y: on_screen(placed.y as int),
        coverage: glyph.coverage,
        width: glyph.width,
        height: glyph.height,
        foreground: state.foreground,
        background: state.background,
    }
}

/// The pixels after the first `count` positioned glyphs were drawn in
/// order, and whether one of them was refused for a short bitmap: the
/// drawing stops there.
pub open spec fn after_placed(
    state: WriterState,
    geometry: BufferGeometry,
    font: Font,
    glyphs: Seq<PositionedGlyph>,
    count: nat,
) -> (Seq<u8>, Result<(), FrameBufferError>)
    decreases count,
{
    if count == 0 {
        (state.pixels, Ok(()))
    } else {
        let before = after_placed(state, geometry, font, glyphs, (count - 1) as nat);
        let placed = glyphs[count - 1];
        if before.1 is Err {
            before
        } else if glyph_of(font, placed.parent).short() {
            (before.0, Err(FrameBufferError::BufferTooSmall))
        } else {
            (
                blitted(before.0, geometry, placed_stamp(state, font, placed)),
                Ok(()),
            )
        }
    }
}

/// Where the cursor comes to rest when text ended at `(x, y)`: there, if
/// that is a visible pixel, and else at the start of the next line.
pub open spec fn settled(geometry: BufferGeometry, x: int, y: int) -> (int, int) {
    if geometry.contains(x, y) {
        (x, y)
    } else {
        (BORDER_PADDING as int, next_line_y(geometry, y))
    }
}

/// The outcome of drawing a run of positioned glyphs. The glyphs are drawn
/// in order; a refused glyph ends the run with the cursor where it was.
/// After a full run the cursor rests just right of the last glyph, on that
/// glyph's top edge.
pub open spec fn after_run(
    state: WriterState,
    geometry: BufferGeometry,
    font: Font,
    glyphs: Seq<PositionedGlyph>,
) -> Outcome {
    let drawn = after_placed(state, geometry, font, glyphs, glyphs.len());
    if drawn.1 is Err || glyphs.len() == 0 {
        (WriterState { pixels: drawn.0, ..state }, drawn.1)
    } else {
        let last = glyphs.last();
        let rest = settled(geometry, on_screen(last.x + last.width), on_screen(last.y as int));
        (WriterState { x: rest.0, y: rest.1, pixels: drawn.0, ..state }, Ok(()))
    }
}

/// The region that a text written at the cursor is laid out in: from the
/// cursor to the right and bottom borders.
pub open spec fn text_frame(state: WriterState, geometry: BufferGeometry) -> LayoutBox {
    LayoutBox {
        x: state.x as usize,
        y: state.y as usize,
        max_width: Some((geometry.width - state.x - BORDER_PADDING) as usize),
        max_height: Some((geometry.height - state.y - BORDER_PADDING) as usize),
        line_height_permille: LINE_HEIGHT_PERMILLE,
    }
}

/// The outcome of writing a text in one layout. An empty text does nothing.
pub open spec fn after_string(
    state: WriterState,
    geometry: BufferGeometry,
    font: Font,
    text: Seq<char>,
) -> Outcome {
    if text.len() == 0 {
        (state, Ok(()))
    } else {
        after_run(
            state,
            geometry,
            font,
            laid_out(font, text, FONT_SIZE, text_frame(state, geometry)),
        )
    }
}

/// The region that a text is measured in: at the origin, without bounds,
/// lines at the font's own height.
pub open spec fn measure_frame() -> LayoutBox {
    LayoutBox { x: 0, y: 0, max_width: None, max_height: None, line_height_permille: 1000 }
}

/// The smallest left edge among the first `count` glyphs.
pub open spec fn left_edge(glyphs: Seq<PositionedGlyph>, count: nat) -> int
    decreases count,
{
    if count <= 1 {
        glyphs[0].x as int
    } else {
        let rest = left_edge(glyphs, (count - 1) as nat);
        if glyphs[count - 1].x < rest {
            glyphs[count - 1].x as int
        } else {
            rest
        }
    }
}

/// The largest right edge among the first `count` glyphs.
pub open spec fn right_edge(glyphs: Seq<PositionedGlyph>, count: nat) -> int
    decreases count,
{
    if count <= 1 {
        glyphs[0].x + glyphs[0].width
    } else {
        let rest = right_edge(glyphs, (count - 1) as nat);
        if glyphs[count - 1].x + glyphs[count - 1].width > rest {
            glyphs[count - 1].x + glyphs[count - 1].width
        } else {
            rest
        }
    }
}

/// The smallest top edge among the first `count` glyphs.
pub open spec fn top_edge(glyphs: Seq<PositionedGlyph>, count: nat) -> int
    decreases count,
{
    if count <= 1 {
        glyphs[0].y as int
    } else {
        let rest = top_edge(glyphs, (count - 1) as nat);
        if glyphs[count - 1].y < rest {
            glyphs[count - 1].y as int
        } else {
            rest
        }
    }
}

/// The largest bottom edge among the first `count` glyphs.
pub open spec fn bottom_edge(glyphs: Seq<PositionedGlyph>, count: nat) -> int
    decreases count,
{
    if count <= 1 {
        glyphs[0].y + glyphs[0].height
    } else {
        let rest = bottom_edge(glyphs, (count - 1) as nat);
        if glyphs[count - 1].y + glyphs[count - 1].height > rest {
            glyphs[count - 1].y + glyphs[count - 1].height
        } else {
            rest
        }
    }
}

/// A size as a machine integer: what does not fit is cut to the largest.
pub open spec fn as_size(v: int) -> usize {
    if v > usize::MAX {
        usize::MAX
    } else if v < 0 {
        0
    } else {
        v as usize
    }
}

/// The width and height of the smallest box around all the glyphs; nothing
/// for no glyphs.
pub open spec fn extent(glyphs: Seq<PositionedGlyph>) -> (usize, usize) {
    if glyphs.len() == 0 {
        (0, 0)
    } else {
        (
            as_size(right_edge(glyphs, glyphs.len()) - left_edge(glyphs, glyphs.len())),
            as_size(bottom_edge(glyphs, glyphs.len()) - top_edge(glyphs, glyphs.len())),
        )
    }
}

/// The width and height of a text on one line: nothing for an empty text.
pub open spec fn text_dimensions(font: Font, text: Seq<char>) -> (usize, usize) {
    if text.len() == 0 {
        (0, 0)
    } else {
        extent(laid_out(font, text, FONT_SIZE, measure_frame()))
    }
}

/// The width of a text on one line.
pub open spec fn text_width(font: Font, text: Seq<char>) -> usize {
    text_dimensions(font, text).0
}

/// The state in which a word is laid out: the given state, or after a line
/// break where the word is wider than what is left of the line.
pub open spec fn word_start(
    state: WriterState,
    geometry: BufferGeometry,
    font: Font,
    word: Seq<char>,
) -> WriterState {
    if text_width(font, word) > geometry.width - state.x - BORDER_PADDING {
        after_newline(state, geometry)
    } else {
        state
    }
}

/// The outcome of what stands between a word and the next: a space, or a
/// line break in its place where the space and the next word would reach
/// past the right border.
pub open spec fn after_gap(
    state: WriterState,
    geometry: BufferGeometry,
    font: Font,
    next: Seq<char>,
) -> Outcome {
    if state.x + text_width(font, seq![' ']) + text_width(font, next) > geometry.width
        - BORDER_PADDING {
        (after_newline(state, geometry), Ok(()))
    } else {
        after_char(state, geometry, font, ' ')
    }
}

/// The outcome of writing the words from `from` on with wrapping: each word
/// in one layout from its start, and between two words their gap. The first
/// refusal ends the writing.
pub open spec fn after_wrapped(
    state: WriterState,
    geometry: BufferGeometry,
    font: Font,
    words: Seq<Seq<char>>,
    from: nat,
) -> Outcome
    decreases words.len() - from,
{
    if from >= words.len() {
        (state, Ok(()))
    } else {
        let word = words[from as int];
        let placed = after_string(word_start(state, geometry, font, word), geometry, font, word);
        if placed.1 is Err || from + 1 >= words.len() {
            placed
        } else {
            let gap = after_gap(placed.0, geometry, font, words[from as int + 1]);
            if gap.1 is Err {
                gap
            } else {
                after_wrapped(gap.0, geometry, font, words, from + 1)
            }
        }
    }
}

/// Whether the cursor of `state` is a visible pixel.
pub open spec fn cursor_on_screen(state: WriterState, geometry: BufferGeometry) -> bool {
    geometry.contains(state.x, state.y)
}

/// Whether the layout keeps the left edge of each glyph of `text` inside the
/// frame that it is given.
pub open spec fn kept_in_frame(font: Font, text: Seq<char>, frame: LayoutBox) -> bool {
    forall|i: int|
        0 <= i < laid_out(font, text, FONT_SIZE, frame).len() ==> (#[trigger] laid_out(
            font,
            text,
            FONT_SIZE,
            frame,
        )[i]).x <= frame.x + frame.max_width.unwrap_or(0)
}

/// Whether each glyph that a text written at the cursor draws has its left
/// edge at or left of the right border.
pub open spec fn string_within_border(
    state: WriterState,
    geometry: BufferGeometry,
    font: Font,
    text: Seq<char>,
) -> bool {
    forall|i: int|
        0 <= i < laid_out(font, text, FONT_SIZE, text_frame(state, geometry)).len() ==> on_screen(
            (#[trigger] laid_out(font, text, FONT_SIZE, text_frame(state, geometry))[i]).x as int,
        ) <= geometry.width - BORDER_PADDING
}

/// Whether the layout keeps each word of a wrapped write, from `from` on,
/// inside the frame that the word is laid out in.
pub open spec fn words_kept_in_frame(
    state: WriterState,
    geometry: BufferGeometry,
    font: Font,
    words: Seq<Seq<char>>,
    from: nat,
) -> bool
    decreases words.len() - from,
{
    if from >= words.len() {
        true
    } else {
        let word = words[from as int];
        let start = word_start(state, geometry, font, word);
        let placed = after_string(start, geometry, font, word);
        &&& kept_in_frame(font, word, text_frame(start, geometry))
        &&& if placed.1 is Err || from + 1 >= words.len() {
            true
        } else {
            let gap = after_gap(placed.0, geometry, font, words[from as int + 1]);
            gap.1 is Ok ==> words_kept_in_frame(gap.0, geometry, font, words, from + 1)
        }
    }
}

/// Whether each glyph that a wrapped write draws, from word `from` on, has
/// its left edge at or left of the right border: the glyphs of each word,
/// and the space after it where one is drawn.
pub open spec fn wrapped_within_border(
    state: WriterState,
    geometry: BufferGeometry,
    font: Font,
    words: Seq<Seq<char>>,
    from: nat,
) -> bool
    decreases words.len() - from,
{
    if from >= words.len() {
        true
    } else {
        let word = words[from as int];
        let start = word_start(state, geometry, font, word);
        let placed = after_string(start, geometry, font, word);
        &&& string_within_border(start, geometry, font, word)
        &&& if placed.1 is Err || from + 1 >= words.len() {
            true
        } else {
            let gap = after_gap(placed.0, geometry, font, words[from as int + 1]);
            &&& placed.0.x <= geometry.width - BORDER_PADDING
            &&& gap.1 is Ok ==> wrapped_within_border(gap.0, geometry, font, words, from + 1)
        }
    }
}

/// The line below any line holds a whole glyph above the bottom border, or
/// is the first line; either way it is on the screen.
pub proof fn lemma_next_line_on_screen(geometry: BufferGeometry, y: int)
    requires
        usable(geometry),
        y >= 0,
    ensures
        0 <= next_line_y(geometry, y) < geometry.height,
        next_line_y(geometry, y) == BORDER_PADDING || next_line_y(geometry, y) + FONT_SIZE
            <= geometry.height - BORDER_PADDING,
{
}

/// A line break on the last row inside the bottom border takes the cursor
/// to the first line.
pub proof fn lemma_newline_wraps_at_bottom(state: WriterState, geometry: BufferGeometry)
    requires
        usable(geometry),
        state.y == geometry.height - BORDER_PADDING - 1,
    ensures
        after_newline(state, geometry).y == BORDER_PADDING,
        after_newline(state, geometry).x == BORDER_PADDING,
{
}

/// Where rows of the screen do not overlap, a cell of a glyph that has
/// coverage and falls on a visible pixel leaves that pixel, after the glyph
/// was drawn at the cursor, showing the blend of the two colors for its
/// coverage: the foreground itself where the coverage is full.
pub proof fn lemma_glyph_covers_pixel(
    state: WriterState,
    geometry: BufferGeometry,
    glyph: GlyphModel,
    col: int,
    row: int,
)
    requires
        geometry.stride >= geometry.width,
        !glyph.short(),
        cell_drawn(geometry, cursor_stamp(state, glyph), col, row),
    ensures
        shows(
            after_glyph(state, geometry, glyph).0.pixels,
            geometry,
            state.x + col,
            cursor_stamp(state, glyph).y + row,
            blend(state.background, state.foreground, glyph.coverage[row * glyph.width + col]),
        ),
        glyph.coverage[row * glyph.width + col] == 255 ==> shows(
            after_glyph(state, geometry, glyph).0.pixels,
            geometry,
            state.x + col,
            cursor_stamp(state, glyph).y + row,
            state.foreground,
        ),
{
    lemma_blit_draws_cell(state.pixels, geometry, cursor_stamp(state, glyph), col, row);
}

/// The same of a character that is drawn as its glyph: after it was written,
/// the pixel under a cell of full coverage shows the foreground.
pub proof fn lemma_char_covers_pixel(
    state: WriterState,
    geometry: BufferGeometry,
    font: Font,
    ch: char,
    col: int,
    row: int,
)
    requires
        geometry.stride >= geometry.width,
        !control(ch),
        !glyph_of(font, ch).short(),
        cell_drawn(geometry, cursor_stamp(state, glyph_of(font, ch)), col, row),
    ensures
        after_char(state, geometry, font, ch).1 is Ok,
        shows(
            after_char(state, geometry, font, ch).0.pixels,
            geometry,
            state.x + col,
            cursor_stamp(state, glyph_of(font, ch)).y + row,
            blend(
                state.background,
                state.foreground,
                glyph_of(font, ch).coverage[row * glyph_of(font, ch).width + col],
            ),
        ),
        glyph_of(font, ch).coverage[row * glyph_of(font, ch).width + col] == 255 ==> shows(
            after_char(state, geometry, font, ch).0.pixels,
            geometry,
            state.x + col,
            cursor_stamp(state, glyph_of(font, ch)).y + row,
            state.foreground,
        ),
{
    lemma_glyph_covers_pixel(state, geometry, glyph_of(font, ch), col, row);
}

/// A word wider than what is left of the line is laid out after exactly one
/// line break: in a frame that starts at the left border of the next line.
/// A word that is not wider is laid out from the cursor.
pub proof fn lemma_wide_word_breaks_line_once(
    state: WriterState,
    geometry: BufferGeometry,
    font: Font,
    word: Seq<char>,
)
    requires
        usable(geometry),
        cursor_on_screen(state, geometry),
    ensures
        text_width(font, word) > geometry.width - state.x - BORDER_PADDING ==> {
            &&& word_start(state, geometry, font, word) == after_newline(state, geometry)
            &&& text_frame(word_start(state, geometry, font, word), geometry).x == BORDER_PADDING
            &&& text_frame(word_start(state, geometry, font, word), geometry).y == next_line_y(
                geometry,
                state.y,
            )
        },
        text_width(font, word) <= geometry.width - state.x - BORDER_PADDING ==> word_start(
            state,
            geometry,
            font,
            word,
        ) == state,
{
    lemma_next_line_on_screen(geometry, state.y);
}

/// Each word of a wrapped write is written in one layout from its start: the
/// writer breaks no line between two of its characters.
pub proof fn lemma_word_is_one_layout(
    state: WriterState,
    geometry: BufferGeometry,
    font: Font,
    words: Seq<Seq<char>>,
    from: nat,
)
    requires
        from < words.len(),
    ensures
        ({
            let word = words[from as int];
            let placed = after_string(
                word_start(state, geometry, font, word),
                geometry,
                font,
                word,
            );
            if placed.1 is Err || from + 1 >= words.len() {
                after_wrapped(state, geometry, font, words, from) == placed
            } else {
                let gap = after_gap(placed.0, geometry, font, words[from as int + 1]);
                after_wrapped(state, geometry, font, words, from) == if gap.1 is Err {
                    gap
                } else {
                    after_wrapped(gap.0, geometry, font, words, from + 1)
                }
            }
        }),
{
}

/// Writing a character leaves the cursor on the screen.
pub proof fn lemma_char_keeps_cursor(
    state: WriterState,
    geometry: BufferGeometry,
    font: Font,
    ch: char,
)
    requires
        usable(geometry),
        cursor_on_screen(state, geometry),
    ensures
        cursor_on_screen(after_char(state, geometry, font, ch).0, geometry),
{
    if ch == '\t' {
        let space = glyph_of(font, ' ');
        lemma_repeated_keeps_cursor(state, geometry, space, 4);
    }
}

proof fn lemma_repeated_keeps_cursor(
    state: WriterState,
    geometry: BufferGeometry,
    glyph: GlyphModel,
    times: nat,
)
    requires
        usable(geometry),
        cursor_on_screen(state, geometry),
    ensures
        cursor_on_screen(after_repeated(state, geometry, glyph, times).0, geometry),
    decreases times,
{
    if times > 0 {
        let first = after_glyph(state, geometry, glyph);
        if first.1 is Ok {
            lemma_repeated_keeps_cursor(first.0, geometry, glyph, (times - 1) as nat);
        }
    }
}

/// Writing a text leaves the cursor on the screen.
pub proof fn lemma_string_keeps_cursor(
    state: WriterState,
    geometry: BufferGeometry,
    font: Font,
    text: Seq<char>,
)
    requires
        usable(geometry),
        cursor_on_screen(state, geometry),
    ensures
        cursor_on_screen(after_string(state, geometry, font, text).0, geometry),
{
}

/// A wrapped write leaves the cursor on the screen, so that the next write
/// starts from a state like the one this write started from.
pub proof fn lemma_wrapped_keeps_cursor(
    state: WriterState,
    geometry: BufferGeometry,
    font: Font,
    words: Seq<Seq<char>>,
    from: nat,
)
    requires
        usable(geometry),
        cursor_on_screen(state, geometry),
    ensures
        cursor_on_screen(after_wrapped(state, geometry, font, words, from).0, geometry),
        after_wrapped(state, geometry, font, words, from).0.x <= geometry.width - BORDER_PADDING,
    decreases words.len() - from,
{
    if from < words.len() {
        let word = words[from as int];
        let start = word_start(state, geometry, font, word);
        lemma_string_keeps_cursor(start, geometry, font, word);
        let placed = after_string(start, geometry, font, word);
        if placed.1 is Ok && from + 1 < words.len() {
            lemma_char_keeps_cursor(placed.0, geometry, font, ' ');
            let gap = after_gap(placed.0, geometry, font, words[from as int + 1]);
            if gap.1 is Ok {
                lemma_wrapped_keeps_cursor(gap.0, geometry, font, words, from + 1);
            }
        }
    }
}

/// From any state with the cursor on the screen, a wrapped write draws no
/// glyph with its left edge right of the right border, provided that the
/// layout keeps each word inside the frame it is given. That a word as wide
/// as the line or wider is kept there is not owed by the layout.
pub proof fn lemma_wrapped_stays_within_border(
    state: WriterState,
    geometry: BufferGeometry,
    font: Font,
    words: Seq<Seq<char>>,
    from: nat,
)
    requires
        usable(geometry),
        cursor_on_screen(state, geometry),
        words_kept_in_frame(state, geometry, font, words, from),
    ensures
        wrapped_within_border(state, geometry, font, words, from),
    decreases words.len() - from,
{
    if from < words.len() {
        let word = words[from as int];
        let start = word_start(state, geometry, font, word);
        let frame = text_frame(start, geometry);
        assert(frame.x + frame.max_width.unwrap_or(0) == geometry.width - BORDER_PADDING);
        assert(string_within_border(start, geometry, font, word));
        lemma_string_keeps_cursor(start, geometry, font, word);
        let placed = after_string(start, geometry, font, word);
        if placed.1 is Ok && from + 1 < words.len() {
            lemma_char_keeps_cursor(placed.0, geometry, font, ' ');
            let gap = after_gap(placed.0, geometry, font, words[from as int + 1]);
            if gap.1 is Ok {
                lemma_wrapped_stays_within_border(gap.0, geometry, font, words, from + 1);
            }
        }
    }
}

} // verus!
