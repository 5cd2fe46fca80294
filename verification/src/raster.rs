//! Bounds-checked pixel writes into a raw byte buffer: single pixels, a fill
//! of the whole screen, and the blit of a coverage bitmap.
//!
//! Every byte goes into the buffer by a volatile store, and no store is ever
//! made outside the buffer: a pixel whose bytes do not fit is dropped.

use volatile::VolatileRef;
use vstd::prelude::*;
use crate::color::{blend, blend_colors};
use crate::frame_buffer::FrameBufferError;
use crate::pixel::{encode_pixel, encoded, lemma_encoded_len, PixelBytes, PixelFormat};

verus! {

/// The shape of a pixel buffer. It does not change while the buffer is in
/// use.
#[derive(Debug, Clone, Copy)]
pub struct BufferGeometry {
    /// Visible pixels in a row.
    pub width: usize,
    /// Visible rows.
    pub height: usize,
    /// Pixels from the start of one row to the start of the next.
    pub stride: usize,
    /// Bytes from the start of one pixel to the start of the next.
    pub bytes_per_pixel: usize,
    /// The channel order of a pixel.
    pub pixel_format: PixelFormat,
}

impl BufferGeometry {
    /// Whether `(x, y)` is a visible pixel.
    pub open spec fn contains(&self, x: int, y: int) -> bool {
        0 <= x < self.width && 0 <= y < self.height
    }

    /// The offset in bytes of the pixel at `(x, y)`.
    pub open spec fn pixel_offset(&self, x: int, y: int) -> int {
        (y * self.stride + x) * self.bytes_per_pixel
    }

    /// Whether the whole pixel that starts at `offset` lies in a buffer of
    /// `len` bytes.
    pub open spec fn fits(&self, offset: int, len: int) -> bool {
        0 <= offset && offset + self.bytes_per_pixel <= len
    }

    /// The offset of the pixel at `(x, y)`, if the whole pixel lies in a
    /// buffer of `len` bytes.
    pub fn slot(&self, x: usize, y: usize, len: usize) -> (offset: Option<usize>)
        ensures
            offset is Some <==> self.fits(self.pixel_offset(x as int, y as int), len as int),
            offset is Some ==> offset->0 == self.pixel_offset(x as int, y as int),
    {
        let bpp: usize = self.bytes_per_pixel;
        if bpp == 0 {
            assert(self.pixel_offset(x as int, y as int) == 0) by (nonlinear_arith)
                requires
                    self.bytes_per_pixel == 0,
            ;
            return Some(0);
        }
        if bpp > len {
            assert(self.pixel_offset(x as int, y as int) >= 0) by (nonlinear_arith);
            return None;
        }
        let ghost index: int = y * self.stride + x;
        assert(index * bpp >= index && index >= 0 && index >= y * self.stride) by (nonlinear_arith)
            requires
                index == y * self.stride + x,
                bpp >= 1,
        ;
        let row_start: usize = match y.checked_mul(self.stride) {
            Some(v) => v,
            None => {
                return None;
            },
        };
        let index_value: usize = match row_start.checked_add(x) {
            Some(v) => v,
            None => {
                return None;
            },
        };
        match index_value.checked_mul(bpp) {
            Some(offset) => {
                if offset <= len - bpp {
                    Some(offset)
                } else {
                    None
                }
            },
            None => None,
        }
    }
}

/// `buffer` with `bytes` stored from `offset` on.
pub open spec fn stored(buffer: Seq<u8>, offset: int, bytes: Seq<u8>) -> Seq<u8> {
    Seq::new(
        buffer.len(),
        |i: int|
            if offset <= i < offset + bytes.len() {
                bytes[i - offset]
            } else {
                buffer[i]
            },
    )
}

/// `buffer` after a write of `color` to the pixel that starts at `offset`:
/// the encoded color is stored there if the whole pixel lies in the buffer,
/// and nothing changes otherwise.
pub open spec fn pixel_written(
    buffer: Seq<u8>,
    geometry: BufferGeometry,
    offset: int,
    color: u32,
) -> Seq<u8> {
    if geometry.fits(offset, buffer.len() as int) {
        stored(
            buffer,
            offset,
            encoded(geometry.pixel_format, geometry.bytes_per_pixel as nat, color),
        )
    } else {
        buffer
    }
}

/// `buffer` after a write of `color` to the pixel at `(x, y)`.
pub open spec fn pixel_set(
    buffer: Seq<u8>,
    geometry: BufferGeometry,
    x: int,
    y: int,
    color: u32,
) -> Seq<u8> {
    pixel_written(buffer, geometry, geometry.pixel_offset(x, y), color)
}

/// `buffer` after `color` went to the first `cols` pixels of row `row`, left
/// to right.
pub open spec fn fill_row(
    buffer: Seq<u8>,
    geometry: BufferGeometry,
    row: int,
    cols: nat,
    color: u32,
) -> Seq<u8>
    decreases cols,
{
    if cols == 0 {
        buffer
    } else {
        pixel_set(
            fill_row(buffer, geometry, row, (cols - 1) as nat, color),
            geometry,
            cols - 1,
            row,
            color,
        )
    }
}

/// `buffer` after `color` went to every visible pixel of the first `rows`
/// rows, top to bottom.
pub open spec fn fill_rows(
    buffer: Seq<u8>,
    geometry: BufferGeometry,
    rows: nat,
    color: u32,
) -> Seq<u8>
    decreases rows,
{
    if rows == 0 {
        buffer
    } else {
        fill_row(
            fill_rows(buffer, geometry, (rows - 1) as nat, color),
            geometry,
            rows - 1,
            geometry.width as nat,
            color,
        )
    }
}

/// `buffer` after `color` went to every visible pixel.
pub open spec fn filled(buffer: Seq<u8>, geometry: BufferGeometry, color: u32) -> Seq<u8> {
    fill_rows(buffer, geometry, geometry.height as nat, color)
}

/// A coverage bitmap placed on the screen: `width` by `height` alpha values
/// in rows, its top left corner at `(x, y)`, drawn in `foreground` over
/// `background`.
pub struct Stamp {
    pub x: int,
    pub y: int,
    pub coverage: Seq<u8>,
    pub width: nat,
    pub height: nat,
    pub foreground: u32,
    pub background: u32,
}

/// `buffer` after one coverage value went to the screen pixel `(x, y)`: a
/// pixel off the screen or with no coverage is left alone, any other gets
/// the blend of the two colors.
pub open spec fn blit_pixel(
    buffer: Seq<u8>,
    geometry: BufferGeometry,
    x: int,
    y: int,
    alpha: u8,
    stamp: Stamp,
) -> Seq<u8> {
    if geometry.contains(x, y) && alpha > 0 {
        pixel_set(buffer, geometry, x, y, blend(stamp.background, stamp.foreground, alpha))
    } else {
        buffer
    }
}

/// `buffer` after the first `cols` values of row `row` of the stamp were
/// drawn, left to right.
pub open spec fn blit_row(
    buffer: Seq<u8>,
    geometry: BufferGeometry,
    stamp: Stamp,
    row: int,
    cols: nat,
) -> Seq<u8>
    decreases cols,
{
    if cols == 0 {
        buffer
    } else {
        blit_pixel(
            blit_row(buffer, geometry, stamp, row, (cols - 1) as nat),
            geometry,
            stamp.x + cols - 1,
            stamp.y + row,
            stamp.coverage[row * stamp.width + cols - 1],
            stamp,
        )
    }
}

/// `buffer` after the first `rows` rows of the stamp were drawn, top to
/// bottom.
pub open spec fn blit_rows(
    buffer: Seq<u8>,
    geometry: BufferGeometry,
    stamp: Stamp,
    rows: nat,
) -> Seq<u8>
    decreases rows,
{
    if rows == 0 {
        buffer
    } else {
        blit_row(
            blit_rows(buffer, geometry, stamp, (rows - 1) as nat),
            geometry,
            stamp,
            rows - 1,
            stamp.width,
        )
    }
}

/// `buffer` after the whole stamp was drawn.
pub open spec fn blitted(buffer: Seq<u8>, geometry: BufferGeometry, stamp: Stamp) -> Seq<u8> {
    blit_rows(buffer, geometry, stamp, stamp.height)
}

/// Whether the pixel at `(x, y)` shows `color`: its bytes in `buffer` are
/// the encoded color. A pixel that does not lie in the buffer as a whole
/// shows nothing and is passed over.
pub open spec fn shows(
    buffer: Seq<u8>,
    geometry: BufferGeometry,
    x: int,
    y: int,
    color: u32,
) -> bool {
    let offset = geometry.pixel_offset(x, y);
    let pixel = encoded(geometry.pixel_format, geometry.bytes_per_pixel as nat, color);
    geometry.fits(offset, buffer.len() as int) ==> buffer.subrange(offset, offset + pixel.len())
        == pixel
}

/// Two pixels start at the same byte or a whole pixel apart.
proof fn lemma_pixels_apart(geometry: BufferGeometry, x1: int, y1: int, x2: int, y2: int)
    ensures
        ({
            let a = geometry.pixel_offset(x1, y1);
            let b = geometry.pixel_offset(x2, y2);
            a == b || a + geometry.bytes_per_pixel <= b || b + geometry.bytes_per_pixel <= a
        }),
{
    let p = y1 * geometry.stride + x1;
    let q = y2 * geometry.stride + x2;
    let n = geometry.bytes_per_pixel as int;
    assert(p * n == q * n || p * n + n <= q * n || q * n + n <= p * n) by (nonlinear_arith)
        requires
            n >= 0,
    ;
}

/// A write of `color` to one pixel leaves every pixel that showed `color`
/// showing it, and makes the written pixel show it.
proof fn lemma_write_keeps_shown(
    buffer: Seq<u8>,
    geometry: BufferGeometry,
    x: int,
    y: int,
    wx: int,
    wy: int,
    color: u32,
)
    requires
        shows(buffer, geometry, x, y, color) || (x == wx && y == wy),
    ensures
        shows(pixel_set(buffer, geometry, wx, wy, color), geometry, x, y, color),
{
    let pixel = encoded(geometry.pixel_format, geometry.bytes_per_pixel as nat, color);
    let a = geometry.pixel_offset(x, y);
    let b = geometry.pixel_offset(wx, wy);
    let after = pixel_set(buffer, geometry, wx, wy, color);
    lemma_encoded_len(geometry.pixel_format, geometry.bytes_per_pixel as nat, color);
    lemma_pixels_apart(geometry, x, y, wx, wy);
    if geometry.fits(a, buffer.len() as int) {
        assert(after.subrange(a, a + pixel.len()) =~= pixel);
    }
}

/// A write of `color` to a pixel that shows `color` changes nothing.
proof fn lemma_write_shown_is_noop(
    buffer: Seq<u8>,
    geometry: BufferGeometry,
    x: int,
    y: int,
    color: u32,
)
    requires
        shows(buffer, geometry, x, y, color),
    ensures
        pixel_set(buffer, geometry, x, y, color) == buffer,
{
    let pixel = encoded(geometry.pixel_format, geometry.bytes_per_pixel as nat, color);
    let a = geometry.pixel_offset(x, y);
    lemma_encoded_len(geometry.pixel_format, geometry.bytes_per_pixel as nat, color);
    if geometry.fits(a, buffer.len() as int) {
        let after = pixel_set(buffer, geometry, x, y, color);
        assert forall|i: int| 0 <= i < buffer.len() implies after[i] == buffer[i] by {
            if a <= i < a + pixel.len() {
                assert(buffer.subrange(a, a + pixel.len())[i - a] == buffer[i]);
            }
        }
        assert(after =~= buffer);
    }
}

/// After the first `cols` pixels of a row were filled, each of them shows
/// the color, and so does every pixel that showed it before.
proof fn lemma_fill_row_shows(
    buffer: Seq<u8>,
    geometry: BufferGeometry,
    row: int,
    cols: nat,
    color: u32,
    x: int,
    y: int,
)
    requires
        shows(buffer, geometry, x, y, color) || (y == row && 0 <= x < cols),
    ensures
        shows(fill_row(buffer, geometry, row, cols, color), geometry, x, y, color),
    decreases cols,
{
    if cols > 0 {
        let before = fill_row(buffer, geometry, row, (cols - 1) as nat, color);
        if !(y == row && x == cols - 1) {
            lemma_fill_row_shows(buffer, geometry, row, (cols - 1) as nat, color, x, y);
        }
        lemma_write_keeps_shown(before, geometry, x, y, cols - 1, row, color);
    }
}

/// After the first `rows` rows were filled, each visible pixel of them shows
/// the color, and so does every pixel that showed it before.
proof fn lemma_fill_rows_shows(
    buffer: Seq<u8>,
    geometry: BufferGeometry,
    rows: nat,
    color: u32,
    x: int,
    y: int,
)
    requires
        shows(buffer, geometry, x, y, color) || (0 <= y < rows && 0 <= x < geometry.width),
    ensures
        shows(fill_rows(buffer, geometry, rows, color), geometry, x, y, color),
    decreases rows,
{
    if rows > 0 {
        let before = fill_rows(buffer, geometry, (rows - 1) as nat, color);
        if !(y == rows - 1 && 0 <= x < geometry.width) {
            lemma_fill_rows_shows(buffer, geometry, (rows - 1) as nat, color, x, y);
        }
        lemma_fill_row_shows(before, geometry, rows - 1, geometry.width as nat, color, x, y);
    }
}

/// After a fill every visible pixel shows the fill color.
pub proof fn lemma_filled_shows_color(
    buffer: Seq<u8>,
    geometry: BufferGeometry,
    color: u32,
    x: int,
    y: int,
)
    requires
        geometry.contains(x, y),
    ensures
        shows(filled(buffer, geometry, color), geometry, x, y, color),
{
    lemma_fill_rows_shows(buffer, geometry, geometry.height as nat, color, x, y);
}

/// Filling the first `cols` pixels of a visible row changes nothing where
/// every visible pixel shows the color already.
proof fn lemma_fill_row_again(
    buffer: Seq<u8>,
    geometry: BufferGeometry,
    row: int,
    cols: nat,
    color: u32,
)
    requires
        0 <= row < geometry.height,
        cols <= geometry.width,
        forall|x: int, y: int| geometry.contains(x, y) ==> shows(buffer, geometry, x, y, color),
    ensures
        fill_row(buffer, geometry, row, cols, color) == buffer,
    decreases cols,
{
    if cols > 0 {
        lemma_fill_row_again(buffer, geometry, row, (cols - 1) as nat, color);
        assert(geometry.contains(cols - 1, row));
        lemma_write_shown_is_noop(buffer, geometry, cols - 1, row, color);
    }
}

/// Filling the first `rows` rows changes nothing where every visible pixel
/// shows the color already.
proof fn lemma_fill_rows_again(buffer: Seq<u8>, geometry: BufferGeometry, rows: nat, color: u32)
    requires
        rows <= geometry.height,
        forall|x: int, y: int| geometry.contains(x, y) ==> shows(buffer, geometry, x, y, color),
    ensures
        fill_rows(buffer, geometry, rows, color) == buffer,
    decreases rows,
{
    if rows > 0 {
        lemma_fill_rows_again(buffer, geometry, (rows - 1) as nat, color);
        lemma_fill_row_again(buffer, geometry, rows - 1, geometry.width as nat, color);
    }
}

/// A second fill with the same color leaves the buffer as the first fill
/// left it.
pub proof fn lemma_fill_twice(buffer: Seq<u8>, geometry: BufferGeometry, color: u32)
    ensures
        filled(filled(buffer, geometry, color), geometry, color) == filled(
            buffer,
            geometry,
            color,
        ),
{
    let once = filled(buffer, geometry, color);
    assert forall|x: int, y: int| geometry.contains(x, y) implies shows(
        once,
        geometry,
        x,
        y,
        color,
    ) by {
        lemma_filled_shows_color(buffer, geometry, color, x, y);
    }
    lemma_fill_rows_again(once, geometry, geometry.height as nat, color);
}

/// The number of bytes that a write to one pixel stores.
pub open spec fn pixel_len(geometry: BufferGeometry) -> int {
    if geometry.bytes_per_pixel < 4 {
        geometry.bytes_per_pixel as int
    } else {
        4
    }
}

/// Whether the cell in column `col` and row `row` of the stamp is drawn: it
/// has coverage and falls on a visible pixel.
pub open spec fn cell_drawn(geometry: BufferGeometry, stamp: Stamp, col: int, row: int) -> bool {
    &&& 0 <= col < stamp.width
    &&& 0 <= row < stamp.height
    &&& stamp.coverage[row * stamp.width + col] > 0
    &&& geometry.contains(stamp.x + col, stamp.y + row)
}

/// Whether the byte at `at` of a buffer of `len` bytes is one that the cell
/// in column `col` and row `row` of the stamp writes.
pub open spec fn cell_writes(
    geometry: BufferGeometry,
    stamp: Stamp,
    col: int,
    row: int,
    at: int,
    len: int,
) -> bool {
    let offset = geometry.pixel_offset(stamp.x + col, stamp.y + row);
    &&& cell_drawn(geometry, stamp, col, row)
    &&& geometry.fits(offset, len)
    &&& offset <= at < offset + pixel_len(geometry)
}

/// Two visible pixels are the same pixel or start a whole pixel apart, where
/// rows do not overlap.
proof fn lemma_visible_pixels_apart(geometry: BufferGeometry, x1: int, y1: int, x2: int, y2: int)
    requires
        geometry.stride >= geometry.width,
        geometry.contains(x1, y1),
        geometry.contains(x2, y2),
        x1 != x2 || y1 != y2,
    ensures
        ({
            let a = geometry.pixel_offset(x1, y1);
            let b = geometry.pixel_offset(x2, y2);
            a + geometry.bytes_per_pixel <= b || b + geometry.bytes_per_pixel <= a
        }),
{
    let s = geometry.stride as int;
    let n = geometry.bytes_per_pixel as int;
    let p = y1 * s + x1;
    let q = y2 * s + x2;
    assert(p != q) by (nonlinear_arith)
        requires
            p == y1 * s + x1,
            q == y2 * s + x2,
            0 <= x1 < s,
            0 <= x2 < s,
            x1 != x2 || y1 != y2,
    ;
    assert(p * n + n <= q * n || q * n + n <= p * n) by (nonlinear_arith)
        requires
            p != q,
            n >= 0,
    ;
}

/// A write to one visible pixel leaves every other visible pixel showing
/// what it showed, where rows do not overlap.
proof fn lemma_write_keeps_other_pixel(
    buffer: Seq<u8>,
    geometry: BufferGeometry,
    x: int,
    y: int,
    color: u32,
    wx: int,
    wy: int,
    written: u32,
)
    requires
        geometry.stride >= geometry.width,
        geometry.contains(x, y),
        geometry.contains(wx, wy),
        x != wx || y != wy,
        shows(buffer, geometry, x, y, color),
    ensures
        shows(pixel_set(buffer, geometry, wx, wy, written), geometry, x, y, color),
{
    let pixel = encoded(geometry.pixel_format, geometry.bytes_per_pixel as nat, color);
    let a = geometry.pixel_offset(x, y);
    let after = pixel_set(buffer, geometry, wx, wy, written);
    lemma_encoded_len(geometry.pixel_format, geometry.bytes_per_pixel as nat, color);
    lemma_encoded_len(geometry.pixel_format, geometry.bytes_per_pixel as nat, written);
    lemma_visible_pixels_apart(geometry, x, y, wx, wy);
    if geometry.fits(a, buffer.len() as int) {
        assert(after.subrange(a, a + pixel.len()) =~= buffer.subrange(a, a + pixel.len()));
    }
}

/// After the first `cols` cells of a row were drawn, a drawn cell among them
/// shows its blend, and so does its pixel if it showed that blend before.
proof fn lemma_blit_row_draws(
    buffer: Seq<u8>,
    geometry: BufferGeometry,
    stamp: Stamp,
    in_row: int,
    cols: nat,
    col: int,
    row: int,
)
    requires
        geometry.stride >= geometry.width,
        cell_drawn(geometry, stamp, col, row),
        cols <= stamp.width,
        shows(
            buffer,
            geometry,
            stamp.x + col,
            stamp.y + row,
            blend(stamp.background, stamp.foreground, stamp.coverage[row * stamp.width + col]),
        ) || (in_row == row && col < cols),
    ensures
        shows(
            blit_row(buffer, geometry, stamp, in_row, cols),
            geometry,
            stamp.x + col,
            stamp.y + row,
            blend(stamp.background, stamp.foreground, stamp.coverage[row * stamp.width + col]),
        ),
    decreases cols,
{
    if cols > 0 {
        let last = cols - 1;
        let before = blit_row(buffer, geometry, stamp, in_row, last as nat);
        let color = blend(
            stamp.background,
            stamp.foreground,
            stamp.coverage[row * stamp.width + col],
        );
        if in_row == row && col == last {
            lemma_write_keeps_shown(
                before,
                geometry,
                stamp.x + col,
                stamp.y + row,
                stamp.x + col,
                stamp.y + row,
                color,
            );
        } else {
            lemma_blit_row_draws(buffer, geometry, stamp, in_row, last as nat, col, row);
            let alpha = stamp.coverage[in_row * stamp.width + cols - 1];
            if geometry.contains(stamp.x + last, stamp.y + in_row) && alpha > 0 {
                lemma_write_keeps_other_pixel(
                    before,
                    geometry,
                    stamp.x + col,
                    stamp.y + row,
                    color,
                    stamp.x + last,
                    stamp.y + in_row,
                    blend(stamp.background, stamp.foreground, alpha),
                );
            }
        }
    }
}

/// After the first `rows` rows were drawn, a drawn cell among them shows its
/// blend, and so does its pixel if it showed that blend before.
proof fn lemma_blit_rows_draw(
    buffer: Seq<u8>,
    geometry: BufferGeometry,
    stamp: Stamp,
    rows: nat,
    col: int,
    row: int,
)
    requires
        geometry.stride >= geometry.width,
        cell_drawn(geometry, stamp, col, row),
        shows(
            buffer,
            geometry,
            stamp.x + col,
            stamp.y + row,
            blend(stamp.background, stamp.foreground, stamp.coverage[row * stamp.width + col]),
        ) || row < rows,
    ensures
        shows(
            blit_rows(buffer, geometry, stamp, rows),
            geometry,
            stamp.x + col,
            stamp.y + row,
            blend(stamp.background, stamp.foreground, stamp.coverage[row * stamp.width + col]),
        ),
    decreases rows,
{
    if rows > 0 {
        let before = blit_rows(buffer, geometry, stamp, (rows - 1) as nat);
        if row != rows - 1 {
            lemma_blit_rows_draw(buffer, geometry, stamp, (rows - 1) as nat, col, row);
        }
        lemma_blit_row_draws(before, geometry, stamp, rows - 1, stamp.width, col, row);
    }
}

/// Where rows of the screen do not overlap, a cell of the stamp that has
/// coverage and falls on a visible pixel leaves that pixel showing the blend
/// of the two colors for its coverage.
pub proof fn lemma_blit_draws_cell(
    buffer: Seq<u8>,
    geometry: BufferGeometry,
    stamp: Stamp,
    col: int,
    row: int,
)
    requires
        geometry.stride >= geometry.width,
        cell_drawn(geometry, stamp, col, row),
    ensures
        shows(
            blitted(buffer, geometry, stamp),
            geometry,
            stamp.x + col,
            stamp.y + row,
            blend(stamp.background, stamp.foreground, stamp.coverage[row * stamp.width + col]),
        ),
{
    lemma_blit_rows_draw(buffer, geometry, stamp, stamp.height, col, row);
}

proof fn lemma_blit_row_keeps(
    buffer: Seq<u8>,
    geometry: BufferGeometry,
    stamp: Stamp,
    row: int,
    cols: nat,
    at: int,
)
    requires
        0 <= row < stamp.height,
        cols <= stamp.width,
        0 <= at < buffer.len(),
        forall|c: int, r: int|
            !#[trigger] cell_writes(geometry, stamp, c, r, at, buffer.len() as int),
    ensures
        blit_row(buffer, geometry, stamp, row, cols).len() == buffer.len(),
        blit_row(buffer, geometry, stamp, row, cols)[at] == buffer[at],
    decreases cols,
{
    if cols > 0 {
        lemma_blit_row_keeps(buffer, geometry, stamp, row, (cols - 1) as nat, at);
        let alpha = stamp.coverage[row * stamp.width + cols - 1];
        lemma_encoded_len(
            geometry.pixel_format,
            geometry.bytes_per_pixel as nat,
            blend(stamp.background, stamp.foreground, alpha),
        );
        assert(!cell_writes(geometry, stamp, cols - 1, row, at, buffer.len() as int));
    }
}

proof fn lemma_blit_rows_keep(
    buffer: Seq<u8>,
    geometry: BufferGeometry,
    stamp: Stamp,
    rows: nat,
    at: int,
)
    requires
        rows <= stamp.height,
        0 <= at < buffer.len(),
        forall|c: int, r: int|
            !#[trigger] cell_writes(geometry, stamp, c, r, at, buffer.len() as int),
    ensures
        blit_rows(buffer, geometry, stamp, rows).len() == buffer.len(),
        blit_rows(buffer, geometry, stamp, rows)[at] == buffer[at],
    decreases rows,
{
    if rows > 0 {
        lemma_blit_rows_keep(buffer, geometry, stamp, (rows - 1) as nat, at);
        let before = blit_rows(buffer, geometry, stamp, (rows - 1) as nat);
        lemma_blit_row_keeps(before, geometry, stamp, rows - 1, stamp.width, at);
    }
}

/// A blit keeps every byte that no drawn cell of the stamp writes: bytes of
/// pixels that the stamp does not reach, of pixels under cells without
/// coverage, and bytes between pixels.
pub proof fn lemma_blit_keeps_other_bytes(
    buffer: Seq<u8>,
    geometry: BufferGeometry,
    stamp: Stamp,
    at: int,
)
    requires
        0 <= at < buffer.len(),
        forall|col: int, row: int|
            !#[trigger] cell_writes(geometry, stamp, col, row, at, buffer.len() as int),
    ensures
        blitted(buffer, geometry, stamp).len() == buffer.len(),
        blitted(buffer, geometry, stamp)[at] == buffer[at],
{
    lemma_blit_rows_keep(buffer, geometry, stamp, stamp.height, at);
}

/// A stamp whose top edge lies below the screen draws nothing.
pub proof fn lemma_blit_below(buffer: Seq<u8>, geometry: BufferGeometry, stamp: Stamp)
    requires
        stamp.y >= geometry.height,
    ensures
        blitted(buffer, geometry, stamp) == buffer,
{
    lemma_blit_rows_below(buffer, geometry, stamp, stamp.height);
}

proof fn lemma_blit_row_below(
    buffer: Seq<u8>,
    geometry: BufferGeometry,
    stamp: Stamp,
    row: int,
    cols: nat,
)
    requires
        stamp.y >= geometry.height,
        row >= 0,
    ensures
        blit_row(buffer, geometry, stamp, row, cols) == buffer,
    decreases cols,
{
    if cols > 0 {
        lemma_blit_row_below(buffer, geometry, stamp, row, (cols - 1) as nat);
    }
}

proof fn lemma_blit_rows_below(buffer: Seq<u8>, geometry: BufferGeometry, stamp: Stamp, rows: nat)
    requires
        stamp.y >= geometry.height,
    ensures
        blit_rows(buffer, geometry, stamp, rows) == buffer,
    decreases rows,
{
    if rows > 0 {
        lemma_blit_rows_below(buffer, geometry, stamp, (rows - 1) as nat);
        lemma_blit_row_below(buffer, geometry, stamp, rows - 1, stamp.width);
    }
}

/// Stores one byte into a cell of the buffer by a volatile write of the
/// `volatile` crate (`VolatileRef::from_mut_ref`, then `VolatilePtr::write`):
/// afterwards the cell holds the value.
#[verifier::external_body]
fn volatile_store(cell: &mut u8, value: u8)
    ensures
        *final(cell) == value,
{
    VolatileRef::from_mut_ref(cell).as_mut_ptr().write(value)
}

/// Loads one byte from a cell of the buffer by a volatile read of the
/// `volatile` crate (`VolatileRef::from_ref`, then `VolatilePtr::read`): the
/// result is what the cell holds.
#[verifier::external_body]
fn volatile_load(cell: &u8) -> (value: u8)
    ensures
        value == *cell,
{
    VolatileRef::from_ref(cell).as_ptr().read()
}

/// Stores the bytes of one pixel from `offset` on.
fn store_pixel(buffer: &mut [u8], offset: usize, pixel: &PixelBytes)
    requires
        pixel.wf(),
        offset + pixel@.len() <= old(buffer)@.len(),
    ensures
        final(buffer)@ == stored(old(buffer)@, offset as int, pixel@),
{
    let n: usize = pixel.len();
    let len: usize = buffer.len();
    let mut i: usize = 0;
    while i < n
        invariant
            pixel.wf(),
            n == pixel@.len(),
            i <= n,
            offset + n <= len,
            buffer@.len() == len,
            old(buffer)@.len() == len,
            buffer@ == stored(old(buffer)@, offset as int, pixel@.take(i as int)),
        decreases n - i,
    {
        volatile_store(&mut buffer[offset + i], pixel.get(i));
        i += 1;
        assert(buffer@ =~= stored(old(buffer)@, offset as int, pixel@.take(i as int)));
    }
    assert(pixel@.take(n as int) =~= pixel@);
}

/// Loads `count` bytes from `offset` on.
pub fn load_bytes(buffer: &[u8], offset: usize, count: usize) -> (bytes: Vec<u8>)
    requires
        offset + count <= buffer@.len(),
    ensures
        bytes@ == buffer@.subrange(offset as int, offset + count),
{
    let len: usize = buffer.len();
    let mut bytes: Vec<u8> = Vec::new();
    let mut i: usize = 0;
    while i < count
        invariant
            i <= count,
            len == buffer@.len(),
            offset + count <= len,
            bytes@ == buffer@.subrange(offset as int, offset + i),
        decreases count - i,
    {
        bytes.push(volatile_load(&buffer[offset + i]));
        i += 1;
        assert(bytes@ =~= buffer@.subrange(offset as int, offset + i));
    }
    bytes
}

/// Writes `color` to the pixel that starts at `offset`. A pixel that does
/// not lie in the buffer as a whole is dropped.
pub fn write_pixel_at_offset(
    buffer: &mut [u8],
    geometry: &BufferGeometry,
    offset: usize,
    color: u32,
)
    requires
        geometry.pixel_format.supported(),
    ensures
        final(buffer)@ == pixel_written(old(buffer)@, *geometry, offset as int, color),
{
    let len: usize = buffer.len();
    let bpp: usize = geometry.bytes_per_pixel;
    if bpp > len || offset > len - bpp {
        return;
    }
    proof {
        lemma_encoded_len(geometry.pixel_format, bpp as nat, color);
    }
    match encode_pixel(geometry.pixel_format, bpp, color) {
        Some(pixel) => {
            store_pixel(buffer, offset, &pixel);
        },
        None => {},
    }
}

/// Writes `color` to the pixel at `(x, y)`. A position off the screen is
/// refused and leaves every byte as it was.
pub fn write_pixel_at(
    buffer: &mut [u8],
    geometry: &BufferGeometry,
    x: usize,
    y: usize,
    color: u32,
) -> (result: Result<(), FrameBufferError>)
    requires
        geometry.pixel_format.supported(),
    ensures
        result is Err <==> !geometry.contains(x as int, y as int),
        result is Err ==> result == Err::<(), _>(FrameBufferError::InvalidPosition)
            && final(buffer)@ == old(buffer)@,
        result is Ok ==> final(buffer)@ == pixel_set(
            old(buffer)@,
            *geometry,
            x as int,
            y as int,
            color,
        ),
{
    if x >= geometry.width || y >= geometry.height {
        return Err(FrameBufferError::InvalidPosition);
    }
    match geometry.slot(x, y, buffer.len()) {
        Some(offset) => {
            write_pixel_at_offset(buffer, geometry, offset, color);
        },
        None => {},
    }
    Ok(())
}

/// Writes `color` to every visible pixel, row by row.
pub fn fill_pixels(buffer: &mut [u8], geometry: &BufferGeometry, color: u32)
    requires
        geometry.pixel_format.supported(),
    ensures
        final(buffer)@ == filled(old(buffer)@, *geometry, color),
{
    let mut row: usize = 0;
    while row < geometry.height
        invariant
            geometry.pixel_format.supported(),
            row <= geometry.height,
            buffer@ == fill_rows(old(buffer)@, *geometry, row as nat, color),
        decreases geometry.height - row,
    {
        let ghost before = buffer@;
        let mut col: usize = 0;
        while col < geometry.width
            invariant
                geometry.pixel_format.supported(),
                row < geometry.height,
                col <= geometry.width,
                buffer@ == fill_row(before, *geometry, row as int, col as nat, color),
            decreases geometry.width - col,
        {
            match geometry.slot(col, row, buffer.len()) {
                Some(offset) => {
                    write_pixel_at_offset(buffer, geometry, offset, color);
                },
                None => {},
            }
            col += 1;
        }
        row += 1;
    }
}

/// Draws a coverage bitmap of `width` by `height` values with its top left
/// corner at `(x, y)`. Values of zero and pixels off the screen are skipped.
/// A bitmap shorter than `width * height` is refused and nothing is drawn.
pub fn render_bitmap(
    buffer: &mut [u8],
    geometry: &BufferGeometry,
    x: usize,
    y: usize,
    bitmap: &[u8],
    width: usize,
    height: usize,
    foreground: u32,
    background: u32,
) -> (result: Result<(), FrameBufferError>)
    requires
        geometry.pixel_format.supported(),
    ensures
        result is Err <==> bitmap@.len() < width * height,
        result is Err ==> result == Err::<(), _>(FrameBufferError::BufferTooSmall)
            && final(buffer)@ == old(buffer)@,
        result is Ok ==> final(buffer)@ == blitted(
            old(buffer)@,
            *geometry,
            Stamp {
                x: x as int,
                y: y as int,
                coverage: bitmap@,
                width: width as nat,
                height: height as nat,
                foreground,
                background,
            },
        ),
{
    let ghost stamp = Stamp {
        x: x as int,
        y: y as int,
        coverage: bitmap@,
        width: width as nat,
        height: height as nat,
        foreground,
        background,
    };
    let bitmap_len: usize = bitmap.len();
    match width.checked_mul(height) {
        Some(expected) => {
            if bitmap_len < expected {
                return Err(FrameBufferError::BufferTooSmall);
            }
        },
        None => {
            return Err(FrameBufferError::BufferTooSmall);
        },
    }
    let mut row: usize = 0;
    while row < height
        invariant
            geometry.pixel_format.supported(),
            row <= height,
            bitmap_len == bitmap@.len(),
            width * height <= bitmap_len,
            stamp.width == width,
            stamp.height == height,
            stamp.x == x,
            stamp.y == y,
            stamp.coverage == bitmap@,
            stamp.foreground == foreground,
            stamp.background == background,
            buffer@ == blit_rows(old(buffer)@, *geometry, stamp, row as nat),
        decreases height - row,
    {
        let ghost before = buffer@;
        assert(0 <= row * width && row * width + width <= width * height) by (nonlinear_arith)
            requires
                0 <= row < height,
                0 <= width,
        ;
        let row_start: usize = row * width;
        let mut col: usize = 0;
        while col < width
            invariant
                geometry.pixel_format.supported(),
                row < height,
                col <= width,
                row_start == row * width,
                bitmap_len == bitmap@.len(),
                row_start + width <= bitmap_len,
                stamp.width == width,
                stamp.x == x,
                stamp.y == y,
                stamp.coverage == bitmap@,
                stamp.foreground == foreground,
                stamp.background == background,
                buffer@ == blit_row(before, *geometry, stamp, row as int, col as nat),
            decreases width - col,
        {
            let alpha: u8 = bitmap[row_start + col];
            assert(stamp.coverage[row * stamp.width + (col + 1) - 1] == alpha);
            if alpha > 0 {
                match (x.checked_add(col), y.checked_add(row)) {
                    (Some(screen_x), Some(screen_y)) => {
                        if screen_x < geometry.width && screen_y < geometry.height {
                            let color: u32 = blend_colors(background, foreground, alpha);
                            match geometry.slot(screen_x, screen_y, buffer.len()) {
                                Some(offset) => {
                                    write_pixel_at_offset(buffer, geometry, offset, color);
                                },
                                None => {},
                            }
                        }
                    },
                    _ => {},
                }
            }
            col += 1;
        }
        row += 1;
    }
    Ok(())
}

} // verus!
