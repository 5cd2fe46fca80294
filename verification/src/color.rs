//! 24-bit colors and per-channel alpha compositing.

use vstd::prelude::*;

verus! {

/// Pure white, the default foreground.
pub const WHITE: u32 = 0xFFFFFF;

/// Pure black, the default background.
pub const BLACK: u32 = 0x000000;

/// A mid gray.
pub const GRAY: u32 = 0x808080;

/// The red channel of a color: bits 16 to 23.
pub open spec fn red(color: u32) -> u32 {
    (color >> 16) & 0xFF
}

/// The green channel of a color: bits 8 to 15.
pub open spec fn green(color: u32) -> u32 {
    (color >> 8) & 0xFF
}

/// The blue channel of a color: bits 0 to 7.
pub open spec fn blue(color: u32) -> u32 {
    color & 0xFF
}

/// The byte above the three channels: bits 24 to 31.
pub open spec fn top(color: u32) -> u32 {
    (color >> 24) & 0xFF
}

/// The 24-bit color with the given channels.
pub open spec fn rgb(r: u32, g: u32, b: u32) -> u32 {
    (r << 16) | (g << 8) | b
}

/// One channel of `fg` laid over `bg` with coverage `alpha`, by integer
/// division.
pub open spec fn blend_channel(bg: u32, fg: u32, alpha: u8) -> u32 {
    ((fg * alpha + bg * (255 - alpha)) / 255) as u32
}

/// `fg` laid over `bg` with coverage `alpha`. Full coverage gives `fg`
/// itself and no coverage gives `bg` itself, top byte included; anything in
/// between is mixed channel by channel into a 24-bit color.
pub open spec fn blend(bg: u32, fg: u32, alpha: u8) -> u32 {
    if alpha == 255 {
        fg
    } else if alpha == 0 {
        bg
    } else {
        rgb(
            blend_channel(red(bg), red(fg), alpha),
            blend_channel(green(bg), green(fg), alpha),
            blend_channel(blue(bg), blue(fg), alpha),
        )
    }
}

/// A channel is a byte.
pub proof fn lemma_channels_are_bytes(color: u32)
    ensures
        red(color) <= 255,
        green(color) <= 255,
        blue(color) <= 255,
        top(color) <= 255,
{
    assert((color >> 16) & 0xFF <= 255) by (bit_vector);
    assert((color >> 8) & 0xFF <= 255) by (bit_vector);
    assert(color & 0xFF <= 255) by (bit_vector);
    assert((color >> 24) & 0xFF <= 255) by (bit_vector);
}

/// A blended channel lies between the two channels it mixes, so it is a
/// byte again.
pub proof fn lemma_blend_channel_bounds(bg: u32, fg: u32, alpha: u8)
    requires
        bg <= 255,
        fg <= 255,
    ensures
        fg * alpha + bg * (255 - alpha) <= 255 * 255,
        blend_channel(bg, fg, alpha) <= 255,
        bg <= fg ==> bg <= blend_channel(bg, fg, alpha) <= fg,
        fg <= bg ==> fg <= blend_channel(bg, fg, alpha) <= bg,
{
    let a = alpha as int;
    let lo = if bg <= fg { bg as int } else { fg as int };
    let hi = if bg <= fg { fg as int } else { bg as int };
    assert(lo * 255 <= fg * a + bg * (255 - a) <= hi * 255) by (nonlinear_arith)
        requires
            0 <= a <= 255,
            lo <= fg <= hi,
            lo <= bg <= hi,
    ;
}

/// Full coverage shows the foreground exactly and no coverage shows the
/// background exactly, whatever the two colors are.
pub proof fn lemma_blend_exact(bg: u32, fg: u32)
    ensures
        blend(bg, fg, 255) == fg,
        blend(bg, fg, 0) == bg,
{
}

/// Lays `fg` over `bg` with coverage `alpha`.
pub fn blend_colors(bg: u32, fg: u32, alpha: u8) -> (color: u32)
    ensures
        color == blend(bg, fg, alpha),
{
    if alpha == 255 {
        return fg;
    }
    if alpha == 0 {
        return bg;
    }
    let a: u32 = alpha as u32;
    let inv: u32 = 255 - a;
    let bg_r: u32 = (bg >> 16) & 0xFF;
    let bg_g: u32 = (bg >> 8) & 0xFF;
    let bg_b: u32 = bg & 0xFF;
    let fg_r: u32 = (fg >> 16) & 0xFF;
    let fg_g: u32 = (fg >> 8) & 0xFF;
    let fg_b: u32 = fg & 0xFF;
    proof {
        lemma_channels_are_bytes(bg);
        lemma_channels_are_bytes(fg);
        lemma_blend_channel_bounds(bg_r, fg_r, alpha);
        lemma_blend_channel_bounds(bg_g, fg_g, alpha);
        lemma_blend_channel_bounds(bg_b, fg_b, alpha);
        assert(fg_r * a <= 255 * 255 && bg_r * inv <= 255 * 255 && fg_g * a <= 255 * 255 && bg_g
            * inv <= 255 * 255 && fg_b * a <= 255 * 255 && bg_b * inv <= 255 * 255)
            by (nonlinear_arith)
            requires
                fg_r <= 255,
                fg_g <= 255,
                fg_b <= 255,
                bg_r <= 255,
                bg_g <= 255,
                bg_b <= 255,
                a <= 255,
                inv <= 255,
        ;
    }
    let r: u32 = (fg_r * a + bg_r * inv) / 255;
    let g: u32 = (fg_g * a + bg_g * inv) / 255;
    let b: u32 = (fg_b * a + bg_b * inv) / 255;
    (r << 16) | (g << 8) | b
}

} // verus!
