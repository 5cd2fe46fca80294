//! The byte layout of one pixel: how a color is packed for each pixel
//! format and pixel size, and how it is read back.

use vstd::prelude::*;
use crate::color::{blue, green, lemma_channels_are_bytes, red, top};

verus! {

/// The channel order that a buffer reports for its pixels.
#[derive(Clone, Copy, Debug, PartialEq, Eq, Structural)]
pub enum PixelFormat {
    /// Red first.
    Rgb,
    /// Blue first.
    Bgr,
    /// One gray byte. Not supported for text.
    U8,
    /// A layout given by bit positions only. Not supported for text.
    Unknown { red_position: u8, green_position: u8, blue_position: u8 },
}

impl PixelFormat {
    /// The formats that pixels can be written in.
    pub open spec fn supported(self) -> bool {
        self is Rgb || self is Bgr
    }

    /// Tells whether pixels can be written in this format.
    pub fn is_supported(&self) -> (yes: bool)
        ensures
            yes == self.supported(),
    {
        match self {
            PixelFormat::Rgb => true,
            PixelFormat::Bgr => true,
            _ => false,
        }
    }
}

/// The bytes of one encoded pixel: at most four.
#[derive(Clone, Copy, Debug)]
pub struct PixelBytes {
    bytes: [u8; 4],
    len: usize,
}

impl View for PixelBytes {
    type V = Seq<u8>;

    closed spec fn view(&self) -> Seq<u8> {
        self.bytes@.take(self.len as int)
    }
}

impl PixelBytes {
    /// At most four bytes are in use.
    pub closed spec fn wf(&self) -> bool {
        self.len <= 4
    }

    /// The number of bytes.
    pub fn len(&self) -> (n: usize)
        requires
            self.wf(),
        ensures
            n == self@.len(),
            n <= 4,
    {
        self.len
    }

    /// The byte at `index`.
    pub fn get(&self, index: usize) -> (byte: u8)
        requires
            self.wf(),
            index < self@.len(),
        ensures
            byte == self@[index as int],
    {
        self.bytes[index]
    }

    /// The bytes as a vector.
    pub fn to_vec(&self) -> (bytes: Vec<u8>)
        requires
            self.wf(),
        ensures
            bytes@ == self@,
    {
        let mut bytes: Vec<u8> = Vec::new();
        let mut i: usize = 0;
        while i < self.len
            invariant
                self.wf(),
                i <= self.len,
                bytes@ == self@.take(i as int),
            decreases self.len - i,
        {
            bytes.push(self.bytes[i]);
            i += 1;
        }
        bytes
    }
}

/// The four bytes of a color, lowest first.
pub open spec fn le_bytes(color: u32) -> Seq<u8> {
    seq![blue(color) as u8, green(color) as u8, red(color) as u8, top(color) as u8]
}

/// The bytes stored for `color` in a pixel of `bytes_per_pixel` bytes.
///
/// Three-byte pixels hold the three channels in the format's order. Four-byte
/// pixels hold the color's top byte as well, in the last place: `Rgb` stores
/// blue, green, red, top, which are the color's bytes lowest first, and `Bgr`
/// stores red, green, blue, top. The two orders are what the display
/// firmware takes; neither follows from the three-byte order. Any other
/// pixel size holds the color's bytes lowest first, cut to the pixel size
/// and to four.
pub open spec fn encoded(format: PixelFormat, bytes_per_pixel: nat, color: u32) -> Seq<u8> {
    let r = red(color) as u8;
    let g = green(color) as u8;
    let b = blue(color) as u8;
    let t = top(color) as u8;
    if bytes_per_pixel == 3 && format is Rgb {
        seq![r, g, b]
    } else if bytes_per_pixel == 4 && format is Rgb {
        seq![b, g, r, t]
    } else if bytes_per_pixel == 3 && format is Bgr {
        seq![b, g, r]
    } else if bytes_per_pixel == 4 && format is Bgr {
        seq![r, g, b, t]
    } else {
        le_bytes(color).take(if bytes_per_pixel < 4 { bytes_per_pixel as int } else { 4 })
    }
}

/// The color made of four bytes, `t` on top.
pub open spec fn color_of(t: u8, r: u8, g: u8, b: u8) -> u32 {
    ((t as u32) << 24) | ((r as u32) << 16) | ((g as u32) << 8) | (b as u32)
}

/// The byte of `bytes` at `index`, or zero past its end.
pub open spec fn byte_or_zero(bytes: Seq<u8>, index: int) -> u8 {
    if 0 <= index < bytes.len() {
        bytes[index]
    } else {
        0
    }
}

/// The color that the first bytes of `bytes` stand for: the reading of
/// `encoded` backwards. A channel that the pixel does not hold reads as zero.
pub open spec fn decoded(format: PixelFormat, bytes_per_pixel: nat, bytes: Seq<u8>) -> u32 {
    if bytes_per_pixel == 3 && format is Rgb {
        color_of(0, bytes[0], bytes[1], bytes[2])
    } else if bytes_per_pixel == 4 && format is Rgb {
        color_of(bytes[3], bytes[2], bytes[1], bytes[0])
    } else if bytes_per_pixel == 3 && format is Bgr {
        color_of(0, bytes[2], bytes[1], bytes[0])
    } else if bytes_per_pixel == 4 && format is Bgr {
        color_of(bytes[3], bytes[0], bytes[1], bytes[2])
    } else {
        let n = if bytes_per_pixel < 4 { bytes_per_pixel as int } else { 4 };
        let kept = bytes.take(n);
        color_of(
            byte_or_zero(kept, 3),
            byte_or_zero(kept, 2),
            byte_or_zero(kept, 1),
            byte_or_zero(kept, 0),
        )
    }
}

/// An encoded pixel never has more bytes than the pixel size, nor more than
/// four.
pub proof fn lemma_encoded_len(format: PixelFormat, bytes_per_pixel: nat, color: u32)
    ensures
        encoded(format, bytes_per_pixel, color).len() <= bytes_per_pixel,
        encoded(format, bytes_per_pixel, color).len() <= 4,
        bytes_per_pixel >= 4 ==> encoded(format, bytes_per_pixel, color).len() == 4,
        bytes_per_pixel < 4 ==> encoded(format, bytes_per_pixel, color).len() == bytes_per_pixel,
{
}

/// Putting the four bytes of a color together gives the color back.
proof fn lemma_color_of_channels(color: u32)
    ensures
        color_of(top(color) as u8, red(color) as u8, green(color) as u8, blue(color) as u8)
            == color,
        color <= 0xFFFFFF ==> color_of(0, red(color) as u8, green(color) as u8, blue(color) as u8)
            == color,
{
    assert((((((color >> 24) & 0xFF) as u8) as u32) << 24) | (((((color >> 16) & 0xFF) as u8) as u32)
        << 16) | (((((color >> 8) & 0xFF) as u8) as u32) << 8) | (((color & 0xFF) as u8) as u32)
        == color) by (bit_vector);
    assert(color <= 0xFFFFFF ==> ((0u8 as u32) << 24) | (((((color >> 16) & 0xFF) as u8) as u32)
        << 16) | (((((color >> 8) & 0xFF) as u8) as u32) << 8) | (((color & 0xFF) as u8) as u32)
        == color) by (bit_vector);
}

/// Decoding what was encoded gives the color back: for every 24-bit color in
/// both formats at three bytes per pixel, and for every color at all where a
/// pixel has four bytes or more.
pub proof fn lemma_decode_encode(format: PixelFormat, bytes_per_pixel: nat, color: u32)
    requires
        format.supported(),
        bytes_per_pixel >= 3,
        color <= 0xFFFFFF || bytes_per_pixel >= 4,
    ensures
        decoded(format, bytes_per_pixel, encoded(format, bytes_per_pixel, color)) == color,
{
    lemma_color_of_channels(color);
}

/// Packs `color` for a pixel of `bytes_per_pixel` bytes in `format`. A
/// format that is not supported gives `None`.
pub fn encode_pixel(format: PixelFormat, bytes_per_pixel: usize, color: u32) -> (pixel: Option<
    PixelBytes,
>)
    ensures
        pixel is Some <==> format.supported(),
        pixel is Some ==> pixel->0.wf() && pixel->0@ == encoded(
            format,
            bytes_per_pixel as nat,
            color,
        ),
{
    let b: u8 = (color & 0xFF) as u8;
    let g: u8 = ((color >> 8) & 0xFF) as u8;
    let r: u8 = ((color >> 16) & 0xFF) as u8;
    let t: u8 = ((color >> 24) & 0xFF) as u8;
    proof {
        lemma_channels_are_bytes(color);
    }
    let kept: usize = if bytes_per_pixel < 4 {
        bytes_per_pixel
    } else {
        4
    };
    let pixel = match format {
        PixelFormat::Rgb => {
            if bytes_per_pixel == 3 {
                PixelBytes { bytes: [r, g, b, 0], len: 3 }
            } else if bytes_per_pixel == 4 {
                PixelBytes { bytes: [b, g, r, t], len: 4 }
            } else {
                PixelBytes { bytes: [b, g, r, t], len: kept }
            }
        },
        PixelFormat::Bgr => {
            if bytes_per_pixel == 3 {
                PixelBytes { bytes: [b, g, r, 0], len: 3 }
            } else if bytes_per_pixel == 4 {
                PixelBytes { bytes: [r, g, b, t], len: 4 }
            } else {
                PixelBytes { bytes: [b, g, r, t], len: kept }
            }
        },
        _ => {
            return None;
        },
    };
    assert(pixel@ =~= encoded(format, bytes_per_pixel as nat, color));
    Some(pixel)
}

/// Reads the color back from the first bytes of a pixel. Gives `None` for a
/// format that is not supported and for fewer bytes than an encoded pixel has.
pub fn decode_pixel(format: PixelFormat, bytes_per_pixel: usize, bytes: &[u8]) -> (color: Option<
    u32,
>)
    ensures
        color is Some <==> format.supported() && bytes@.len() >= encoded(
            format,
            bytes_per_pixel as nat,
            0,
        ).len(),
        color is Some ==> color->0 == decoded(format, bytes_per_pixel as nat, bytes@),
{
    let n: usize = if bytes_per_pixel < 4 { bytes_per_pixel } else { 4 };
    if !format.is_supported() || bytes.len() < n {
        return None;
    }
    let b0: u32 = if n > 0 { bytes[0] as u32 } else { 0 };
    let b1: u32 = if n > 1 { bytes[1] as u32 } else { 0 };
    let b2: u32 = if n > 2 { bytes[2] as u32 } else { 0 };
    let b3: u32 = if n > 3 { bytes[3] as u32 } else { 0 };
    let color: u32 = match format {
        PixelFormat::Rgb => {
            if bytes_per_pixel == 3 {
                (b0 << 16) | (b1 << 8) | b2
            } else if bytes_per_pixel == 4 {
                (b3 << 24) | (b2 << 16) | (b1 << 8) | b0
            } else {
                (b3 << 24) | (b2 << 16) | (b1 << 8) | b0
            }
        },
        _ => {
            if bytes_per_pixel == 3 {
                (b2 << 16) | (b1 << 8) | b0
            } else if bytes_per_pixel == 4 {
                (b3 << 24) | (b0 << 16) | (b1 << 8) | b2
            } else {
                (b3 << 24) | (b2 << 16) | (b1 << 8) | b0
            }
        },
    };
    proof {
        assert(forall|x: u32| (0u32 << 24) | x == x) by (bit_vector);
        assert(forall|x: u32, y: u32, z: u32|
            #![auto]
            (x << 16) | (y << 8) | z == ((0u32 << 24) | (x << 16) | (y << 8) | z))
            by (bit_vector);
    }
    Some(color)
}

} // verus!
