use vstd::prelude::*;
use embedded_graphics_core::pixelcolor::raw::RawU24;
use embedded_graphics_core::pixelcolor::{Bgr888, IntoStorage, RgbColor};

verus! {

/// A 24-bit colour with one byte per channel, stored by the display as a
/// `Bgr888` word.
#[derive(Clone, Copy, Debug, PartialEq, Eq, Structural)]
pub struct Color {
    pub r: u8,
    pub g: u8,
    pub b: u8,
}

/// The `Bgr888` storage word of a colour: red in the lowest byte, green in
/// the middle byte and blue in the third byte; the top byte is zero.
pub open spec fn storage_word(r: u8, g: u8, b: u8) -> u32 {
    (r as int + 256 * (g as int) + 65536 * (b as int)) as u32
}

/// The colour that a `Bgr888` storage word decodes to; the top byte is ignored.
pub open spec fn color_of_word(w: u32) -> Color {
    Color { r: (w % 256) as u8, g: ((w / 256) % 256) as u8, b: ((w / 65536) % 256) as u8 }
}

/// Calls `Bgr888::new(r, g, b)` and `IntoStorage::into_storage` of
/// embedded-graphics-core. Claimed: the word holds red in bits 0..8, green
/// in bits 8..16 and blue in bits 16..24 (the `Bgr = (8, 8, 8)` layout of the
/// crate's `rgb_color!` macro, with channel masks of 0xff).
#[verifier::external_body]
fn bgr888_into_storage(r: u8, g: u8, b: u8) -> (w: u32)
    ensures
        w == storage_word(r, g, b),
{
    Bgr888::new(r, g, b).into_storage()
}

/// Calls `Bgr888::from(RawU24::new(w))` of embedded-graphics-core and reads
/// back its channels with `RgbColor::r`, `g` and `b`. Claimed: `RawU24::new`
/// masks the word to 24 bits and the channels are the bytes at bits 0, 8
/// and 16.
#[verifier::external_body]
fn bgr888_from_word(w: u32) -> (c: (u8, u8, u8))
    ensures
        c.0 == w % 256,
        c.1 == (w / 256) % 256,
        c.2 == (w / 65536) % 256,
{
    let color = Bgr888::from(RawU24::new(w));
    (color.r(), color.g(), color.b())
}

impl Color {
    /// A colour from its red, green and blue channels.
    pub fn new(r: u8, g: u8, b: u8) -> (c: Color)
        ensures
            c == (Color { r, g, b }),
    {
        Color { r, g, b }
    }

    /// The `Bgr888` storage word of this colour.
    pub fn into_storage(self) -> (w: u32)
        ensures
            w == storage_word(self.r, self.g, self.b),
            w < 0x100_0000,
    {
        bgr888_into_storage(self.r, self.g, self.b)
    }

    /// The colour that a `Bgr888` storage word holds; bits above 24 are ignored.
    pub fn from_storage(w: u32) -> (c: Color)
        ensures
            c == color_of_word(w),
    {
        let (r, g, b) = bgr888_from_word(w);
        Color { r, g, b }
    }
}

/// Decoding the storage word of a colour gives the colour back.
pub proof fn law_storage_roundtrip(c: Color)
    ensures
        color_of_word(storage_word(c.r, c.g, c.b)) == c,
        storage_word(c.r, c.g, c.b) < 0x100_0000,
{
    let w = storage_word(c.r, c.g, c.b);
    assert(w as int == c.r as int + 256 * (c.g as int) + 65536 * (c.b as int));
    assert(w % 256 == c.r as int);
    assert((w / 256) % 256 == c.g as int);
    assert((w / 65536) % 256 == c.b as int);
}

} // verus!
