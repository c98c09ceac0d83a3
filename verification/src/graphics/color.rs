use vstd::prelude::*;
use crate::graphics::Color;

verus! {

impl Color {
    /// The 4-byte sequence a color packs to: `[r, g, b, a]`.
    pub open spec fn spec_unpack(self) -> Seq<u8> {
        seq![self.r, self.g, self.b, self.a]
    }

    #[inline]
    pub fn from_rgba(r: u8, g: u8, b: u8, a: u8) -> (c: Self)
        ensures
            c == (Color { r, g, b, a }),
    {
        Color { r, g, b, a }
    }

    #[inline]
    pub fn from_rgb(r: u8, g: u8, b: u8) -> (c: Self)
        ensures
            c == (Color { r, g, b, a: 255u8 }),
    {
        Color { r, g, b, a: 255 }
    }

    /// Reads the first four bytes of `rgba` as one color.
    #[inline]
    pub fn from_u8(rgba: &[u8]) -> (c: Self)
        requires
            rgba@.len() >= 4,
        ensures
            c == (Color { r: rgba@[0], g: rgba@[1], b: rgba@[2], a: rgba@[3] }),
    {
        Color { r: rgba[0], g: rgba[1], b: rgba[2], a: rgba[3] }
    }

    #[inline]
    pub fn unpack(self) -> (bytes: [u8; 4])
        ensures
            bytes@ == self.spec_unpack(),
    {
        let bytes = [self.r, self.g, self.b, self.a];
        proof {
            assert(bytes@ =~= self.spec_unpack());
        }
        bytes
    }

    pub fn red() -> (c: Self)
        ensures
            c == (Color { r: 255u8, g: 0u8, b: 0u8, a: 255u8 }),
    {
        Color { r: 255, g: 0, b: 0, a: 255 }
    }

    pub fn green() -> (c: Self)
        ensures
            c == (Color { r: 0u8, g: 255u8, b: 0u8, a: 255u8 }),
    {
        Color { r: 0, g: 255, b: 0, a: 255 }
    }

    pub fn blue() -> (c: Self)
        ensures
            c == (Color { r: 0u8, g: 0u8, b: 255u8, a: 255u8 }),
    {
        Color { r: 0, g: 0, b: 255, a: 255 }
    }

    pub fn white() -> (c: Self)
        ensures
            c == (Color { r: 255u8, g: 255u8, b: 255u8, a: 255u8 }),
    {
        Color { r: 255, g: 255, b: 255, a: 255 }
    }

    pub fn black() -> (c: Self)
        ensures
            c == (Color { r: 0u8, g: 0u8, b: 0u8, a: 255u8 }),
    {
        Color { r: 0, g: 0, b: 0, a: 255 }
    }

    pub fn transparent() -> (c: Self)
        ensures
            c == (Color { r: 0u8, g: 0u8, b: 0u8, a: 0u8 }),
    {
        Color { r: 0, g: 0, b: 0, a: 0 }
    }
}

/// Law: packing four channel bytes into a color and unpacking it returns
/// exactly those bytes, for all byte values.
pub proof fn color_roundtrip(r: u8, g: u8, b: u8, a: u8)
    ensures
        (Color { r, g, b, a }).spec_unpack() =~= seq![r, g, b, a],
{
}

} // verus!
