use vstd::prelude::*;

mod color;
mod sprite;

verus! {

/// A 4-byte RGBA color value. Channels are plain bytes; no premultiplication.
#[derive(Clone, Copy, Debug, PartialEq, Eq, Structural)]
pub struct Color {
    pub r: u8,
    pub g: u8,
    pub b: u8,
    pub a: u8,
}

/// An immutable `width x height` grid of colors, row-major, built once from
/// decoded image data.
#[derive(Clone, Debug)]
pub struct Sprite {
    pub width: u32,
    pub height: u32,
    pub rgba: Vec<Color>,
}

/// Model of a sprite: its dimensions and its row-major pixel sequence.
pub struct SpriteModel {
    pub width: nat,
    pub height: nat,
    pub pixels: Seq<Color>,
}

impl SpriteModel {
    /// One color for each of the sprite's pixels.
    pub open spec fn wf(self) -> bool {
        self.pixels.len() == self.width * self.height
    }
}

impl View for Sprite {
    type V = SpriteModel;

    open spec fn view(&self) -> SpriteModel {
        SpriteModel { width: self.width as nat, height: self.height as nat, pixels: self.rgba@ }
    }
}

/// Why a sprite could not be built.
#[derive(Clone, Copy, Debug, PartialEq, Eq, Structural)]
pub enum DecodeError {
    /// The bytes are not a decodable image.
    Malformed,
    /// The raw pixel data does not hold 4 bytes per pixel.
    LengthMismatch,
}

} // verus!
