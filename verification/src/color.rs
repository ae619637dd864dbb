use vstd::prelude::*;

verus! {

/// One RGBA pixel, 8 bits per channel.
#[derive(Clone, Copy, Debug, PartialEq, Eq, Structural)]
pub struct Color {
    pub r: u8,
    pub g: u8,
    pub b: u8,
    pub a: u8,
}

impl Color {
    /// Builds a color from its four channels.
    pub fn new(r: u8, g: u8, b: u8, a: u8) -> (c: Color)
        ensures
            c == (Color { r, g, b, a }),
    {
        Color { r, g, b, a }
    }

    /// Fully transparent black, the value of every pixel of a fresh image.
    pub open spec fn transparent() -> Color {
        Color { r: 0, g: 0, b: 0, a: 0 }
    }

    /// Fully transparent black.
    pub fn clear() -> (c: Color)
        ensures
            c == Color::transparent(),
    {
        Color { r: 0, g: 0, b: 0, a: 0 }
    }

    /// An opaque color.
    pub fn rgb(r: u8, g: u8, b: u8) -> (c: Color)
        ensures
            c == (Color { r, g, b, a: 255 }),
    {
        Color { r, g, b, a: 255 }
    }
}

} // verus!
