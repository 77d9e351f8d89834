//! Plain geometry value types: colors and integer screen coordinates.

use vstd::prelude::*;

verus! {

/// An 8-bit-per-channel RGB color.
#[derive(Debug, Copy, Clone, PartialEq, Eq, Structural)]
pub struct Color {
    pub r: u8,
    pub g: u8,
    pub b: u8,
}

impl Color {
    pub fn black() -> (c: Color)
        ensures
            c == (Color { r: 0, g: 0, b: 0 }),
    {
        Color { r: 0, g: 0, b: 0 }
    }

    pub fn white() -> (c: Color)
        ensures
            c == (Color { r: 255, g: 255, b: 255 }),
    {
        Color { r: 255, g: 255, b: 255 }
    }

    pub fn red() -> (c: Color)
        ensures
            c == (Color { r: 255, g: 0, b: 0 }),
    {
        Color { r: 255, g: 0, b: 0 }
    }

    pub fn green() -> (c: Color)
        ensures
            c == (Color { r: 0, g: 255, b: 0 }),
    {
        Color { r: 0, g: 255, b: 0 }
    }

    pub fn blue() -> (c: Color)
        ensures
            c == (Color { r: 0, g: 0, b: 255 }),
    {
        Color { r: 0, g: 0, b: 255 }
    }
}

/// A pixel-space coordinate: `x` grows rightward, `y` grows downward.
/// Signed, so off-screen intermediate results are representable before
/// clipping.
#[derive(Debug, Copy, Clone, PartialEq, Eq, Structural)]
pub struct PointScreen {
    pub x: isize,
    pub y: isize,
}

} // verus!
