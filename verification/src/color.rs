use vstd::prelude::*;

verus! {

/// An RGB color, one byte per channel.
#[derive(Clone, Copy, PartialEq, Eq, Structural, Debug)]
pub struct Color {
    pub r: u8,
    pub g: u8,
    pub b: u8,
}

impl Color {
    /// The color of empty space and of rays captured by the horizon.
    pub open spec fn spec_black() -> Color {
        Color { r: 0, g: 0, b: 0 }
    }

    /// The color of a background star.
    pub open spec fn spec_white() -> Color {
        Color { r: 255, g: 255, b: 255 }
    }

    /// The banded orange of the accretion disk: the red and green channels
    /// carry the radial pattern, the blue channel is always dark.
    pub open spec fn spec_disk(r: u8, g: u8) -> Color {
        Color { r: r, g: g, b: 0 }
    }

    pub fn black() -> (c: Color)
        ensures
            c == Color::spec_black(),
    {
        Color { r: 0, g: 0, b: 0 }
    }

    pub fn white() -> (c: Color)
        ensures
            c == Color::spec_white(),
    {
        Color { r: 255, g: 255, b: 255 }
    }

    pub fn disk(r: u8, g: u8) -> (c: Color)
        ensures
            c == Color::spec_disk(r, g),
    {
        Color { r: r, g: g, b: 0 }
    }
}

} // verus!
