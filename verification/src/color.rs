//! Colours of three eight-bit channels.

use vstd::prelude::*;
use crate::frame::{rgba_channels, rgba_from_channels};
use crate::scalar::Scalar;

verus! {

/// The alpha channel of every pixel handed out: fully opaque.
pub const OPAQUE: u8 = 255;

/// A colour of three eight-bit channels.
#[derive(Clone, Copy, Debug, PartialEq, Eq, Structural)]
pub struct Color {
    pub r: u8,
    pub g: u8,
    pub b: u8,
}

impl Color {
    /// The four samples of this colour as a pixel: red, green, blue, and
    /// an opaque alpha.
    pub open spec fn samples(self) -> Seq<u8> {
        seq![self.r, self.g, self.b, OPAQUE]
    }

    /// The colour whose channels are the three levels, each rounded to the
    /// nearest whole number from 0 to 255.
    pub open spec fn of_levels(red: Scalar, green: Scalar, blue: Scalar) -> Color {
        Color {
            r: red.rounded(255) as u8,
            g: green.rounded(255) as u8,
            b: blue.rounded(255) as u8,
        }
    }

    /// Black: the colour of a point that never escapes.
    pub fn black() -> (c: Color)
        ensures
            c == (Color { r: 0, g: 0, b: 0 }),
    {
        Color { r: 0, g: 0, b: 0 }
    }

    /// The colour of three channel levels. A level is rounded to the nearest
    /// whole number, halves away from zero: below zero it gives 0, above 255
    /// it gives 255, and a level that is not a number gives 0.
    pub fn from_levels(red: Scalar, green: Scalar, blue: Scalar) -> (c: Color)
        ensures
            c == Color::of_levels(red, green, blue),
            c.r == red.rounded(255),
            c.g == green.rounded(255),
            c.b == blue.rounded(255),
    {
        Color { r: red.to_channel(), g: green.to_channel(), b: blue.to_channel() }
    }

    /// This colour as an opaque RGBA pixel.
    pub fn to_pixel(&self) -> (pixel: image::Rgba<u8>)
        ensures
            rgba_channels(pixel) == self.samples(),
    {
        rgba_from_channels(self.r, self.g, self.b, OPAQUE)
    }
}

/// Whatever the levels, no channel leaves the range from 0 to 255: each
/// is its level rounded into that range, and nothing is lost in storing it.
pub proof fn lemma_levels_stay_in_range(red: Scalar, green: Scalar, blue: Scalar)
    ensures
        0 <= red.rounded(255) <= 255,
        0 <= green.rounded(255) <= 255,
        0 <= blue.rounded(255) <= 255,
        Color::of_levels(red, green, blue).r == red.rounded(255),
        Color::of_levels(red, green, blue).g == green.rounded(255),
        Color::of_levels(red, green, blue).b == blue.rounded(255),
{
}

} // verus!
