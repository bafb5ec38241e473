//! Colour values with four normalised 8-bit channels.

use vstd::prelude::*;

verus! {

/// The channel value that stands for full intensity (1.0).
pub const CHANNEL_MAX: u8 = 255;

/// A colour with red, green, blue and alpha channels, each in `0..=255`,
/// where 255 stands for full intensity.
#[derive(Clone, Copy, Debug, PartialEq, Eq, Structural)]
pub struct Rgba {
    pub r: u8,
    pub g: u8,
    pub b: u8,
    pub a: u8,
}

impl Rgba {
    /// Builds a colour from its four channels.
    pub fn new(r: u8, g: u8, b: u8, a: u8) -> (c: Rgba)
        ensures
            c == (Rgba { r, g, b, a }),
    {
        Rgba { r, g, b, a }
    }

    /// Fully transparent black: every channel zero.
    pub open spec fn transparent() -> Rgba {
        Rgba { r: 0, g: 0, b: 0, a: 0 }
    }

    /// Opaque white: every channel at full intensity.
    pub open spec fn white() -> Rgba {
        Rgba { r: 255, g: 255, b: 255, a: 255 }
    }

    /// Opaque black.
    pub open spec fn black() -> Rgba {
        Rgba { r: 0, g: 0, b: 0, a: 255 }
    }
}

} // verus!
