//! Pixel colours as the framebuffer stores them (blue, green, red, padding).

use vstd::prelude::*;

verus! {

/// One framebuffer pixel, laid out as the hardware reads it: blue, green,
/// red, then one byte of padding.
#[derive(Copy, Clone, PartialEq, Eq, Structural, PartialOrd, Ord, Debug)]
pub struct Color {
    pub b: u8,
    pub g: u8,
    pub r: u8,
    pub _pad: u8,
}

impl Color {
    /// The colour that fills the screen behind text.
    #[verifier::allow_in_spec]
    pub fn background_color() -> Color
        returns
            (Color { r: 0x0F, g: 0x0F, b: 0x0F, _pad: 0 }),
    {
        Color { r: 0x0F, g: 0x0F, b: 0x0F, _pad: 0 }
    }

    /// Off-white, the default text colour.
    #[verifier::allow_in_spec]
    pub fn white() -> Color
        returns
            (Color { r: 0xDF, g: 0xDF, b: 0xDF, _pad: 0 }),
    {
        Color { r: 0xDF, g: 0xDF, b: 0xDF, _pad: 0 }
    }

    /// Pure black.
    #[verifier::allow_in_spec]
    pub fn black() -> Color
        returns
            (Color { r: 0x00, g: 0x00, b: 0x00, _pad: 0 }),
    {
        Color { r: 0x00, g: 0x00, b: 0x00, _pad: 0 }
    }

    /// The colour of error lines.
    #[verifier::allow_in_spec]
    pub fn red() -> Color
        returns
            (Color { r: 0xAA, g: 0x00, b: 0x00, _pad: 0 }),
    {
        Color { r: 0xAA, g: 0x00, b: 0x00, _pad: 0 }
    }

    /// The colour of warning lines.
    #[verifier::allow_in_spec]
    pub fn yellow() -> Color
        returns
            (Color { r: 0xFF, g: 0xFF, b: 0x55, _pad: 0 }),
    {
        Color { r: 0xFF, g: 0xFF, b: 0x55, _pad: 0 }
    }

    /// The colour of informational lines.
    #[verifier::allow_in_spec]
    pub fn light_gray() -> Color
        returns
            (Color { r: 0xAA, g: 0xAA, b: 0xAA, _pad: 0 }),
    {
        Color { r: 0xAA, g: 0xAA, b: 0xAA, _pad: 0 }
    }

    /// The colour of debug lines.
    #[verifier::allow_in_spec]
    pub fn light_green() -> Color
        returns
            (Color { r: 0x55, g: 0xFF, b: 0x55, _pad: 0 }),
    {
        Color { r: 0x55, g: 0xFF, b: 0x55, _pad: 0 }
    }
}

} // verus!
