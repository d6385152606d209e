//! The colours the console can draw in.

use vstd::prelude::*;

verus! {

/// A foreground colour of the console.
#[derive(Debug, Clone, Copy, PartialEq, Eq, Structural)]
pub enum Color {
    White,
    Red,
    Green,
    Blue,
}

impl Color {
    /// The 32-bit ARGB value of the colour, alpha fully opaque.
    pub open spec fn spec_argb(self) -> u32 {
        match self {
            Color::White => 0xFFFF_FFFFu32,
            Color::Red => 0xFFFF_0000u32,
            Color::Green => 0xFF00_FF00u32,
            Color::Blue => 0xFF00_00FFu32,
        }
    }

    /// The value that is stored into display memory for a pixel of this colour.
    #[verifier::when_used_as_spec(spec_argb)]
    pub fn argb(self) -> (value: u32)
        ensures
            value == self.spec_argb(),
    {
        match self {
            Color::White => 0xFFFF_FFFFu32,
            Color::Red => 0xFFFF_0000u32,
            Color::Green => 0xFF00_FF00u32,
            Color::Blue => 0xFF00_00FFu32,
        }
    }
}

} // verus!
