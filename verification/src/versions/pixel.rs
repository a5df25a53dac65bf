//! The three channels of a colour, as a red/green/blue pixel.
use vstd::prelude::*;

verus! {

/// A red, green and blue pixel of 8-bit channels.
#[derive(Debug, Clone, Copy, PartialEq, Eq, Structural)]
pub struct Rgb {
    /// Red channel.
    pub r: u8,
    /// Green channel.
    pub g: u8,
    /// Blue channel.
    pub b: u8,
}

} // verus!
