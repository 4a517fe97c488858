//! Colour samples.

use vstd::prelude::*;

verus! {

/// A colour of three eight-bit channels.
#[derive(Clone, Copy, Debug, PartialEq, Eq, Structural)]
pub struct Rgb {
    pub r: u8,
    pub g: u8,
    pub b: u8,
}

impl Rgb {
    /// The current that the colour is taken to draw: the sum of its channels.
    pub open spec fn draw(self) -> nat {
        (self.r + self.g + self.b) as nat
    }

    /// The colour of the three channels.
    pub fn new(r: u8, g: u8, b: u8) -> (color: Self)
        ensures
            color == (Rgb { r, g, b }),
    {
        Self { r, g, b }
    }
}

impl Default for Rgb {
    /// Black.
    fn default() -> (color: Self)
        ensures
            color == (Rgb { r: 0, g: 0, b: 0 }),
    {
        Self { r: 0, g: 0, b: 0 }
    }
}

} // verus!
