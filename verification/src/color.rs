use vstd::prelude::*;

verus! {

/// An RGB color with 8-bit channels. One color value is sampled per shape
/// draw call and shared by every pixel of that shape.
#[derive(Clone, Copy, PartialEq, Eq, Structural, Debug)]
pub struct Rgb {
    pub r: u8,
    pub g: u8,
    pub b: u8,
}

impl Rgb {
    /// The RGBA channel quadruple this color writes into a canvas
    /// (alpha is always full opacity).
    pub open spec fn channels(self) -> (u8, u8, u8, u8) {
        (self.r, self.g, self.b, 255u8)
    }

    pub fn new(r: u8, g: u8, b: u8) -> (c: Rgb)
        ensures
            c == (Rgb { r, g, b }),
    {
        Rgb { r, g, b }
    }
}

} // verus!
