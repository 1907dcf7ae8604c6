use vstd::prelude::*;
use crate::color::Rgb;

verus! {

/// Relies on `rand::random`: it returns a sampled value of `T`; nothing is
/// promised of the outcome.
pub assume_specification<T>[ rand::random::<T> ]() -> (r: T)
    where
        rand::distr::StandardUniform: rand::distr::Distribution<T>,
;

/// A sample in `[0, n)`: the magnitude of a random integer, reduced modulo
/// `n`. Whatever the random source returns, the result is in range.
pub fn sample_below(n: i32) -> (r: i32)
    requires
        1 <= n,
    ensures
        0 <= r < n,
{
    let raw: i32 = rand::random::<i32>();
    let mag: i32 = if raw == i32::MIN {
        0
    } else if raw < 0 {
        -raw
    } else {
        raw
    };
    mag % n
}

/// A freshly sampled color: three random 8-bit channels.
pub fn sample_color() -> (c: Rgb) {
    let r: u8 = rand::random::<u8>();
    let g: u8 = rand::random::<u8>();
    let b: u8 = rand::random::<u8>();
    Rgb { r, g, b }
}

} // verus!
