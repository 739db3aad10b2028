//! Pixels and the hash that places them in the cache.

use vstd::prelude::*;

verus! {

/// The number of slots that a [`Hash64`] hash selects among.
pub const CACHE_SLOTS: usize = 64;

/// A hash into 64 slots.
pub trait Hash64 {
    /// The slot that the value hashes to.
    spec fn hash64_spec(&self) -> u8;

    /// Computes the slot that the value hashes to, always below 64.
    fn hash64(&self) -> (h: u8)
        ensures
            h == self.hash64_spec(),
            h < 64,
    ;
}

/// One pixel: red, green, blue and alpha samples of 8 bits each.
#[derive(Clone, Copy, Debug, PartialEq, Eq, Structural)]
pub struct Pixel {
    pub r: u8,
    pub g: u8,
    pub b: u8,
    pub a: u8,
}

/// The cache slot of a pixel: `(3r + 5g + 7b + 11a) mod 64`.
pub open spec fn pixel_hash(p: Pixel) -> int {
    (p.r * 3 + p.g * 5 + p.b * 7 + p.a * 11) % 64
}

impl Pixel {
    /// A pixel with the given samples.
    pub fn new(r: u8, g: u8, b: u8, a: u8) -> (p: Pixel)
        ensures
            p == (Pixel { r, g, b, a }),
    {
        Pixel { r, g, b, a }
    }
}

impl Hash64 for Pixel {
    open spec fn hash64_spec(&self) -> u8 {
        pixel_hash(*self) as u8
    }

    fn hash64(&self) -> (h: u8)
        ensures
            h == pixel_hash(*self),
    {
        let sum: u32 = self.r as u32 * 3 + self.g as u32 * 5 + self.b as u32 * 7 + self.a as u32
            * 11;
        (sum % 64) as u8
    }
}

} // verus!
