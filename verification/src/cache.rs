//! The table of recently seen pixels.

use vstd::prelude::*;

use crate::pixel::{pixel_hash, Hash64, Pixel, CACHE_SLOTS};

verus! {

/// A direct-mapped table of 64 pixels. A pixel is stored at the slot that
/// its hash selects and replaces what was there.
pub struct PixelCache {
    slots: [Pixel; 64],
}

impl View for PixelCache {
    type V = Seq<Pixel>;

    /// The 64 slots in order.
    closed spec fn view(&self) -> Seq<Pixel> {
        self.slots@
    }
}

/// The table before any pixel is stored: every slot holds the pixel whose
/// samples are all zero.
pub open spec fn empty_cache() -> Seq<Pixel> {
    Seq::new(CACHE_SLOTS as nat, |i: int| Pixel { r: 0, g: 0, b: 0, a: 0 })
}

impl PixelCache {
    /// A table with every slot zero.
    pub fn new() -> (c: PixelCache)
        ensures
            c@ == empty_cache(),
    {
        let c = PixelCache { slots: [Pixel { r: 0, g: 0, b: 0, a: 0 }; 64] };
        assert(c@ =~= empty_cache());
        c
    }

    /// The table always has 64 slots.
    pub proof fn lemma_len(&self)
        ensures
            self@.len() == CACHE_SLOTS,
    {
    }

    /// The pixel in slot `index`.
    pub fn get(&self, index: u8) -> (p: Pixel)
        requires
            index < CACHE_SLOTS,
        ensures
            p == self@[index as int],
    {
        self.slots[index as usize]
    }

    /// Stores `p` in the slot of its hash. The other slots keep what they
    /// held.
    pub fn store(&mut self, p: Pixel)
        ensures
            final(self)@ == old(self)@.update(pixel_hash(p), p),
    {
        let slot = p.hash64();
        self.slots[slot as usize] = p;
        assert(self@ =~= old(self)@.update(pixel_hash(p), p));
    }
}

} // verus!
