//! Where a field lies in a buffer: from a bit offset and a width to the bytes
//! it touches and how much of its two boundary bytes it occupies.
use vstd::prelude::*;

verus! {

/// The bytes covered by a field of `width` bits at bit `offset`.
pub struct BitSpan {
    /// Index of the byte that holds the field's least significant bit.
    pub first_byte: usize,
    /// Index of the byte that holds the field's most significant bit.
    pub last_byte: usize,
    /// Position of the field's lowest bit inside `first_byte` (`0..8`).
    pub lsb_shift: usize,
    /// Number of the field's bits in `last_byte`, counted from that byte's
    /// bit 0 (`1..=8`).
    pub msb_width: usize,
}

impl BitSpan {
    /// The span of a field of `width` bits starting at bit `offset`.
    pub fn new(offset: usize, width: usize) -> (r: BitSpan)
        requires
            1 <= width,
            offset + width <= usize::MAX,
        ensures
            r.first_byte == offset / 8,
            r.last_byte == (offset + width - 1) / 8,
            r.lsb_shift == offset % 8,
            r.msb_width == (if (offset + width) % 8 == 0 { 8 } else { (offset + width) % 8 }),
            // consequences that the codec relies on
            r.first_byte <= r.last_byte,
            8 * r.first_byte + r.lsb_shift == offset,
            8 * r.last_byte + r.msb_width == offset + width,
            1 <= r.msb_width <= 8,
            r.lsb_shift < 8,
    {
        let end = offset + width;
        let msb = end % 8;
        BitSpan {
            first_byte: offset / 8,
            last_byte: (end - 1) / 8,
            lsb_shift: offset % 8,
            msb_width: if msb == 0 { 8 } else { msb },
        }
    }

    /// The field lies within a single byte.
    pub fn is_single_byte(&self) -> (r: bool)
        ensures
            r == (self.first_byte == self.last_byte),
    {
        self.first_byte == self.last_byte
    }

    /// The field starts and ends on byte boundaries, so that it is made of
    /// whole bytes only.
    pub fn is_byte_aligned(&self) -> (r: bool)
        ensures
            r == (self.lsb_shift == 0 && self.msb_width == 8),
    {
        self.lsb_shift == 0 && self.msb_width == 8
    }
}

} // verus!
