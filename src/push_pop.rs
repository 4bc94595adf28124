//! Accumulators that assemble a storage value from chunks of at most eight
//! bits (most significant first) or take it apart (least significant first).
use vstd::prelude::*;

verus! {

/// The low `n` bits of a byte set, for `n` in `1..=8`.
pub open spec fn low_mask8(n: u8) -> u8 {
    0xFFu8 >> ((8 - n) as u8)
}

/// Appending the low `amount` bits of `bits` below the bits of `acc`.
pub open spec fn push_spec(acc: u128, amount: u8, bits: u8) -> u128 {
    (acc << (amount as u128)) | ((bits & low_mask8(amount)) as u128)
}

/// The low `amount` bits of `acc`, as a byte.
pub open spec fn pop_spec(acc: u128, amount: u8) -> u8 {
    (acc & (0xFFu128 >> ((8 - amount) as u128))) as u8
}

/// A register that bits can be pushed onto, most significant chunk first.
pub trait PushBits {
    /// What the register holds.
    spec fn register(&self) -> u128;

    /// Shifts the register left by `amount` and puts the low `amount` bits
    /// of `bits` into the freed low bits.
    fn push_bits(&mut self, amount: u32, bits: u8)
        requires
            1 <= amount <= 8,
        ensures
            final(self).register() == push_spec(old(self).register(), amount as u8, bits);
}

/// A register that bits can be popped from, least significant chunk first.
pub trait PopBits {
    /// What the register holds.
    spec fn register(&self) -> u128;

    /// Takes the low `amount` bits off the register and returns them.
    fn pop_bits(&mut self, amount: u32) -> (r: u8)
        requires
            1 <= amount <= 8,
        ensures
            r == pop_spec(old(self).register(), amount as u8),
            final(self).register() == old(self).register() >> (amount as u128);
}

/// A register onto which bits are pushed, most significant chunk first.
pub struct PushBuffer {
    bytes: u128,
}

impl View for PushBuffer {
    type V = u128;

    closed spec fn view(&self) -> u128 {
        self.bytes
    }
}

impl Default for PushBuffer {
    /// An empty register: all bits are 0.
    fn default() -> (r: PushBuffer)
        ensures
            r@ == 0,
    {
        PushBuffer { bytes: 0 }
    }
}

impl PushBits for PushBuffer {
    open spec fn register(&self) -> u128 {
        self@
    }

    fn push_bits(&mut self, amount: u32, bits: u8) {
        let amount = amount as u8;
        let bitmask: u8 = 0xFFu8 >> (8 - amount);
        self.bytes = (self.bytes << amount) | ((bits & bitmask) as u128);
    }
}

impl PushBuffer {
    /// The assembled value.
    pub fn into_bytes(self) -> (r: u128)
        ensures
            r == self@,
    {
        self.bytes
    }
}

/// A register from which bits are popped, least significant chunk first.
pub struct PopBuffer {
    bytes: u128,
}

impl View for PopBuffer {
    type V = u128;

    closed spec fn view(&self) -> u128 {
        self.bytes
    }
}

impl PopBuffer {
    /// A register that holds `bytes`.
    pub fn from_bytes(bytes: u128) -> (r: PopBuffer)
        ensures
            r@ == bytes,
    {
        PopBuffer { bytes }
    }
}

impl PopBits for PopBuffer {
    open spec fn register(&self) -> u128 {
        self@
    }

    fn pop_bits(&mut self, amount: u32) -> (r: u8) {
        let bitmask: u128 = 0xFFu128 >> (8 - amount);
        let res = (self.bytes & bitmask) as u8;
        self.bytes = self.bytes >> amount;
        res
    }
}

} // verus!
