//! Specifiers: how a logical type maps to and from the raw bits of a field.
use vstd::prelude::*;
use crate::bits::{fits_in, lemma_fits_in_shr};
use vstd::arithmetic::power2::pow2;
use crate::error::{InvalidBitPattern, OutOfBounds};

verus! {

/// A logical type that can be stored in a field of fixed bit width.
pub trait Specifier {
    /// The logical type read from and written to the field.
    type InOut;

    /// The field's width in bits.
    spec fn spec_bits() -> nat;

    /// The raw bits that stand for `value`, before any range check.
    spec fn spec_storage(value: Self::InOut) -> u128;

    /// The raw bits that are a valid value of the type.
    spec fn spec_valid(raw: u128) -> bool;

    /// The value that the valid raw bits `raw` stand for.
    spec fn spec_value(raw: u128) -> Self::InOut;

    /// The field's width in bits.
    fn bits() -> (r: usize)
        ensures
            r == Self::spec_bits();

    /// The raw bits of `input`, or `OutOfBounds` when they need more than
    /// the field's width.
    fn into_bytes(input: Self::InOut) -> (r: Result<u128, OutOfBounds>)
        ensures
            match r {
                Ok(raw) => raw == Self::spec_storage(input) && fits_in(raw, Self::spec_bits()),
                Err(_) => !fits_in(Self::spec_storage(input), Self::spec_bits()),
            };

    /// The value that `bytes` stands for, or `InvalidBitPattern` when the
    /// bits are no valid value of the type.
    fn from_bytes(bytes: u128) -> (r: Result<Self::InOut, InvalidBitPattern<u128>>)
        ensures
            match r {
                Ok(v) => Self::spec_valid(bytes) && v == Self::spec_value(bytes),
                Err(e) => !Self::spec_valid(bytes) && e.invalid_bytes == bytes,
            };
}

impl Specifier for bool {
    type InOut = bool;

    open spec fn spec_bits() -> nat {
        1
    }

    open spec fn spec_storage(value: bool) -> u128 {
        if value { 1 } else { 0 }
    }

    open spec fn spec_valid(raw: u128) -> bool {
        raw == 0 || raw == 1
    }

    open spec fn spec_value(raw: u128) -> bool {
        raw == 1
    }

    fn bits() -> (r: usize) {
        1
    }

    fn into_bytes(input: bool) -> (r: Result<u128, OutOfBounds>) {
        proof {
            lemma_fits_in_shr(0, 1);
            lemma_fits_in_shr(1, 1);
            assert(0u128 >> 1u128 == 0 && 1u128 >> 1u128 == 0) by (bit_vector);
        }
        Ok(if input { 1 } else { 0 })
    }

    fn from_bytes(bytes: u128) -> (r: Result<bool, InvalidBitPattern<u128>>)
        ensures
            r is Err <==> bytes != 0 && bytes != 1,
    {
        match bytes {
            0 => Ok(false),
            1 => Ok(true),
            invalid_bytes => Err(InvalidBitPattern { invalid_bytes }),
        }
    }
}

impl Specifier for u8 {
    type InOut = u8;

    open spec fn spec_bits() -> nat {
        8
    }

    open spec fn spec_storage(value: u8) -> u128 {
        value as u128
    }

    open spec fn spec_valid(raw: u128) -> bool {
        fits_in(raw, 8)
    }

    open spec fn spec_value(raw: u128) -> u8 {
        raw as u8
    }

    fn bits() -> (r: usize) {
        8
    }

    fn into_bytes(input: u8) -> (r: Result<u128, OutOfBounds>) {
        proof {
            lemma_fits_in_shr(input as u128, 8);
            let x = input as u128;
            assert(x >> 8u128 == 0) by (bit_vector)
                requires
                    x <= u8::MAX,
            ;
        }
        Ok(input as u128)
    }

    fn from_bytes(bytes: u128) -> (r: Result<u8, InvalidBitPattern<u128>>) {
        proof {
            lemma_fits_in_shr(bytes, 8);
        }
        if bytes >> 8u32 != 0 {
            Err(InvalidBitPattern { invalid_bytes: bytes })
        } else {
            Ok(bytes as u8)
        }
    }
}

impl Specifier for u16 {
    type InOut = u16;

    open spec fn spec_bits() -> nat {
        16
    }

    open spec fn spec_storage(value: u16) -> u128 {
        value as u128
    }

    open spec fn spec_valid(raw: u128) -> bool {
        fits_in(raw, 16)
    }

    open spec fn spec_value(raw: u128) -> u16 {
        raw as u16
    }

    fn bits() -> (r: usize) {
        16
    }

    fn into_bytes(input: u16) -> (r: Result<u128, OutOfBounds>) {
        proof {
            lemma_fits_in_shr(input as u128, 16);
            let x = input as u128;
            assert(x >> 16u128 == 0) by (bit_vector)
                requires
                    x <= u16::MAX,
            ;
        }
        Ok(input as u128)
    }

    fn from_bytes(bytes: u128) -> (r: Result<u16, InvalidBitPattern<u128>>) {
        proof {
            lemma_fits_in_shr(bytes, 16);
        }
        if bytes >> 16u32 != 0 {
            Err(InvalidBitPattern { invalid_bytes: bytes })
        } else {
            Ok(bytes as u16)
        }
    }
}

impl Specifier for u32 {
    type InOut = u32;

    open spec fn spec_bits() -> nat {
        32
    }

    open spec fn spec_storage(value: u32) -> u128 {
        value as u128
    }

    open spec fn spec_valid(raw: u128) -> bool {
        fits_in(raw, 32)
    }

    open spec fn spec_value(raw: u128) -> u32 {
        raw as u32
    }

    fn bits() -> (r: usize) {
        32
    }

    fn into_bytes(input: u32) -> (r: Result<u128, OutOfBounds>) {
        proof {
            lemma_fits_in_shr(input as u128, 32);
            let x = input as u128;
            assert(x >> 32u128 == 0) by (bit_vector)
                requires
                    x <= u32::MAX,
            ;
        }
        Ok(input as u128)
    }

    fn from_bytes(bytes: u128) -> (r: Result<u32, InvalidBitPattern<u128>>) {
        proof {
            lemma_fits_in_shr(bytes, 32);
        }
        if bytes >> 32u32 != 0 {
            Err(InvalidBitPattern { invalid_bytes: bytes })
        } else {
            Ok(bytes as u32)
        }
    }
}

impl Specifier for u64 {
    type InOut = u64;

    open spec fn spec_bits() -> nat {
        64
    }

    open spec fn spec_storage(value: u64) -> u128 {
        value as u128
    }

    open spec fn spec_valid(raw: u128) -> bool {
        fits_in(raw, 64)
    }

    open spec fn spec_value(raw: u128) -> u64 {
        raw as u64
    }

    fn bits() -> (r: usize) {
        64
    }

    fn into_bytes(input: u64) -> (r: Result<u128, OutOfBounds>) {
        proof {
            lemma_fits_in_shr(input as u128, 64);
            let x = input as u128;
            assert(x >> 64u128 == 0) by (bit_vector)
                requires
                    x <= u64::MAX,
            ;
        }
        Ok(input as u128)
    }

    fn from_bytes(bytes: u128) -> (r: Result<u64, InvalidBitPattern<u128>>) {
        proof {
            lemma_fits_in_shr(bytes, 64);
        }
        if bytes >> 64u32 != 0 {
            Err(InvalidBitPattern { invalid_bytes: bytes })
        } else {
            Ok(bytes as u64)
        }
    }
}

impl Specifier for u128 {
    type InOut = u128;

    open spec fn spec_bits() -> nat {
        128
    }

    open spec fn spec_storage(value: u128) -> u128 {
        value
    }

    open spec fn spec_valid(raw: u128) -> bool {
        fits_in(raw, 128)
    }

    open spec fn spec_value(raw: u128) -> u128 {
        raw
    }

    fn bits() -> (r: usize) {
        128
    }

    fn into_bytes(input: u128) -> (r: Result<u128, OutOfBounds>) {
        proof {
            lemma_fits_in_shr(input, 128);
        }
        Ok(input)
    }

    fn from_bytes(bytes: u128) -> (r: Result<u128, InvalidBitPattern<u128>>) {
        proof {
            lemma_fits_in_shr(bytes, 128);
        }
        Ok(bytes)
    }
}

/// An unsigned integer field of `BITS` bits, for `BITS` in `1..=128`.
pub struct B<const BITS: usize>;

impl<const BITS: usize> Specifier for B<BITS> {
    type InOut = u128;

    open spec fn spec_bits() -> nat {
        BITS as nat
    }

    open spec fn spec_storage(value: u128) -> u128 {
        value
    }

    open spec fn spec_valid(raw: u128) -> bool {
        fits_in(raw, BITS as nat)
    }

    open spec fn spec_value(raw: u128) -> u128 {
        raw
    }

    fn bits() -> (r: usize) {
        BITS
    }

    fn into_bytes(input: u128) -> (r: Result<u128, OutOfBounds>)
        ensures
            r is Err <==> input as int >= pow2(BITS as nat),
    {
        proof {
            lemma_fits_in_shr(input, BITS as nat);
        }
        if BITS < 128 && input >> BITS != 0 {
            Err(OutOfBounds)
        } else {
            Ok(input)
        }
    }

    fn from_bytes(bytes: u128) -> (r: Result<u128, InvalidBitPattern<u128>>)
        ensures
            r is Err <==> bytes as int >= pow2(BITS as nat),
    {
        proof {
            lemma_fits_in_shr(bytes, BITS as nat);
        }
        if BITS < 128 && bytes >> BITS != 0 {
            Err(InvalidBitPattern { invalid_bytes: bytes })
        } else {
            Ok(bytes)
        }
    }
}

/// The width of the unsigned integer type that holds a field of `bits`
/// bits: the first of 8, 16, 32, 64 and 128 that is at least `bits`.
pub open spec fn storage_bits_for(bits: nat) -> nat {
    if bits <= 8 {
        8
    } else if bits <= 16 {
        16
    } else if bits <= 32 {
        32
    } else if bits <= 64 {
        64
    } else {
        128
    }
}

/// The storage kind of a specifier: the unsigned integer type, by width,
/// that its raw bits are handed out in.
pub trait SpecifierBytes: Specifier {
    /// Width in bits of the storage integer.
    fn storage_bits() -> (r: usize)
        ensures
            r == storage_bits_for(Self::spec_bits());
}

impl SpecifierBytes for bool {
    fn storage_bits() -> (r: usize) {
        8
    }
}

impl SpecifierBytes for u8 {
    fn storage_bits() -> (r: usize) {
        8
    }
}

impl SpecifierBytes for u16 {
    fn storage_bits() -> (r: usize) {
        16
    }
}

impl SpecifierBytes for u32 {
    fn storage_bits() -> (r: usize) {
        32
    }
}

impl SpecifierBytes for u64 {
    fn storage_bits() -> (r: usize) {
        64
    }
}

impl SpecifierBytes for u128 {
    fn storage_bits() -> (r: usize) {
        128
    }
}

impl<const BITS: usize> SpecifierBytes for B<BITS> {
    fn storage_bits() -> (r: usize) {
        if BITS <= 8 {
            8
        } else if BITS <= 16 {
            16
        } else if BITS <= 32 {
            32
        } else if BITS <= 64 {
            64
        } else {
            128
        }
    }
}

} // verus!
