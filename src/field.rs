//! Typed access to a field: the raw codec combined with a specifier's
//! conversion and range check.
use vstd::prelude::*;
use crate::bits::fits_in;
use crate::engine::{is_field_value, is_field_write, read_specifier, write_specifier};
use crate::error::{InvalidBitPattern, OutOfBounds};
use crate::laws::lemma_field_value_unique;
use crate::specifier::Specifier;

verus! {

/// The raw value of the `width`-bit field at bit `offset` of `bytes`.
pub open spec fn field_value(bytes: Seq<u8>, offset: int, width: nat) -> u128 {
    choose|r: u128| is_field_value(bytes, offset, width, r)
}

/// Reading a field gives `field_value`.
pub proof fn lemma_field_value(bytes: Seq<u8>, offset: int, width: nat, r: u128)
    requires
        width <= 128,
        is_field_value(bytes, offset, width, r),
    ensures
        field_value(bytes, offset, width) == r,
{
    let c = field_value(bytes, offset, width);
    assert(is_field_value(bytes, offset, width, c));
    lemma_field_value_unique(bytes, offset, width, c, r);
}

/// Reads the field of type `T` at bit `offset` and converts its raw bits to
/// a value of `T`.
pub fn read_field<T: Specifier>(bytes: &[u8], offset: usize) -> (r: Result<T::InOut, InvalidBitPattern<u128>>)
    requires
        1 <= T::spec_bits() <= 128,
        offset + T::spec_bits() <= 8 * bytes@.len(),
        offset + T::spec_bits() <= usize::MAX,
    ensures
        ({
            let raw = field_value(bytes@, offset as int, T::spec_bits());
            match r {
                Ok(v) => T::spec_valid(raw) && v == T::spec_value(raw),
                Err(e) => !T::spec_valid(raw) && e.invalid_bytes == raw,
            }
        }),
{
    let bits = T::bits();
    let raw = read_specifier(bytes, offset, bits);
    proof {
        lemma_field_value(bytes@, offset as int, bits as nat, raw);
    }
    T::from_bytes(raw)
}

/// Converts `value` to raw bits with `T` and writes them into the field at
/// bit `offset`. When the bits do not fit the field, returns `OutOfBounds`
/// and leaves the buffer as it was.
pub fn check_bounds_and_write<T: Specifier>(bytes: &mut [u8], offset: usize, value: T::InOut) -> (r: Result<(), OutOfBounds>)
    requires
        1 <= T::spec_bits() <= 128,
        offset + T::spec_bits() <= 8 * old(bytes)@.len(),
        offset + T::spec_bits() <= usize::MAX,
    ensures
        r is Ok <==> fits_in(T::spec_storage(value), T::spec_bits()),
        r is Ok ==> is_field_write(old(bytes)@, final(bytes)@, offset as int, T::spec_bits(), T::spec_storage(value)),
        r is Err ==> final(bytes)@ == old(bytes)@,
{
    let bits = T::bits();
    match T::into_bytes(value) {
        Ok(raw) => {
            write_specifier(bytes, offset, bits, raw);
            Ok(())
        },
        Err(e) => Err(e),
    }
}

} // verus!
