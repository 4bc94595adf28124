//! Laws of the field codec, stated over the contracts of `read_specifier`
//! and `write_specifier`.
use vstd::prelude::*;
use crate::bits::{buf_bit, byte_bit, val_bit, fits_in, lemma_val_ext, lemma_byte_ext, lemma_buf_bit_index};
use crate::engine::{is_field_value, is_field_write};

verus! {

/// Byte `m` (0 = least significant) of the little-endian representation of `x`.
pub open spec fn le_byte(x: u128, m: int) -> u8 {
    ((x >> ((8 * m) as u128)) & 0xFFu128) as u8
}

pub proof fn lemma_le_byte_bit(x: u128, m: u128, t: u8)
    by (bit_vector)
    requires
        m < 16,
        t < 8,
    ensures
        ((((x >> ((8 * m) as u128)) & 0xFFu128) as u8 >> t) & 1u8 == 1u8) == ((x >> ((8 * m + t) as u128)) & 1u128 == 1u128),
{
}

/// A field has one value: two results that both meet the read contract agree.
pub proof fn lemma_field_value_unique(bytes: Seq<u8>, offset: int, width: nat, r1: u128, r2: u128)
    requires
        width <= 128,
        is_field_value(bytes, offset, width, r1),
        is_field_value(bytes, offset, width, r2),
    ensures
        r1 == r2,
{
    assert forall|k: int| 0 <= k < width implies val_bit(r1, k) == val_bit(r2, k) by {
        assert(val_bit(r1, k) == buf_bit(bytes, offset + k));
    }
    lemma_val_ext(r1, r2, width);
}

/// Round trip: after a value that fits in `width` bits is written into a
/// field, reading the field gives back that value.
pub proof fn lemma_round_trip(old: Seq<u8>, new: Seq<u8>, offset: int, width: nat, value: u128, r: u128)
    requires
        1 <= width <= 128,
        0 <= offset,
        offset + width <= 8 * old.len(),
        fits_in(value, width),
        is_field_write(old, new, offset, width, value),
        is_field_value(new, offset, width, r),
    ensures
        r == value,
{
    assert forall|k: int| 0 <= k < width implies val_bit(r, k) == val_bit(value, k) by {
        assert(val_bit(r, k) == buf_bit(new, offset + k));
    }
    lemma_val_ext(r, value, width);
}

/// Boundary cases of a 4-byte buffer: a field of 1 to 16 bits at any offset
/// that keeps it inside the buffer, so at every alignment of its lowest and
/// highest bit, reads back the value written into it.
pub proof fn lemma_round_trip_four_bytes(
    old: Seq<u8>,
    new: Seq<u8>,
    offset: int,
    width: nat,
    value: u128,
    r: u128,
)
    requires
        old.len() == 4,
        1 <= width <= 16,
        0 <= offset,
        offset + width <= 32,
        fits_in(value, width),
        is_field_write(old, new, offset, width, value),
        is_field_value(new, offset, width, r),
    ensures
        r == value,
{
    lemma_round_trip(old, new, offset, width, value, r);
}

/// Non-interference: writing a field changes no bit outside it, and no byte
/// that holds none of its bits.
pub proof fn lemma_non_interference(old: Seq<u8>, new: Seq<u8>, offset: int, width: nat, value: u128)
    requires
        0 <= offset,
        is_field_write(old, new, offset, width, value),
    ensures
        forall|i: int|
            0 <= i < 8 * old.len() && !(offset <= i < offset + width) ==> buf_bit(new, i) == buf_bit(old, i),
        forall|j: int|
            0 <= j < old.len() && (8 * j + 8 <= offset || offset + width <= 8 * j) ==> new[j] == old[j],
{
    assert forall|j: int|
        0 <= j < old.len() && (8 * j + 8 <= offset || offset + width <= 8 * j) implies new[j] == old[j] by {
        assert forall|t: int| 0 <= t < 8 implies byte_bit(new[j], t) == byte_bit(old[j], t) by {
            lemma_buf_bit_index(new, j, t);
            lemma_buf_bit_index(old, j, t);
            assert(buf_bit(new, 8 * j + t) == buf_bit(old, 8 * j + t));
        }
        lemma_byte_ext(new[j], old[j]);
    }
}

/// Fast path: a field made of whole bytes reads as those bytes taken as a
/// little-endian integer.
pub proof fn lemma_aligned_read(bytes: Seq<u8>, offset: int, width: nat, r: u128)
    requires
        0 <= offset,
        offset % 8 == 0,
        width % 8 == 0,
        1 <= width <= 128,
        offset + width <= 8 * bytes.len(),
        is_field_value(bytes, offset, width, r),
    ensures
        forall|m: int| 0 <= m < width / 8 ==> le_byte(r, m) == #[trigger] bytes[offset / 8 + m],
{
    assert forall|m: int| 0 <= m < width / 8 implies le_byte(r, m) == #[trigger] bytes[offset / 8 + m] by {
        assert forall|t: int| 0 <= t < 8 implies byte_bit(le_byte(r, m), t) == byte_bit(bytes[offset / 8 + m], t) by {
            lemma_le_byte_bit(r, m as u128, t as u8);
            lemma_buf_bit_index(bytes, offset / 8 + m, t);
            assert(8 * (offset / 8 + m) + t == offset + (8 * m + t));
            assert(val_bit(r, 8 * m + t) == buf_bit(bytes, offset + (8 * m + t)));
        }
        lemma_byte_ext(le_byte(r, m), bytes[offset / 8 + m]);
    }
}

/// Fast path: writing a field made of whole bytes copies the value's
/// little-endian bytes over those bytes and keeps all others.
pub proof fn lemma_aligned_write(old: Seq<u8>, new: Seq<u8>, offset: int, width: nat, value: u128)
    requires
        0 <= offset,
        offset % 8 == 0,
        width % 8 == 0,
        1 <= width <= 128,
        offset + width <= 8 * old.len(),
        is_field_write(old, new, offset, width, value),
    ensures
        new == old.subrange(0, offset / 8) + Seq::new((width / 8) as nat, |m: int| le_byte(value, m))
            + old.subrange(offset / 8 + width / 8, old.len() as int),
{
    let first = offset / 8;
    let n = (width / 8) as int;
    let copied = old.subrange(0, first) + Seq::new(n as nat, |m: int| le_byte(value, m)) + old.subrange(
        first + n,
        old.len() as int,
    );
    lemma_non_interference(old, new, offset, width, value);
    assert forall|j: int| 0 <= j < old.len() implies new[j] == copied[j] by {
        if first <= j < first + n {
            let m = j - first;
            assert forall|t: int| 0 <= t < 8 implies byte_bit(new[j], t) == byte_bit(le_byte(value, m), t) by {
                lemma_le_byte_bit(value, m as u128, t as u8);
                lemma_buf_bit_index(new, j, t);
                assert(8 * j + t == offset + (8 * m + t));
                assert(buf_bit(new, offset + (8 * m + t)) == val_bit(value, 8 * m + t));
            }
            lemma_byte_ext(new[j], le_byte(value, m));
        } else {
            assert(8 * j + 8 <= offset || offset + width <= 8 * j);
        }
    }
    assert(new =~= copied);
}

} // verus!
