//! Whole records: the size of their byte buffer, and the bits of an
//! unfilled record that lie past its last field.
use vstd::prelude::*;
use crate::bits::{buf_bit, byte_bit, lemma_buf_bit_index, lemma_byte_ext, lemma_zero_byte};

verus! {

/// The number of bits in the bytes that hold `bits` bits: `bits` rounded up
/// to a multiple of 8.
pub fn next_divisible_by_8(bits: usize) -> (r: usize)
    requires
        1 <= bits,
        bits + 7 <= usize::MAX,
    ensures
        r % 8 == 0,
        bits <= r < bits + 8,
{
    ((bits - 1) / 8 + 1) * 8
}

proof fn lemma_shr_clear(b: u8, s: u8, t: u8)
    by (bit_vector)
    requires
        s <= t < 8,
        b >> s == 0,
    ensures
        (b >> t) & 1u8 == 0u8,
{
}

proof fn lemma_shr_bit(b: u8, s: u8, t: u8)
    by (bit_vector)
    requires
        s < 8,
        t < 8,
    ensures
        s + t < 8 ==> ((b >> s) >> t) & 1u8 == (b >> ((s + t) as u8)) & 1u8,
        s + t >= 8 ==> ((b >> s) >> t) & 1u8 == 0u8,
{
}

/// No bit of `bytes` at or above bit `used_bits` is set: the bytes are a
/// valid image of an unfilled record of `used_bits` bits.
pub fn unused_bits_clear(bytes: &[u8], used_bits: usize) -> (r: bool)
    requires
        used_bits <= 8 * bytes@.len(),
    ensures
        r == forall|i: int| used_bits <= i < 8 * bytes@.len() ==> !#[trigger] buf_bit(bytes@, i),
{
    let first = used_bits / 8;
    let shift = used_bits % 8;
    if first == bytes.len() {
        return true;
    }
    let b = bytes[first];
    if b >> (shift as u8) != 0 {
        proof {
            let c = b >> (shift as u8);
            if forall|t: int| shift <= t < 8 ==> !#[trigger] byte_bit(b, t) {
                assert forall|t: int| 0 <= t < 8 implies byte_bit(c, t) == byte_bit(0u8, t) by {
                    lemma_shr_bit(b, shift as u8, t as u8);
                    lemma_zero_byte(t as u8);
                    if shift + t < 8 {
                        assert(!byte_bit(b, shift + t));
                    }
                }
                lemma_byte_ext(c, 0u8);
            }
            let t = choose|t: int| shift <= t < 8 && #[trigger] byte_bit(b, t);
            lemma_buf_bit_index(bytes@, first as int, t);
        }
        return false;
    }
    proof {
        assert forall|k: int| used_bits <= k < 8 * (first + 1) implies !#[trigger] buf_bit(bytes@, k) by {
            lemma_buf_bit_index(bytes@, first as int, k - 8 * first);
            lemma_shr_clear(b, shift as u8, (k - 8 * first) as u8);
        }
    }
    let mut i = first + 1;
    while i < bytes.len()
        invariant
            first < i <= bytes@.len(),
            8 * first + shift == used_bits,
            shift < 8,
            forall|k: int| used_bits <= k < 8 * i ==> !#[trigger] buf_bit(bytes@, k),
        decreases bytes@.len() - i,
    {
        if bytes[i] != 0 {
            proof {
                let b = bytes@[i as int];
                if forall|t: int| 0 <= t < 8 ==> !byte_bit(b, t) {
                    assert forall|t: int| 0 <= t < 8 implies byte_bit(b, t) == byte_bit(0u8, t) by {
                        lemma_zero_byte(t as u8);
                    }
                    lemma_byte_ext(b, 0u8);
                }
                let t = choose|t: int| 0 <= t < 8 && byte_bit(b, t);
                lemma_buf_bit_index(bytes@, i as int, t);
            }
            return false;
        }
        proof {
            assert forall|k: int| 8 * i <= k < 8 * (i + 1) implies !#[trigger] buf_bit(bytes@, k) by {
                lemma_buf_bit_index(bytes@, i as int, k - 8 * i);
                lemma_zero_byte((k - 8 * i) as u8);
            }
        }
        i = i + 1;
    }
    true
}

} // verus!
