//! Conversion between a storage value and its little-endian bytes.
use vstd::prelude::*;
use crate::bits::fits_in;
use crate::engine::{is_field_value, read_specifier, write_specifier};
use crate::laws::{le_byte, lemma_aligned_read, lemma_aligned_write};

verus! {

/// The first `len` little-endian bytes of `bytes`.
pub fn bytes_into_array(bytes: u128, len: usize) -> (r: Vec<u8>)
    requires
        len <= 16,
    ensures
        r@ == Seq::new(len as nat, |m: int| le_byte(bytes, m)),
{
    let mut array: Vec<u8> = Vec::new();
    let mut i: usize = 0;
    while i < len
        invariant
            i <= len,
            array@.len() == i,
            forall|m: int| 0 <= m < i ==> array@[m] == 0,
        decreases len - i,
    {
        array.push(0);
        i = i + 1;
    }
    if len > 0 {
        let ghost zeros = array@;
        write_specifier(array.as_mut_slice(), 0, 8 * len, bytes);
        proof {
            lemma_aligned_write(zeros, array@, 0, (8 * len) as nat, bytes);
            assert(zeros.subrange(0, 0) + Seq::new(len as nat, |m: int| le_byte(bytes, m)) + zeros.subrange(
                len as int,
                len as int,
            ) =~= Seq::new(len as nat, |m: int| le_byte(bytes, m)));
        }
    } else {
        assert(array@ =~= Seq::new(len as nat, |m: int| le_byte(bytes, m)));
    }
    array
}

/// The integer whose little-endian bytes are `array`.
pub fn array_into_bytes(array: &[u8]) -> (r: u128)
    requires
        1 <= array@.len() <= 16,
    ensures
        is_field_value(array@, 0, (8 * array@.len()) as nat, r),
        fits_in(r, (8 * array@.len()) as nat),
        forall|m: int| 0 <= m < array@.len() ==> le_byte(r, m) == #[trigger] array@[m],
{
    let r = read_specifier(array, 0, 8 * array.len());
    proof {
        lemma_aligned_read(array@, 0, (8 * array@.len()) as nat, r);
        assert forall|m: int| 0 <= m < array@.len() implies le_byte(r, m) == #[trigger] array@[m] by {
            assert(0int / 8 + m == m);
        }
    }
    r
}

} // verus!
