//! Reading and writing a field's raw storage value in a byte buffer.
use vstd::prelude::*;
use crate::bits::{buf_bit, byte_bit, val_bit, fits_in, lemma_buf_bit_index, lemma_fits_in_shr, lemma_shr_zero};
use crate::layout::BitSpan;
use vstd::arithmetic::power2::{pow2, lemma_pow2_pos, lemma_pow2_adds};
use vstd::arithmetic::div_mod::lemma_div_denominator;
use vstd::bits::lemma_u128_shr_is_div;
use crate::push_pop::{PushBuffer, PopBuffer, PushBits, PopBits, push_spec, pop_spec, low_mask8};

verus! {

/// `r` is the value of the `width`-bit field at bit `offset` of `bytes`:
/// bit `k` of `r` is bit `offset + k` of the buffer, and `r < 2^width`.
pub open spec fn is_field_value(bytes: Seq<u8>, offset: int, width: nat, r: u128) -> bool {
    &&& fits_in(r, width)
    &&& forall|k: int| 0 <= k < width ==> val_bit(r, k) == buf_bit(bytes, offset + k)
}

/// `new` is `old` with the low `width` bits of `value` written into the field
/// at bit `offset`, and every bit outside that field unchanged.
pub open spec fn is_field_write(old: Seq<u8>, new: Seq<u8>, offset: int, width: nat, value: u128) -> bool {
    &&& new.len() == old.len()
    &&& forall|i: int|
        0 <= i < 8 * old.len() ==> #[trigger] buf_bit(new, i) == if offset <= i < offset + width {
            val_bit(value, i - offset)
        } else {
            buf_bit(old, i)
        }
}

/// `acc` holds exactly the top `c` bits of the field that ends at bit `end`.
spec fn holds_top(acc: u128, bytes: Seq<u8>, end: int, c: int) -> bool {
    &&& (c < 128 ==> acc >> (c as u128) == 0)
    &&& forall|k: int| 0 <= k < c ==> val_bit(acc, k) == #[trigger] buf_bit(bytes, end - c + k)
}

proof fn lemma_push_bit(acc: u128, b: u8, s: u8, a: u8, k: u128)
    by (bit_vector)
    requires
        1 <= a <= 8,
        s + a <= 8,
        k < 128,
    ensures
        k < a ==> (((push_spec(acc, a, b >> s) >> k) & 1u128 == 1u128) == ((b >> ((s + k) as u8)) & 1u8 == 1u8)),
        k >= a ==> (((push_spec(acc, a, b >> s) >> k) & 1u128 == 1u128) == ((acc >> ((k - a) as u128)) & 1u128 == 1u128)),
{
}

proof fn lemma_push_fits(acc: u128, b: u8, a: u8, c: u128)
    by (bit_vector)
    requires
        1 <= a <= 8,
        c + a < 128,
        acc >> c == 0,
    ensures
        push_spec(acc, a, b) >> ((c + a) as u128) == 0,
{
}

/// Pushing the `a` bits of byte `j` that start at bit `s` extends what the
/// accumulator holds by those bits.
proof fn lemma_push_step(acc: u128, bytes: Seq<u8>, end: int, c: int, j: int, s: u8, a: u8)
    requires
        holds_top(acc, bytes, end, c),
        0 <= c,
        c + a <= 128,
        1 <= a,
        s + a <= 8,
        0 <= j < bytes.len(),
        end - c - a == 8 * j + s,
    ensures
        holds_top(push_spec(acc, a, bytes[j] >> s), bytes, end, c + a),
{
    let b = bytes[j];
    let acc2 = push_spec(acc, a, b >> s);
    assert forall|k: int| 0 <= k < c + a implies val_bit(acc2, k) == #[trigger] buf_bit(
        bytes,
        end - (c + a) + k,
    ) by {
        lemma_push_bit(acc, b, s, a, k as u128);
        if k < a {
            lemma_buf_bit_index(bytes, j, s + k);
        } else {
            assert(buf_bit(bytes, end - c + (k - a)) == val_bit(acc, k - a));
        }
    }
    if c + a < 128 {
        lemma_push_fits(acc, b >> s, a, c as u128);
    }
}

/// Reads the `bits`-wide field that starts at bit `offset` of `bytes`.
///
/// Bit `k` of the result is bit `offset + k` of the buffer; the result has
/// no bits at or above `bits`. Bits outside the field play no part.
pub fn read_specifier(bytes: &[u8], offset: usize, bits: usize) -> (r: u128)
    requires
        1 <= bits <= 128,
        offset + bits <= 8 * bytes@.len(),
        offset + bits <= usize::MAX,
    ensures
        is_field_value(bytes@, offset as int, bits as nat, r),
{
    let end = offset + bits;
    let span = BitSpan::new(offset, bits);
    let first = span.first_byte;
    let last = span.last_byte;
    let lsb = span.lsb_shift;
    let msb = span.msb_width;
    let mut buffer = PushBuffer::default();
    assert(holds_top(buffer@, bytes@, end as int, 0)) by {
        assert(0u128 >> 0u128 == 0) by (bit_vector);
    }
    if span.is_byte_aligned() {
        // whole bytes, most significant first
        let mut i = last + 1;
        while i > first
            invariant
                first <= i <= last + 1,
                last < bytes@.len(),
                8 * (last + 1) == end,
                bits <= 128,
                8 * first == offset,
                end == offset + bits,
                holds_top(buffer@, bytes@, end as int, end - 8 * i),
            decreases i,
        {
            i = i - 1;
            proof {
                lemma_push_step(buffer@, bytes@, end as int, end - 8 * (i + 1), i as int, 0, 8);
                lemma_shr_zero(bytes@[i as int]);
            }
            buffer.push_bits(8, bytes[i]);
        }
    } else {
        let mut c: usize = 0;
        if first != last {
            // most significant partial byte
            proof {
                lemma_push_step(buffer@, bytes@, end as int, 0, last as int, 0, msb as u8);
                lemma_shr_zero(bytes@[last as int]);
            }
            buffer.push_bits(msb as u32, bytes[last]);
            c = msb;
        }
        // full interior bytes, most significant first
        let mut i = last;
        while i > first + 1
            invariant
                first <= last,
                first < last ==> first + 1 <= i <= last,
                first == last ==> i == last && c == 0,
                last < bytes@.len(),
                8 * last + msb == end,
                first < last ==> c == end - 8 * i,
                bits <= 128,
                8 * first + lsb == offset,
                lsb < 8,
                end == offset + bits,
                holds_top(buffer@, bytes@, end as int, c as int),
            decreases i,
        {
            i = i - 1;
            proof {
                lemma_push_step(buffer@, bytes@, end as int, c as int, i as int, 0, 8);
                lemma_shr_zero(bytes@[i as int]);
            }
            buffer.push_bits(8, bytes[i]);
            c = c + 8;
        }
        // least significant partial byte
        let amount = if first == last { bits } else { 8 - lsb };
        proof {
            lemma_push_step(buffer@, bytes@, end as int, c as int, first as int, lsb as u8, amount as u8);
        }
        buffer.push_bits(amount as u32, bytes[first] >> (lsb as u8));
    }
    let r = buffer.into_bytes();
    proof {
        lemma_fits_in_shr(r, bits as nat);
        assert forall|k: int| 0 <= k < bits implies val_bit(r, k) == buf_bit(bytes@, offset + k) by {
            assert(buf_bit(bytes@, end - bits + k) == val_bit(r, k));
        }
    }
    r
}

/// `cur` is `old` with the low `c` bits of `value` written at bit `offset`.
spec fn written(cur: Seq<u8>, old: Seq<u8>, offset: int, value: u128, c: int) -> bool {
    &&& cur.len() == old.len()
    &&& forall|i: int|
        0 <= i < 8 * cur.len() ==> #[trigger] buf_bit(cur, i) == if offset <= i < offset + c {
            val_bit(value, i - offset)
        } else {
            buf_bit(old, i)
        }
}

/// A byte whose bits `lo..lo + n` are replaced by the low `n` bits of `acc`.
spec fn merged(b: u8, acc: u128, lo: u8, n: u8) -> u8 {
    (b & !(low_mask8(n) << lo)) | (pop_spec(acc, n) << lo)
}

proof fn lemma_merged_bit(b: u8, acc: u128, lo: u8, n: u8, t: u8)
    by (bit_vector)
    requires
        1 <= n,
        lo + n <= 8,
        t < 8,
    ensures
        lo <= t < lo + n ==> (((merged(b, acc, lo, n) >> t) & 1u8 == 1u8) == ((acc >> ((t - lo) as u128)) & 1u128 == 1u128)),
        !(lo <= t < lo + n) ==> (((merged(b, acc, lo, n) >> t) & 1u8 == 1u8) == ((b >> t) & 1u8 == 1u8)),
{
}

proof fn lemma_shr_shr(value: u128, c: u128, k: u128)
    requires
        c + k < 128,
    ensures
        (value >> c) >> k == value >> ((c + k) as u128),
{
    let v1 = value >> c;
    lemma_u128_shr_is_div(value, c);
    lemma_u128_shr_is_div(v1, k);
    lemma_u128_shr_is_div(value, (c + k) as u128);
    lemma_pow2_pos(c as nat);
    lemma_pow2_pos(k as nat);
    lemma_pow2_adds(c as nat, k as nat);
    lemma_div_denominator(value as int, pow2(c as nat) as int, pow2(k as nat) as int);
}

/// Writing the next `n` bits of the value into bits `lo..lo + n` of byte `j`
/// extends what has been written by those bits.
proof fn lemma_write_step(
    cur: Seq<u8>,
    old: Seq<u8>,
    offset: int,
    value: u128,
    c: int,
    acc: u128,
    j: int,
    lo: u8,
    n: u8,
)
    requires
        written(cur, old, offset, value, c),
        0 <= c,
        c + n <= 128,
        acc == value >> (c as u128),
        1 <= n,
        lo + n <= 8,
        0 <= j < cur.len(),
        offset + c == 8 * j + lo,
    ensures
        written(cur.update(j, merged(cur[j], acc, lo, n)), old, offset, value, c + n),
        c + n < 128 ==> acc >> (n as u128) == value >> ((c + n) as u128),
{
    let b2 = merged(cur[j], acc, lo, n);
    let cur2 = cur.update(j, b2);
    assert forall|i: int| 0 <= i < 8 * cur2.len() implies #[trigger] buf_bit(cur2, i) == if offset
        <= i < offset + c + n {
        val_bit(value, i - offset)
    } else {
        buf_bit(old, i)
    } by {
        if i / 8 == j {
            let t = i % 8;
            assert(i == 8 * j + t);
            lemma_merged_bit(cur[j], acc, lo, n, t as u8);
            lemma_buf_bit_index(cur2, j, t);
            lemma_buf_bit_index(cur, j, t);
            if lo <= t < lo + n {
                lemma_shr_shr(value, c as u128, (t - lo) as u128);
                assert(val_bit(acc, t - lo) == val_bit(value, c + t - lo));
            } else {
                assert(buf_bit(cur, i) == byte_bit(cur[j], t));
            }
        } else {
            assert(buf_bit(cur2, i) == buf_bit(cur, i));
        }
    }
    if c + n < 128 {
        lemma_shr_shr(value, c as u128, n as u128);
    }
}

proof fn lemma_keep_inner(lsb: u8, msb: u8)
    by (bit_vector)
    requires
        lsb < msb < 8,
    ensures
        !(((1u8 << msb) - 1u8) as u8) | (((1u8 << lsb) - 1u8) as u8) == !(low_mask8((msb - lsb) as u8) << lsb),
{
}

proof fn lemma_keep_low(lsb: u8)
    by (bit_vector)
    requires
        lsb < 8,
    ensures
        ((1u8 << lsb) - 1u8) as u8 == !(low_mask8((8 - lsb) as u8) << lsb),
{
}

proof fn lemma_keep_high(b: u8, p: u8, msb: u8)
    by (bit_vector)
    requires
        1 <= msb < 8,
    ensures
        (b & !(((1u8 << msb) - 1u8) as u8)) | p == (b & !(low_mask8(msb) << 0u8)) | (p << 0u8),
{
}

proof fn lemma_whole_byte(b: u8, p: u8)
    by (bit_vector)
    ensures
        p == (b & !(low_mask8(8) << 0u8)) | (p << 0u8),
{
}

/// Writes the low `bits` bits of `new_val` into the field that starts at
/// bit `offset` of `bytes`.
///
/// Bit `offset + k` of the buffer becomes bit `k` of `new_val`; every other
/// bit, including the bits of a shared boundary byte that lie outside the
/// field, keeps its value.
pub fn write_specifier(bytes: &mut [u8], offset: usize, bits: usize, new_val: u128)
    requires
        1 <= bits <= 128,
        offset + bits <= 8 * old(bytes)@.len(),
        offset + bits <= usize::MAX,
    ensures
        is_field_write(old(bytes)@, final(bytes)@, offset as int, bits as nat, new_val),
{
    let ghost old_bytes = bytes@;
    let end = offset + bits;
    let span = BitSpan::new(offset, bits);
    let first = span.first_byte;
    let last = span.last_byte;
    let lsb = span.lsb_shift;
    let msb = span.msb_width;
    let mut buffer = PopBuffer::from_bytes(new_val);
    assert(new_val >> 0u128 == new_val) by (bit_vector);
    if span.is_byte_aligned() {
        // whole bytes, least significant first
        let mut i = first;
        while i <= last
            invariant
                first <= i <= last + 1,
                last < bytes@.len(),
                8 * (last + 1) == end,
                8 * first == offset,
                end == offset + bits,
                bits <= 128,
                written(bytes@, old_bytes, offset as int, new_val, 8 * (i - first)),
                8 * (i - first) < 128 ==> buffer@ == new_val >> ((8 * (i - first)) as u128),
            decreases last + 1 - i,
        {
            let ghost c = 8 * (i - first);
            proof {
                lemma_write_step(bytes@, old_bytes, offset as int, new_val, c, buffer@, i as int, 0, 8);
            }
            let p = buffer.pop_bits(8);
            proof {
                lemma_whole_byte(bytes@[i as int], p);
            }
            bytes[i] = p;
            i = i + 1;
        }
    } else {
        // least significant byte, possibly the only one
        let single = first == last;
        let l = lsb as u8;
        let m = msb as u8;
        assert((1u8 << l) >= 1u8 && (m < 8 ==> (1u8 << m) >= 1u8)) by (bit_vector)
            requires
                l < 8,
                m <= 8,
        ;
        let keep: u8 = if single && msb != 8 {
            !((1u8 << m) - 1) | ((1u8 << l) - 1)
        } else {
            (1u8 << l) - 1
        };
        let amount = if single { bits } else { 8 - lsb };
        proof {
            lemma_write_step(bytes@, old_bytes, offset as int, new_val, 0, buffer@, first as int, lsb as u8, amount as u8);
            if single && msb != 8 {
                lemma_keep_inner(lsb as u8, msb as u8);
            } else {
                lemma_keep_low(lsb as u8);
            }
        }
        let overwrite = buffer.pop_bits(amount as u32);
        bytes[first] = (bytes[first] & keep) | (overwrite << lsb as u8);
        let mut c: usize = amount;
        // full interior bytes
        let mut i = first + 1;
        while i < last
            invariant
                first < i,
                single == (first == last),
                1 <= msb <= 8,
                !single ==> i <= last,
                single ==> i == first + 1 && c == bits,
                first <= last,
                last < bytes@.len(),
                8 * last + msb == end,
                8 * first + lsb == offset,
                !single ==> c == 8 * i - offset,
                end == offset + bits,
                bits <= 128,
                written(bytes@, old_bytes, offset as int, new_val, c as int),
                c < 128 ==> buffer@ == new_val >> (c as u128),
            decreases last - i,
        {
            proof {
                lemma_write_step(bytes@, old_bytes, offset as int, new_val, c as int, buffer@, i as int, 0, 8);
            }
            let p = buffer.pop_bits(8);
            proof {
                lemma_whole_byte(bytes@[i as int], p);
            }
            bytes[i] = p;
            c = c + 8;
            i = i + 1;
        }
        // most significant byte
        if !single {
            proof {
                lemma_write_step(bytes@, old_bytes, offset as int, new_val, c as int, buffer@, last as int, 0, msb as u8);
            }
            if msb == 8 {
                let p = buffer.pop_bits(8);
                proof {
                    lemma_whole_byte(bytes@[last as int], p);
                }
                bytes[last] = p;
            } else {
                let stays_same = bytes[last] & !((1u8 << m) - 1);
                let overwrite = buffer.pop_bits(msb as u32);
                proof {
                    lemma_keep_high(bytes@[last as int], overwrite, msb as u8);
                }
                bytes[last] = stays_same | overwrite;
            }
        }
    }
}

} // verus!
