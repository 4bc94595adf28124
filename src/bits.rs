//! The mathematical model of packed bits: what a byte buffer and a storage
//! integer hold, bit by bit, and the bit-vector facts that the codec uses.
use vstd::prelude::*;
use vstd::arithmetic::power2::{pow2, lemma_pow2_pos, lemma_pow2_adds, lemma2_to64};
use vstd::arithmetic::div_mod::{lemma_basic_div, lemma_div_non_zero};
use vstd::bits::lemma_u128_shr_is_div;

verus! {

/// Bit `t` (0 = least significant) of the byte `b`.
pub open spec fn byte_bit(b: u8, t: int) -> bool {
    (b >> (t as u8)) & 1u8 == 1u8
}

/// Bit `i` of a buffer, counting bit 0 as the least significant bit of byte 0.
pub open spec fn buf_bit(bytes: Seq<u8>, i: int) -> bool {
    byte_bit(bytes[i / 8], i % 8)
}

/// Bit `k` (0 = least significant) of the storage integer `x`.
pub open spec fn val_bit(x: u128, k: int) -> bool {
    (x >> (k as u128)) & 1u128 == 1u128
}

/// `x` is representable in `w` bits: `0 <= x < 2^w`.
pub open spec fn fits_in(x: u128, w: nat) -> bool {
    (x as int) < pow2(w)
}

/// Two bytes are equal when all of their bits are.
pub proof fn lemma_byte_ext(a: u8, b: u8)
    requires
        forall|t: int| 0 <= t < 8 ==> byte_bit(a, t) == byte_bit(b, t),
    ensures
        a == b,
{
    assert(byte_bit(a, 0) == byte_bit(b, 0));
    assert(byte_bit(a, 1) == byte_bit(b, 1));
    assert(byte_bit(a, 2) == byte_bit(b, 2));
    assert(byte_bit(a, 3) == byte_bit(b, 3));
    assert(byte_bit(a, 4) == byte_bit(b, 4));
    assert(byte_bit(a, 5) == byte_bit(b, 5));
    assert(byte_bit(a, 6) == byte_bit(b, 6));
    assert(byte_bit(a, 7) == byte_bit(b, 7));
    assert(a == b) by (bit_vector)
        requires
            ((a >> 0u8) & 1u8 == 1u8) == ((b >> 0u8) & 1u8 == 1u8),
            ((a >> 1u8) & 1u8 == 1u8) == ((b >> 1u8) & 1u8 == 1u8),
            ((a >> 2u8) & 1u8 == 1u8) == ((b >> 2u8) & 1u8 == 1u8),
            ((a >> 3u8) & 1u8 == 1u8) == ((b >> 3u8) & 1u8 == 1u8),
            ((a >> 4u8) & 1u8 == 1u8) == ((b >> 4u8) & 1u8 == 1u8),
            ((a >> 5u8) & 1u8 == 1u8) == ((b >> 5u8) & 1u8 == 1u8),
            ((a >> 6u8) & 1u8 == 1u8) == ((b >> 6u8) & 1u8 == 1u8),
            ((a >> 7u8) & 1u8 == 1u8) == ((b >> 7u8) & 1u8 == 1u8),
    ;
}

/// Shifting a byte by nothing keeps it.
pub proof fn lemma_shr_zero(b: u8)
    by (bit_vector)
    ensures
        b >> 0u8 == b,
{
}

/// A zero byte has no bit set.
pub proof fn lemma_zero_byte(t: u8)
    by (bit_vector)
    ensures
        (0u8 >> t) & 1u8 == 0u8,
{
}

/// Bit `8 * j + t` of a buffer is bit `t` of its byte `j`.
pub proof fn lemma_buf_bit_index(bytes: Seq<u8>, j: int, t: int)
    requires
        0 <= j,
        0 <= t < 8,
    ensures
        buf_bit(bytes, 8 * j + t) == byte_bit(bytes[j], t),
{
    assert((8 * j + t) / 8 == j && (8 * j + t) % 8 == t) by (nonlinear_arith)
        requires
            0 <= j,
            0 <= t < 8,
    ;
}

/// `2^128` is past every `u128`.
pub proof fn lemma_pow2_128()
    ensures
        pow2(128) == 0x1_0000_0000_0000_0000_0000_0000_0000_0000,
{
    lemma2_to64();
    lemma_pow2_adds(64, 64);
}

/// For widths below 128, fitting in `w` bits is having nothing left after
/// shifting right by `w`; every `u128` fits in 128 bits or more.
pub proof fn lemma_fits_in_shr(x: u128, w: nat)
    ensures
        w < 128 ==> (fits_in(x, w) <==> x >> (w as u128) == 0),
        w >= 128 ==> fits_in(x, w),
{
    lemma_pow2_pos(w);
    if w < 128 {
        lemma_u128_shr_is_div(x, w as u128);
        if (x as int) < pow2(w) {
            lemma_basic_div(x as int, pow2(w) as int);
        } else {
            lemma_div_non_zero(x as int, pow2(w) as int);
        }
    } else {
        lemma_pow2_128();
        if w > 128 {
            vstd::arithmetic::power2::lemma_pow2_strictly_increases(128, w);
        }
    }
}

/// Two storage values that fit in `w` bits and agree on those bits are equal.
pub proof fn lemma_val_ext(a: u128, b: u128, w: nat)
    requires
        w <= 128,
        fits_in(a, w),
        fits_in(b, w),
        forall|k: int| 0 <= k < w ==> val_bit(a, k) == val_bit(b, k),
    ensures
        a == b,
    decreases w,
{
    lemma_fits_in_shr(a, w);
    lemma_fits_in_shr(b, w);
    if w == 0 {
        assert(a == b) by (bit_vector)
            requires
                a >> 0u128 == 0,
                b >> 0u128 == 0,
        ;
    } else {
        let a1 = a >> 1u128;
        let b1 = b >> 1u128;
        let w1 = (w - 1) as nat;
        assert forall|k: int| 0 <= k < w1 implies val_bit(a1, k) == val_bit(b1, k) by {
            assert(val_bit(a, k + 1) == val_bit(b, k + 1));
            lemma_shr1_bit(a, k as u128);
            lemma_shr1_bit(b, k as u128);
        }
        lemma_shr1_fits(a, w1 as u128);
        lemma_shr1_fits(b, w1 as u128);
        lemma_fits_in_shr(a1, w1);
        lemma_fits_in_shr(b1, w1);
        lemma_val_ext(a1, b1, w1);
        assert(val_bit(a, 0) == val_bit(b, 0));
        assert(a == b) by (bit_vector)
            requires
                a >> 1u128 == b >> 1u128,
                ((a >> 0u128) & 1u128 == 1u128) == ((b >> 0u128) & 1u128 == 1u128),
        ;
    }
}

proof fn lemma_shr1_bit(x: u128, k: u128)
    by (bit_vector)
    requires
        k < 127,
    ensures
        ((x >> 1u128) >> k) & 1u128 == (x >> (k + 1) as u128) & 1u128,
{
}

proof fn lemma_shr1_fits(x: u128, w1: u128)
    by (bit_vector)
    requires
        w1 < 128,
        w1 + 1 >= 128 || x >> ((w1 + 1) as u128) == 0,
    ensures
        w1 >= 128 || (x >> 1u128) >> w1 == 0,
{
}

} // verus!
