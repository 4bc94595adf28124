//! Enum specifiers: a field whose raw bits are one of a fixed set of
//! discriminants.
use vstd::prelude::*;
use vstd::arithmetic::power2::{pow2, lemma_pow2_unfold};
use crate::bits::{fits_in, lemma_fits_in_shr};
use crate::error::InvalidBitPattern;

verus! {

/// The least `b` with `count <= 2^b`.
pub open spec fn ceil_log2(count: nat) -> nat
    decreases count,
{
    if count <= 1 {
        0
    } else {
        1 + ceil_log2(((count + 1) / 2) as nat)
    }
}

/// `ceil_log2(count)` bits tell `count` values apart, and one bit fewer
/// would not.
pub proof fn lemma_ceil_log2(count: nat)
    ensures
        count <= pow2(ceil_log2(count)),
        ceil_log2(count) > 0 ==> pow2((ceil_log2(count) - 1) as nat) < count,
    decreases count,
{
    if count <= 1 {
        vstd::arithmetic::power2::lemma2_to64();
    } else {
        let half = ((count + 1) / 2) as nat;
        lemma_ceil_log2(half);
        lemma_pow2_unfold(ceil_log2(count));
        if ceil_log2(half) > 0 {
            lemma_pow2_unfold(ceil_log2(half));
        } else {
            vstd::arithmetic::power2::lemma2_to64();
        }
    }
}

proof fn lemma_ceil_log2_le(count: nat)
    ensures
        ceil_log2(count) <= count,
    decreases count,
{
    if count > 1 {
        lemma_ceil_log2_le(((count + 1) / 2) as nat);
    }
}

/// The width of an enum field with `variant_count` variants: the declared
/// width if there is one, widened to `ceil_log2(variant_count)` if that is
/// more.
pub fn enum_bits(declared: Option<usize>, variant_count: usize) -> (r: usize)
    ensures
        r == vstd::math::max(
            match declared {
                Some(d) => d as int,
                None => 0,
            },
            ceil_log2(variant_count as nat) as int,
        ),
{
    let mut n = variant_count;
    let mut needed: usize = 0;
    proof {
        lemma_ceil_log2_le(variant_count as nat);
    }
    while n > 1
        invariant
            needed + ceil_log2(n as nat) == ceil_log2(variant_count as nat),
            ceil_log2(variant_count as nat) <= variant_count,
        decreases n,
    {
        n = n / 2 + n % 2;
        needed = needed + 1;
    }
    let declared_bits = match declared {
        Some(d) => d,
        None => 0,
    };
    if declared_bits > needed { declared_bits } else { needed }
}

/// Decodes raw bits as the index of the matching discriminant: the first
/// `i` with `discriminants[i] == bytes`, or `InvalidBitPattern` when none
/// matches.
pub fn discriminant_from_bytes(discriminants: &[u128], bytes: u128) -> (r: Result<usize, InvalidBitPattern<u128>>)
    ensures
        match r {
            Ok(i) => i < discriminants@.len() && discriminants@[i as int] == bytes && forall|j: int|
                0 <= j < i ==> discriminants@[j] != bytes,
            Err(e) => e.invalid_bytes == bytes && forall|j: int|
                0 <= j < discriminants@.len() ==> discriminants@[j] != bytes,
        },
{
    let mut i: usize = 0;
    while i < discriminants.len()
        invariant
            i <= discriminants@.len(),
            forall|j: int| 0 <= j < i ==> discriminants@[j] != bytes,
        decreases discriminants@.len() - i,
    {
        if discriminants[i] == bytes {
            return Ok(i);
        }
        i = i + 1;
    }
    Err(InvalidBitPattern::new(bytes))
}

/// Every discriminant fits in `bits` bits.
pub fn discriminants_in_range(discriminants: &[u128], bits: usize) -> (r: bool)
    ensures
        r == forall|j: int| 0 <= j < discriminants@.len() ==> fits_in(#[trigger] discriminants@[j], bits as nat),
{
    let mut i: usize = 0;
    while i < discriminants.len()
        invariant
            i <= discriminants@.len(),
            forall|j: int| 0 <= j < i ==> fits_in(#[trigger] discriminants@[j], bits as nat),
        decreases discriminants@.len() - i,
    {
        let d = discriminants[i];
        proof {
            lemma_fits_in_shr(d, bits as nat);
        }
        if bits < 128 && d >> bits != 0 {
            return false;
        }
        i = i + 1;
    }
    true
}

} // verus!
