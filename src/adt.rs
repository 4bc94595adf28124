//! Tagged variant types: a tag at bit 0 of the field's slot, followed by the
//! payload fields of the variant that the tag selects.
use vstd::prelude::*;
use crate::bits::{buf_bit, val_bit, fits_in, lemma_fits_in_shr, lemma_val_ext, lemma_buf_bit_index, lemma_zero_byte};
use crate::engine::{is_field_value, read_specifier, write_specifier};
use crate::error::{InvalidBitPattern, OutOfBounds};
use crate::laws::{le_byte, lemma_le_byte_bit};
use crate::array_bytes_conv::{array_into_bytes, bytes_into_array};

verus! {

/// The `width` bits of `x` that start at bit `offset`, as an integer.
pub open spec fn bits_at(x: u128, offset: nat, width: nat) -> u128 {
    if width >= 128 {
        x >> (offset as u128)
    } else {
        (x >> (offset as u128)) & (((1u128 << (width as u128)) - 1) as u128)
    }
}

/// Sum of the first `i` widths.
pub open spec fn sum_widths(ws: Seq<usize>, i: int) -> nat
    decreases i,
{
    if i <= 0 {
        0
    } else {
        (sum_widths(ws, i - 1) + ws[i - 1]) as nat
    }
}

/// One variant: its tag and the widths of its payload fields, in order.
pub struct AdtVariant {
    pub tag: u128,
    pub fields: Vec<usize>,
}

/// The layout of a tagged variant type.
pub struct TaggedLayout {
    /// Width of the tag, at bit 0 of the slot.
    pub tag_bits: usize,
    pub variants: Vec<AdtVariant>,
}

impl TaggedLayout {
    pub open spec fn fields_of(&self, v: int) -> Seq<usize> {
        self.variants@[v].fields@
    }

    /// Bit offset, within the slot, of payload field `i` of variant `v`.
    pub open spec fn field_offset(&self, v: int, i: int) -> nat {
        (self.tag_bits + sum_widths(self.fields_of(v), i)) as nat
    }

    /// Bits used by variant `v`: its tag and all of its payload fields.
    pub open spec fn variant_bits(&self, v: int) -> nat {
        self.field_offset(v, self.fields_of(v).len() as int)
    }

    /// Bits used by the widest of the first `n` variants (at least the tag).
    pub open spec fn max_bits(&self, n: int) -> nat
        decreases n,
    {
        if n <= 0 {
            self.tag_bits as nat
        } else {
            vstd::math::max(self.max_bits(n - 1) as int, self.variant_bits(n - 1) as int) as nat
        }
    }

    /// The slot's width: the tag plus the widest payload.
    pub open spec fn spec_bits(&self) -> nat {
        self.max_bits(self.variants@.len() as int)
    }

    /// Tags fit their width and tell the variants apart; every payload field
    /// has at least one bit; the slot has at most 128 bits.
    pub open spec fn wf(&self) -> bool {
        &&& 1 <= self.tag_bits
        &&& self.spec_bits() <= 128
        &&& forall|v: int| 0 <= v < self.variants@.len() ==> fits_in(#[trigger] self.variants@[v].tag, self.tag_bits as nat)
        &&& forall|v: int, w: int|
            0 <= v < w < self.variants@.len() ==> #[trigger] self.variants@[v].tag != #[trigger] self.variants@[w].tag
        &&& forall|v: int, i: int|
            0 <= v < self.variants@.len() && 0 <= i < self.fields_of(v).len() ==> 1 <= #[trigger] self.fields_of(v)[i]
    }

    /// `raw` encodes variant `v` with `payload`: the tag and each payload
    /// field in its place, and every bit above the variant's last field 0.
    pub open spec fn is_encoding(&self, v: int, payload: Seq<u128>, raw: u128) -> bool {
        &&& bits_at(raw, 0, self.tag_bits as nat) == self.variants@[v].tag
        &&& forall|i: int|
            0 <= i < payload.len() ==> bits_at(raw, self.field_offset(v, i), #[trigger] self.fields_of(v)[i] as nat)
                == payload[i]
        &&& fits_in(raw, self.variant_bits(v))
    }

    /// `r` is what decoding `raw` gives: the variant whose tag the low
    /// `tag_bits` bits hold and its payload fields, or `InvalidBitPattern`
    /// with those bits when no variant has them as tag.
    pub open spec fn is_decoding(&self, raw: u128, r: Result<(usize, Vec<u128>), InvalidBitPattern<u128>>) -> bool {
        let tag = bits_at(raw, 0, self.tag_bits as nat);
        match r {
            Ok((v, payload)) => {
                &&& v < self.variants@.len()
                &&& self.variants@[v as int].tag == tag
                &&& payload@.len() == self.fields_of(v as int).len()
                &&& forall|i: int|
                    0 <= i < payload@.len() ==> #[trigger] payload@[i] == bits_at(
                        raw,
                        self.field_offset(v as int, i),
                        self.fields_of(v as int)[i] as nat,
                    )
            },
            Err(e) => {
                &&& e.invalid_bytes == tag
                &&& forall|w: int| 0 <= w < self.variants@.len() ==> #[trigger] self.variants@[w].tag != tag
            },
        }
    }
}


proof fn lemma_bits_at_bit(x: u128, off: u128, w: u128, k: u128)
    by (bit_vector)
    requires
        off + w <= 128,
        k < w,
    ensures
        (((if w >= 128 { x >> off } else { (x >> off) & (((1u128 << w) - 1) as u128) }) >> k) & 1u128 == 1u128)
            == ((x >> ((off + k) as u128)) & 1u128 == 1u128),
{
}

proof fn lemma_bits_at_high(x: u128, off: u128, w: u128)
    by (bit_vector)
    requires
        w < 128,
    ensures
        ((x >> off) & (((1u128 << w) - 1) as u128)) >> w == 0,
{
}

proof fn lemma_high_bit_clear(x: u128, c: u128, k: u128)
    by (bit_vector)
    requires
        c <= k < 128,
        x >> c == 0,
    ensures
        (x >> k) & 1u128 == 0,
{
}

/// Bits of `x` at or above `w` are 0 when `x` fits in `w` bits.
proof fn lemma_fits_high_clear(x: u128, w: nat, k: int)
    requires
        fits_in(x, w),
        w <= k < 128,
    ensures
        !val_bit(x, k),
{
    lemma_fits_in_shr(x, w);
    lemma_high_bit_clear(x, w as u128, k as u128);
}

/// `bits_at` holds the selected bits of `x` and nothing above them.
proof fn lemma_bits_at(x: u128, off: nat, w: nat)
    requires
        off + w <= 128,
    ensures
        fits_in(bits_at(x, off, w), w),
        forall|k: int| 0 <= k < w ==> val_bit(bits_at(x, off, w), k) == val_bit(x, off + k),
{
    let y = bits_at(x, off, w);
    assert forall|k: int| 0 <= k < w implies val_bit(y, k) == val_bit(x, off + k) by {
        lemma_bits_at_bit(x, off as u128, w as u128, k as u128);
    }
    lemma_fits_in_shr(y, w);
    if w < 128 {
        lemma_bits_at_high(x, off as u128, w as u128);
    }
}

/// A value that fits in `w` bits and has the bits of `x` from `off` on is
/// `bits_at(x, off, w)`.
proof fn lemma_value_field(x: u128, off: nat, w: nat, v: u128)
    requires
        off + w <= 128,
        fits_in(v, w),
        forall|k: int| 0 <= k < w ==> val_bit(v, k) == val_bit(x, off + k),
    ensures
        v == bits_at(x, off, w),
{
    lemma_bits_at(x, off, w);
    let y = bits_at(x, off, w);
    assert forall|k: int| 0 <= k < w implies val_bit(v, k) == val_bit(y, k) by {
        assert(val_bit(v, k) == val_bit(x, off + k));
    }
    lemma_val_ext(v, y, w);
}

/// A value whose bits at or above `w` are all 0 fits in `w` bits.
proof fn lemma_high_clear_fits(x: u128, w: nat)
    requires
        w <= 128,
        forall|k: int| w <= k < 128 ==> !val_bit(x, k),
    ensures
        fits_in(x, w),
{
    lemma_bits_at(x, 0, w);
    let y = bits_at(x, 0, w);
    assert forall|k: int| 0 <= k < 128 implies val_bit(x, k) == val_bit(y, k) by {
        if k >= w {
            lemma_fits_high_clear(y, w, k);
        } else {
            assert(val_bit(y, k) == val_bit(x, 0 + k));
        }
    }
    lemma_fits_in_shr(x, 128);
    lemma_fits_in_shr(y, 128);
    lemma_val_ext(x, y, 128);
}

/// The bytes that `bytes_into_array` makes of `raw` hold the bits of `raw`.
proof fn lemma_le_bytes_bits(buf: Seq<u8>, raw: u128, n: nat)
    requires
        n <= 16,
        buf == Seq::new(n, |m: int| le_byte(raw, m)),
    ensures
        forall|i: int| 0 <= i < 8 * n ==> #[trigger] buf_bit(buf, i) == val_bit(raw, i),
{
    assert forall|i: int| 0 <= i < 8 * n implies #[trigger] buf_bit(buf, i) == val_bit(raw, i) by {
        let m = i / 8;
        let t = i % 8;
        assert(i == 8 * m + t && 0 <= m < n);
        lemma_buf_bit_index(buf, m, t);
        lemma_le_byte_bit(raw, m as u128, t as u8);
    }
}

proof fn lemma_sum_mono(ws: Seq<usize>, i: int, j: int)
    requires
        0 <= i <= j,
    ensures
        sum_widths(ws, i) <= sum_widths(ws, j),
    decreases j,
{
    if i < j {
        lemma_sum_mono(ws, i, j - 1);
    }
}

impl TaggedLayout {
    proof fn lemma_max_bits(&self, n: int, v: int)
        requires
            0 <= v < n,
        ensures
            self.variant_bits(v) <= self.max_bits(n),
            self.tag_bits <= self.max_bits(n),
        decreases n,
    {
        if v < n - 1 {
            self.lemma_max_bits(n - 1, v);
        }
        if n - 1 > 0 {
            self.lemma_max_bits(n - 1, 0);
        }
    }

    /// The fields of variant `v` lie one after another inside the slot.
    proof fn lemma_field_in_slot(&self, v: int, i: int)
        requires
            self.wf(),
            0 <= v < self.variants@.len(),
            0 <= i < self.fields_of(v).len(),
        ensures
            self.field_offset(v, i) + self.fields_of(v)[i] == self.field_offset(v, i + 1),
            self.field_offset(v, i + 1) <= self.variant_bits(v),
            self.variant_bits(v) <= self.spec_bits(),
            self.tag_bits <= self.field_offset(v, i),
    {
        lemma_sum_mono(self.fields_of(v), i + 1, self.fields_of(v).len() as int);
        self.lemma_max_bits(self.variants@.len() as int, v);
    }

    /// The slot's width in bits: the tag plus the widest payload.
    pub fn bits(&self) -> (r: usize)
        requires
            self.wf(),
        ensures
            r == self.spec_bits(),
    {
        let mut best = self.tag_bits;
        let mut v: usize = 0;
        while v < self.variants.len()
            invariant
                self.wf(),
                v <= self.variants@.len(),
                best == self.max_bits(v as int),
            decreases self.variants@.len() - v,
        {
            let fields = &self.variants[v].fields;
            let mut total = self.tag_bits;
            let mut i: usize = 0;
            proof {
                self.lemma_max_bits(self.variants@.len() as int, v as int);
            }
            while i < fields.len()
                invariant
                    self.wf(),
                    v < self.variants@.len(),
                    fields@ == self.fields_of(v as int),
                    i <= fields@.len(),
                    total == self.field_offset(v as int, i as int),
                    self.variant_bits(v as int) <= 128,
                decreases fields@.len() - i,
            {
                proof {
                    lemma_sum_mono(fields@, i as int + 1, fields@.len() as int);
                }
                total = total + fields[i];
                i = i + 1;
            }
            if total > best {
                best = total;
            }
            v = v + 1;
        }
        best
    }

    /// Encodes variant `v` with its payload: a zeroed buffer as wide as the
    /// slot gets the tag at bit 0 and then each payload field, in order, right
    /// after the previous one; its bytes, little-endian, are the result. A
    /// payload value too wide for its field gives `OutOfBounds`.
    pub fn encode(&self, v: usize, payload: &[u128]) -> (r: Result<u128, OutOfBounds>)
        requires
            self.wf(),
            v < self.variants@.len(),
            payload@.len() == self.fields_of(v as int).len(),
        ensures
            r is Ok <==> forall|i: int|
                0 <= i < payload@.len() ==> fits_in(#[trigger] payload@[i], self.fields_of(v as int)[i] as nat),
            r matches Ok(raw) ==> self.is_encoding(v as int, payload@, raw),
    {
        let bits = self.bits();
        let n = (bits + 7) / 8;
        let mut buf: Vec<u8> = Vec::new();
        let mut z: usize = 0;
        while z < n
            invariant
                z <= n,
                buf@.len() == z,
                forall|m: int| 0 <= m < z ==> buf@[m] == 0,
            decreases n - z,
        {
            buf.push(0);
            z = z + 1;
        }
        proof {
            assert forall|k: int| 0 <= k < 8 * n implies !#[trigger] buf_bit(buf@, k) by {
                let m = k / 8;
                assert(buf@[m] == 0);
                lemma_zero_byte((k % 8) as u8);
            }
        }
        let tag = self.variants[v].tag;
        let tag_bits = self.tag_bits;
        let fields = &self.variants[v].fields;
        let ghost zeros = buf@;
        write_specifier(buf.as_mut_slice(), 0, tag_bits, tag);
        let mut off = tag_bits;
        let mut i: usize = 0;
        proof {
            if fields@.len() > 0 {
                self.lemma_field_in_slot(v as int, 0);
            } else {
                self.lemma_max_bits(self.variants@.len() as int, v as int);
            }
            assert forall|k: int| off <= k < 8 * n implies !#[trigger] buf_bit(buf@, k) by {
                assert(!buf_bit(zeros, k));
            }
        }
        while i < fields.len()
            invariant
                self.wf(),
                v < self.variants@.len(),
                fields@ == self.fields_of(v as int),
                payload@.len() == fields@.len(),
                tag == self.variants@[v as int].tag,
                tag_bits == self.tag_bits,
                bits == self.spec_bits(),
                bits <= 8 * n,
                n <= 16,
                buf@.len() == n,
                i <= fields@.len(),
                off == self.field_offset(v as int, i as int),
                off <= self.variant_bits(v as int),
                is_field_value(buf@, 0, tag_bits as nat, tag),
                forall|j: int|
                    0 <= j < i ==> is_field_value(
                        buf@,
                        self.field_offset(v as int, j) as int,
                        #[trigger] fields@[j] as nat,
                        payload@[j],
                    ),
                forall|j: int| 0 <= j < i ==> fits_in(#[trigger] payload@[j], fields@[j] as nat),
                forall|k: int| off <= k < 8 * n ==> !#[trigger] buf_bit(buf@, k),
            decreases fields@.len() - i,
        {
            let w = fields[i];
            let p = payload[i];
            proof {
                self.lemma_field_in_slot(v as int, i as int);
                lemma_fits_in_shr(p, w as nat);
            }
            if w < 128 && p >> w != 0 {
                return Err(OutOfBounds);
            }
            let ghost before = buf@;
            write_specifier(buf.as_mut_slice(), off, w, p);
            proof {
                assert forall|j: int|
                    0 <= j < i + 1 implies is_field_value(
                    buf@,
                    self.field_offset(v as int, j) as int,
                    #[trigger] fields@[j] as nat,
                    payload@[j],
                ) by {
                    if j < i {
                        self.lemma_field_in_slot(v as int, j);
                        lemma_sum_mono(fields@, j + 1, i as int);
                        let o = self.field_offset(v as int, j);
                        assert forall|k: int| 0 <= k < fields@[j] implies val_bit(payload@[j], k) == buf_bit(buf@, o + k) by {
                            assert(buf_bit(before, o + k) == val_bit(payload@[j], k));
                        }
                    } else {
                        assert forall|k: int| 0 <= k < w implies val_bit(p, k) == buf_bit(buf@, off + k) by {
                            assert(buf_bit(buf@, off + k) == val_bit(p, off + k - off));
                        }
                    }
                }
                assert forall|k: int| 0 <= k < tag_bits implies val_bit(tag, k) == buf_bit(buf@, 0 + k) by {
                    assert(buf_bit(before, 0 + k) == val_bit(tag, k));
                }
                assert forall|k: int| off + w <= k < 8 * n implies !#[trigger] buf_bit(buf@, k) by {
                    assert(!buf_bit(before, k));
                }
            }
            off = off + w;
            i = i + 1;
        }
        let raw = array_into_bytes(buf.as_slice());
        proof {
            let vb = self.variant_bits(v as int);
            assert(8 * n >= 8);
            assert forall|k: int| 0 <= k < 8 * n implies val_bit(raw, k) == buf_bit(buf@, k) by {
                assert(val_bit(raw, k) == buf_bit(buf@, 0 + k));
            }
            assert forall|k: int| 0 <= k < tag_bits implies val_bit(tag, k) == val_bit(raw, 0 + k) by {
                assert(val_bit(tag, k) == buf_bit(buf@, 0 + k));
            }
            lemma_value_field(raw, 0, tag_bits as nat, tag);
            assert forall|j: int|
                0 <= j < payload@.len() implies bits_at(
                raw,
                self.field_offset(v as int, j),
                #[trigger] self.fields_of(v as int)[j] as nat,
            ) == payload@[j] by {
                self.lemma_field_in_slot(v as int, j);
                let o = self.field_offset(v as int, j);
                assert(is_field_value(buf@, o as int, fields@[j] as nat, payload@[j]));
                assert forall|k: int| 0 <= k < fields@[j] implies val_bit(payload@[j], k) == val_bit(raw, o + k) by {
                    assert(val_bit(payload@[j], k) == buf_bit(buf@, o + k));
                }
                lemma_value_field(raw, o, fields@[j] as nat, payload@[j]);
            }
            assert forall|k: int| vb <= k < 128 implies !val_bit(raw, k) by {
                if k >= 8 * n {
                    lemma_fits_high_clear(raw, (8 * n) as nat, k);
                }
            }
            lemma_high_clear_fits(raw, vb);
        }
        Ok(raw)
    }

    /// Decodes the raw bits of a slot: the tag at bit 0 selects the variant,
    /// whose payload fields are then read one after another. A tag that no
    /// variant has gives `InvalidBitPattern` with the tag's bits.
    pub fn decode(&self, raw: u128) -> (r: Result<(usize, Vec<u128>), InvalidBitPattern<u128>>)
        requires
            self.wf(),
        ensures
            self.is_decoding(raw, r),
    {
        let bits = self.bits();
        let n = (bits + 7) / 8;
        let buf = bytes_into_array(raw, n);
        proof {
            lemma_le_bytes_bits(buf@, raw, n as nat);
        }
        let tag_bits = self.tag_bits;
        proof {
            if self.variants@.len() > 0 {
                self.lemma_max_bits(self.variants@.len() as int, 0);
            }
        }
        let tag = read_specifier(buf.as_slice(), 0, tag_bits);
        proof {
            assert forall|k: int| 0 <= k < tag_bits implies val_bit(tag, k) == val_bit(raw, 0 + k) by {
                assert(val_bit(tag, k) == buf_bit(buf@, 0 + k));
            }
            lemma_value_field(raw, 0, tag_bits as nat, tag);
        }
        let mut v: usize = 0;
        while v < self.variants.len() && self.variants[v].tag != tag
            invariant
                v <= self.variants@.len(),
                forall|w: int| 0 <= w < v ==> #[trigger] self.variants@[w].tag != tag,
            decreases self.variants@.len() - v,
        {
            v = v + 1;
        }
        if v == self.variants.len() {
            return Err(InvalidBitPattern::new(tag));
        }
        let fields = &self.variants[v].fields;
        let mut payload: Vec<u128> = Vec::new();
        let mut off = tag_bits;
        let mut i: usize = 0;
        while i < fields.len()
            invariant
                self.wf(),
                v < self.variants@.len(),
                self.variants@[v as int].tag == tag,
                tag == bits_at(raw, 0, self.tag_bits as nat),
                fields@ == self.fields_of(v as int),
                bits == self.spec_bits(),
                bits <= 8 * n,
                buf@.len() == n,
                n <= 16,
                forall|k: int| 0 <= k < 8 * n ==> #[trigger] buf_bit(buf@, k) == val_bit(raw, k),
                i <= fields@.len(),
                payload@.len() == i,
                off == self.field_offset(v as int, i as int),
                forall|j: int|
                    0 <= j < i ==> #[trigger] payload@[j] == bits_at(
                        raw,
                        self.field_offset(v as int, j),
                        fields@[j] as nat,
                    ),
            decreases fields@.len() - i,
        {
            let w = fields[i];
            proof {
                self.lemma_field_in_slot(v as int, i as int);
            }
            let p = read_specifier(buf.as_slice(), off, w);
            proof {
                assert forall|k: int| 0 <= k < w implies val_bit(p, k) == val_bit(raw, off + k) by {
                    assert(val_bit(p, k) == buf_bit(buf@, off + k));
                }
                lemma_value_field(raw, off as nat, w as nat, p);
            }
            payload.push(p);
            off = off + w;
            i = i + 1;
        }
        Ok((v, payload))
    }
}

/// Round trip of a tagged variant: decoding what encoding variant `v` with
/// `payload` gave yields variant `v` and that payload, and every bit of the
/// slot above the variant's last field is 0.
pub proof fn lemma_adt_round_trip(
    layout: &TaggedLayout,
    v: int,
    payload: Seq<u128>,
    raw: u128,
    decoded: Result<(usize, Vec<u128>), InvalidBitPattern<u128>>,
)
    requires
        layout.wf(),
        0 <= v < layout.variants@.len(),
        payload.len() == layout.fields_of(v).len(),
        layout.is_encoding(v, payload, raw),
        layout.is_decoding(raw, decoded),
    ensures
        decoded matches Ok((w, p)) && w == v && p@ == payload,
        forall|k: int| layout.variant_bits(v) <= k < 128 ==> !val_bit(raw, k),
{
    match decoded {
        Ok((w, p)) => {
            if w != v {
                if (w as int) < v {
                    assert(layout.variants@[w as int].tag != layout.variants@[v].tag);
                } else {
                    assert(layout.variants@[v].tag != layout.variants@[w as int].tag);
                }
            }
            assert forall|i: int| 0 <= i < payload.len() implies p@[i] == payload[i] by {
                assert(layout.fields_of(v)[i] == layout.fields_of(v)[i]);
            }
            assert(p@ =~= payload);
        },
        Err(e) => {
            assert(layout.variants@[v].tag != bits_at(raw, 0, layout.tag_bits as nat));
        },
    }
    assert forall|k: int| layout.variant_bits(v) <= k < 128 implies !val_bit(raw, k) by {
        lemma_fits_high_clear(raw, layout.variant_bits(v), k);
    }
}

} // verus!
