use modular_bitfield::adt::{AdtVariant, TaggedLayout};
use modular_bitfield::discriminant::discriminant_from_bytes;
use modular_bitfield::{InvalidBitPattern, OutOfBounds};

const TWO: [u128; 4] = [0, 1, 2, 3];
const FOUR: [u128; 2] = [0, 15];

fn variant(tag: u128, fields: &[usize]) -> AdtVariant {
    AdtVariant { tag, fields: fields.to_vec() }
}

// First(Two, Four), Second(Two), Third, Fourth with a 2-bit tag.
fn simple_adt() -> TaggedLayout {
    TaggedLayout {
        tag_bits: 2,
        variants: vec![variant(0, &[2, 4]), variant(1, &[2]), variant(2, &[]), variant(3, &[])],
    }
}

#[test]
fn simple_adt_round_trip() {
    let layout = simple_adt();
    assert_eq!(layout.bits(), 8);

    assert_eq!(layout.decode(0), Ok((0, vec![0, 0])));

    let raw = layout.encode(1, &[3]).unwrap();
    assert_eq!(raw, 0b11_01);
    assert_eq!(raw >> 4, 0);
    let (v, payload) = layout.decode(raw).unwrap();
    assert_eq!(v, 1);
    assert_eq!(payload, vec![3]);
    assert_eq!(discriminant_from_bytes(&TWO, payload[0]), Ok(3));
}

#[test]
fn narrow_variant_leaves_high_bits_zero() {
    let layout = simple_adt();
    let raw = layout.encode(2, &[]).unwrap();
    assert_eq!(raw, 2);
    assert_eq!(layout.decode(raw), Ok((2, vec![])));
    let raw = layout.encode(0, &[1, 15]).unwrap();
    assert_eq!(raw, 0b1111_01_00);
    assert_eq!(layout.decode(raw), Ok((0, vec![1, 15])));
}

#[test]
fn invalid_payload_is_left_to_its_specifier() {
    let layout = simple_adt();
    let (v, payload) = layout.decode(0x30).unwrap();
    assert_eq!((v, payload[0]), (0, 0));
    assert_eq!(discriminant_from_bytes(&FOUR, payload[1]), Err(InvalidBitPattern { invalid_bytes: 3 }));
}

#[test]
fn payload_too_wide_is_out_of_bounds() {
    let layout = simple_adt();
    assert_eq!(layout.encode(1, &[4]), Err(OutOfBounds));
    assert_eq!(layout.encode(0, &[3, 16]), Err(OutOfBounds));
}

#[test]
fn unknown_tag_is_invalid() {
    // Has(7-bit record) = 0b01, Missing = 0b10 with a 2-bit tag; 0 is no tag.
    let layout = TaggedLayout { tag_bits: 2, variants: vec![variant(1, &[7]), variant(2, &[])] };
    assert_eq!(layout.bits(), 9);
    assert_eq!(layout.decode(0), Err(InvalidBitPattern { invalid_bytes: 0 }));
    assert_eq!(layout.decode(0b1_0000_0011), Err(InvalidBitPattern { invalid_bytes: 3 }));
    let raw = layout.encode(0, &[0b111_1111]).unwrap();
    assert_eq!(raw, 0b1_1111_1101);
    assert_eq!(layout.decode(raw), Ok((0, vec![0b111_1111])));
}

#[test]
fn nested_adt() {
    // This(SimpleAdt, Two), That { foo: Two, bar: Four } with a 1-bit tag.
    let inner = simple_adt();
    let layout = TaggedLayout { tag_bits: 1, variants: vec![variant(0, &[8, 2]), variant(1, &[2, 4])] };
    assert_eq!(layout.bits(), 11);

    let (v, payload) = layout.decode(0).unwrap();
    assert_eq!(v, 0);
    assert_eq!(inner.decode(payload[0]), Ok((0, vec![0, 0])));
    assert_eq!(payload[1], 0);

    let raw = layout.encode(1, &[1, 15]).unwrap();
    assert_eq!(layout.decode(raw), Ok((1, vec![1, 15])));
    assert_eq!(raw >> 7, 0);
}
