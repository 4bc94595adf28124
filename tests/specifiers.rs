use modular_bitfield::config::{ReprKind, SkipWhich};
use modular_bitfield::discriminant::{discriminant_from_bytes, discriminants_in_range, enum_bits};
use modular_bitfield::utils::Bits;
use modular_bitfield::{Error, InvalidBitPattern, OutOfBounds, Specifier, SpecifierBytes, B};

#[test]
fn integer_specifier_rejects_values_past_width() {
    assert_eq!(<B<5> as Specifier>::into_bytes(31), Ok(31));
    assert_eq!(<B<5> as Specifier>::into_bytes(32), Err(OutOfBounds));
    assert_eq!(<B<5> as Specifier>::into_bytes(u128::MAX), Err(OutOfBounds));
    assert_eq!(<B<1> as Specifier>::into_bytes(2), Err(OutOfBounds));
    assert_eq!(<B<127> as Specifier>::into_bytes(1u128 << 127), Err(OutOfBounds));
    assert_eq!(<B<127> as Specifier>::into_bytes((1u128 << 127) - 1), Ok((1u128 << 127) - 1));
    assert_eq!(<B<128> as Specifier>::into_bytes(u128::MAX), Ok(u128::MAX));
    assert_eq!(<B<13> as Specifier>::bits(), 13);
    assert_eq!(<B<13> as Specifier>::from_bytes(0x2000), Err(InvalidBitPattern { invalid_bytes: 0x2000 }));
    assert_eq!(<B<13> as Specifier>::from_bytes(0x1FFF), Ok(0x1FFF));
}

#[test]
fn bool_specifier_accepts_only_zero_and_one() {
    assert_eq!(<bool as Specifier>::bits(), 1);
    assert_eq!(<bool as Specifier>::into_bytes(true), Ok(1));
    assert_eq!(<bool as Specifier>::into_bytes(false), Ok(0));
    assert_eq!(<bool as Specifier>::from_bytes(0), Ok(false));
    assert_eq!(<bool as Specifier>::from_bytes(1), Ok(true));
    assert_eq!(<bool as Specifier>::from_bytes(2), Err(InvalidBitPattern { invalid_bytes: 2 }));
    assert_eq!(<bool as Specifier>::from_bytes(u128::MAX), Err(InvalidBitPattern { invalid_bytes: u128::MAX }));
}

#[test]
fn primitive_specifiers() {
    assert_eq!(<u8 as Specifier>::bits(), 8);
    assert_eq!(<u16 as Specifier>::bits(), 16);
    assert_eq!(<u32 as Specifier>::bits(), 32);
    assert_eq!(<u64 as Specifier>::bits(), 64);
    assert_eq!(<u128 as Specifier>::bits(), 128);
    assert_eq!(<u8 as Specifier>::into_bytes(0xFF), Ok(0xFF));
    assert_eq!(<u16 as Specifier>::into_bytes(0xBEEF), Ok(0xBEEF));
    assert_eq!(<u8 as Specifier>::from_bytes(0x100), Err(InvalidBitPattern { invalid_bytes: 0x100 }));
    assert_eq!(<u32 as Specifier>::from_bytes(0xFFFF_FFFF), Ok(u32::MAX));
    assert_eq!(<u64 as Specifier>::from_bytes(1u128 << 64), Err(InvalidBitPattern { invalid_bytes: 1u128 << 64 }));
    assert_eq!(<u128 as Specifier>::from_bytes(u128::MAX), Ok(u128::MAX));
}

#[test]
fn enum_with_three_variants_rejects_unused_tag() {
    let discriminants: [u128; 3] = [0, 1, 2];
    assert_eq!(enum_bits(Some(2), 3), 2);
    assert_eq!(discriminant_from_bytes(&discriminants, 3), Err(InvalidBitPattern { invalid_bytes: 3 }));
    assert_eq!(discriminant_from_bytes(&discriminants, 2), Ok(2));
    assert_eq!(discriminant_from_bytes(&discriminants, 0), Ok(0));
}

#[test]
fn enum_width_from_variant_count() {
    assert_eq!(enum_bits(None, 1), 0);
    assert_eq!(enum_bits(None, 2), 1);
    assert_eq!(enum_bits(None, 3), 2);
    assert_eq!(enum_bits(None, 4), 2);
    assert_eq!(enum_bits(None, 5), 3);
    assert_eq!(enum_bits(None, 8), 3);
    assert_eq!(enum_bits(None, 9), 4);
    assert_eq!(enum_bits(Some(4), 6), 4);
    assert_eq!(enum_bits(Some(1), 4), 2);
    assert_eq!(enum_bits(None, usize::MAX), 64);
}

#[test]
fn discriminant_range_check() {
    assert!(discriminants_in_range(&[0, 1, 2, 3], 2));
    assert!(!discriminants_in_range(&[0, 4], 2));
    assert!(discriminants_in_range(&[], 0));
    assert!(discriminants_in_range(&[u128::MAX], 128));
}

#[test]
fn first_matching_discriminant_wins() {
    assert_eq!(discriminant_from_bytes(&[5, 7, 7], 7), Ok(1));
    assert_eq!(discriminant_from_bytes(&[], 0), Err(InvalidBitPattern { invalid_bytes: 0 }));
}

#[test]
fn error_values() {
    let e = InvalidBitPattern::new(0x30u8);
    assert_eq!(e, InvalidBitPattern { invalid_bytes: 0x30 });
    assert_eq!(e.invalid_bytes(), 0x30);
    assert_ne!(Error::OutOfBounds, Error::InvalidBufferLen);
}

#[test]
fn repr_kind_bits() {
    assert_eq!(ReprKind::U8.bits(), 8);
    assert_eq!(ReprKind::U16.bits(), 16);
    assert_eq!(ReprKind::U32.bits(), 32);
    assert_eq!(ReprKind::U64.bits(), 64);
    assert_eq!(ReprKind::U128.bits(), 128);
}

#[test]
fn skip_which() {
    assert!(SkipWhich::All.skip_getters());
    assert!(SkipWhich::All.skip_setters());
    assert!(SkipWhich::All.skip_getters_and_setters());
    assert!(SkipWhich::Getters.skip_getters());
    assert!(!SkipWhich::Getters.skip_setters());
    assert!(!SkipWhich::Getters.skip_getters_and_setters());
    assert!(!SkipWhich::Setters.skip_getters());
    assert!(SkipWhich::Setters.skip_setters());
    assert!(!SkipWhich::Setters.skip_getters_and_setters());
}

#[test]
fn bits_into_raw() {
    assert_eq!(Bits(0b101u8).into_raw(), 0b101);
}

#[test]
fn storage_kind_widths() {
    assert_eq!(<bool as SpecifierBytes>::storage_bits(), 8);
    assert_eq!(<B<1> as SpecifierBytes>::storage_bits(), 8);
    assert_eq!(<B<8> as SpecifierBytes>::storage_bits(), 8);
    assert_eq!(<B<9> as SpecifierBytes>::storage_bits(), 16);
    assert_eq!(<B<24> as SpecifierBytes>::storage_bits(), 32);
    assert_eq!(<B<33> as SpecifierBytes>::storage_bits(), 64);
    assert_eq!(<B<65> as SpecifierBytes>::storage_bits(), 128);
    assert_eq!(<u16 as SpecifierBytes>::storage_bits(), 16);
    assert_eq!(<u128 as SpecifierBytes>::storage_bits(), 128);
}
