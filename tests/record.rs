use modular_bitfield::record::{next_divisible_by_8, unused_bits_clear};

#[test]
fn record_sizes_round_up_to_whole_bytes() {
    assert_eq!(next_divisible_by_8(1), 8);
    assert_eq!(next_divisible_by_8(7), 8);
    assert_eq!(next_divisible_by_8(8), 8);
    assert_eq!(next_divisible_by_8(9), 16);
    assert_eq!(next_divisible_by_8(32), 32);
    assert_eq!(next_divisible_by_8(33), 40);
}

#[test]
fn unfilled_record_rejects_bits_past_its_fields() {
    // a record of 7 bits in one byte
    assert!(unused_bits_clear(&[0b0111_1111], 7));
    assert!(!unused_bits_clear(&[0b1000_0000], 7));
    // a record of 11 bits in two bytes
    assert!(unused_bits_clear(&[0xFF, 0b0000_0111], 11));
    assert!(!unused_bits_clear(&[0xFF, 0b0000_1111], 11));
    // bits beyond whole trailing bytes
    assert!(unused_bits_clear(&[0xFF, 0, 0], 8));
    assert!(!unused_bits_clear(&[0xFF, 0, 0x80], 8));
    assert!(unused_bits_clear(&[0xAB, 0xCD], 16));
    assert!(unused_bits_clear(&[], 0));
    assert!(!unused_bits_clear(&[0x01], 0));
}
