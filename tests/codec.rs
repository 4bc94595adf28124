use modular_bitfield::array_bytes_conv::{array_into_bytes, bytes_into_array};
use modular_bitfield::layout::BitSpan;
use modular_bitfield::push_pop::{PopBits, PopBuffer, PushBits, PushBuffer};
use modular_bitfield::{read_specifier, write_specifier};

fn bit(bytes: &[u8], i: usize) -> bool {
    (bytes[i / 8] >> (i % 8)) & 1 == 1
}

fn low_mask(width: usize) -> u128 {
    if width == 128 {
        u128::MAX
    } else {
        (1u128 << width) - 1
    }
}

#[test]
fn edge_case_scenario_golden_bytes() {
    let mut bytes = [0u8; 4];
    let (a, b, c, d) = (0b1_1000_0111u128, 0b10_1010u128, 0x1675u128, 0b1110u128);
    write_specifier(&mut bytes, 0, 9, a);
    write_specifier(&mut bytes, 9, 6, b);
    write_specifier(&mut bytes, 15, 13, c);
    write_specifier(&mut bytes, 28, 4, d);
    assert_eq!(read_specifier(&bytes, 0, 9), a);
    assert_eq!(read_specifier(&bytes, 9, 6), b);
    assert_eq!(read_specifier(&bytes, 15, 13), c);
    assert_eq!(read_specifier(&bytes, 28, 4), d);
    assert_eq!(bytes, [0x87, 0xD5, 0x3A, 0xEB]);
}

#[test]
fn round_trip_every_width_and_offset() {
    for width in 1..=128usize {
        for offset in [0usize, 1, 3, 7, 8, 9, 15, 16, 31] {
            let value = 0xA5C3_9E17_6B2D_F048_1357_9BDF_2468_ACE1u128 & low_mask(width);
            let mut bytes = [0x5Au8; 24];
            write_specifier(&mut bytes, offset, width, value);
            assert_eq!(read_specifier(&bytes, offset, width), value);
        }
    }
}

#[test]
fn boundary_exhaustiveness_four_bytes() {
    for width in 1..=16usize {
        for offset in 0..=(32 - width) {
            for value in [0u128, 1, low_mask(width), low_mask(width) / 3, 0b1010_0101_1100 & low_mask(width)] {
                for fill in [0x00u8, 0xFF, 0xA5] {
                    let mut bytes = [fill; 4];
                    write_specifier(&mut bytes, offset, width, value);
                    assert_eq!(read_specifier(&bytes, offset, width), value);
                }
            }
        }
    }
}

#[test]
fn non_interference_keeps_other_bits() {
    for width in 1..=20usize {
        for offset in 0..=(40 - width) {
            for fill in [0x00u8, 0xFF, 0x96] {
                let before = [fill; 5];
                let mut after = before;
                let value = 0x5_5555u128 & low_mask(width);
                write_specifier(&mut after, offset, width, value);
                for i in 0..40 {
                    if i < offset || i >= offset + width {
                        assert_eq!(bit(&after, i), bit(&before, i));
                    } else {
                        assert_eq!(bit(&after, i), (value >> (i - offset)) & 1 == 1);
                    }
                }
            }
        }
    }
}

#[test]
fn single_byte_inner_field_keeps_both_sides() {
    let mut bytes = [0xFFu8];
    write_specifier(&mut bytes, 2, 3, 0);
    assert_eq!(bytes, [0b1110_0011]);
    let mut bytes = [0x00u8];
    write_specifier(&mut bytes, 2, 3, 0b101);
    assert_eq!(bytes, [0b0001_0100]);
    assert_eq!(read_specifier(&[0b1110_1011u8], 2, 3), 0b010);
}

#[test]
fn aligned_fields_match_byte_copy() {
    let bytes = [0x11u8, 0x22, 0x33, 0x44, 0x55, 0x66];
    assert_eq!(read_specifier(&bytes, 8, 32), u32::from_le_bytes([0x22, 0x33, 0x44, 0x55]) as u128);
    assert_eq!(read_specifier(&bytes, 0, 8), 0x11);
    let mut out = bytes;
    write_specifier(&mut out, 16, 24, 0xABCDEF);
    assert_eq!(out, [0x11, 0x22, 0xEF, 0xCD, 0xAB, 0x66]);
    let mut wide = [0u8; 16];
    write_specifier(&mut wide, 0, 128, u128::MAX - 1);
    assert_eq!(wide, (u128::MAX - 1).to_le_bytes());
    assert_eq!(read_specifier(&wide, 0, 128), u128::MAX - 1);
}

#[test]
fn write_drops_bits_above_width() {
    let mut bytes = [0u8; 2];
    write_specifier(&mut bytes, 3, 5, 0xFF);
    assert_eq!(bytes, [0b1111_1000, 0]);
}

#[test]
fn bit_span_shapes() {
    let s = BitSpan::new(9, 6);
    assert_eq!((s.first_byte, s.last_byte, s.lsb_shift, s.msb_width), (1, 1, 1, 7));
    assert!(s.is_single_byte());
    assert!(!s.is_byte_aligned());
    let s = BitSpan::new(15, 13);
    assert_eq!((s.first_byte, s.last_byte, s.lsb_shift, s.msb_width), (1, 3, 7, 4));
    let s = BitSpan::new(8, 16);
    assert_eq!((s.first_byte, s.last_byte, s.lsb_shift, s.msb_width), (1, 2, 0, 8));
    assert!(s.is_byte_aligned());
    assert!(!s.is_single_byte());
}

#[test]
fn push_and_pop_buffers() {
    let mut push = PushBuffer::default();
    push.push_bits(3, 0b1111_1101);
    push.push_bits(8, 0xAB);
    assert_eq!(push.into_bytes(), 0b101_1010_1011);
    let mut pop = PopBuffer::from_bytes(0b101_1010_1011);
    assert_eq!(pop.pop_bits(8), 0xAB);
    assert_eq!(pop.pop_bits(2), 0b01);
    assert_eq!(pop.pop_bits(8), 0b1);
}

#[test]
fn little_endian_conversions() {
    assert_eq!(bytes_into_array(0x0102_0304, 3), vec![0x04, 0x03, 0x02]);
    assert_eq!(bytes_into_array(7, 0), Vec::<u8>::new());
    assert_eq!(array_into_bytes(&[0x04, 0x03, 0x02]), 0x0002_0304);
    assert_eq!(array_into_bytes(&[0xFF; 16]), u128::MAX);
}
