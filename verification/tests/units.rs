//! Unit tests for the field codec, the header builder, and time arithmetic.

use dw1000::addressing::{build_header, header_length};
use dw1000::codec::{decode, encode};
use dw1000::ll::{apply_field_writes, FieldWrite};
use dw1000::time::{Duration, Instant, TIME_MAX};
use dw1000::util::duration_between;

#[test]
fn decode_reads_single_bits() {
    let buf = vec![0b1010_0101u8, 0b0000_0001u8];
    assert_eq!(decode(&buf, 0, 0), 1);
    assert_eq!(decode(&buf, 1, 1), 0);
    assert_eq!(decode(&buf, 2, 2), 1);
    assert_eq!(decode(&buf, 7, 7), 1);
    assert_eq!(decode(&buf, 8, 8), 1);
    assert_eq!(decode(&buf, 9, 9), 0);
}

#[test]
fn decode_reads_byte_spanning_field() {
    // Bits 4..=11 across two bytes, little-endian within the buffer.
    let buf = vec![0x5Fu8, 0xFAu8];
    assert_eq!(decode(&buf, 4, 11), 0xA5);
}

#[test]
fn decode_reads_whole_little_endian_words() {
    let buf = vec![0x78u8, 0x56, 0x34, 0x12];
    assert_eq!(decode(&buf, 0, 31), 0x1234_5678);
    assert_eq!(decode(&buf, 0, 15), 0x5678);
    assert_eq!(decode(&buf, 16, 31), 0x1234);
}

#[test]
fn encode_writes_field_and_preserves_neighbours() {
    let mut buf = vec![0xFFu8, 0xFF];
    encode(&mut buf, 4, 11, 0xA5);
    assert_eq!(buf, vec![0x5F, 0xFA]);
}

#[test]
fn encode_decode_round_trip() {
    let mut buf = vec![0u8; 5];
    encode(&mut buf, 3, 17, 0x5ABC);
    assert_eq!(decode(&buf, 3, 17), 0x5ABC);
    // Bits outside the span stayed zero.
    assert_eq!(decode(&buf, 0, 2), 0);
    assert_eq!(decode(&buf, 18, 39), 0);
}

#[test]
fn encode_decode_round_trip_full_width() {
    let mut buf = vec![0u8; 8];
    encode(&mut buf, 0, 63, 0x0123_4567_89AB_CDEF);
    assert_eq!(buf, vec![0xEF, 0xCD, 0xAB, 0x89, 0x67, 0x45, 0x23, 0x01]);
    assert_eq!(decode(&buf, 0, 63), 0x0123_4567_89AB_CDEF);
}

#[test]
fn encode_clears_stale_bits_inside_span() {
    let mut buf = vec![0xFFu8];
    encode(&mut buf, 2, 5, 0);
    assert_eq!(buf, vec![0b1100_0011]);
    assert_eq!(decode(&buf, 2, 5), 0);
}

#[test]
fn field_writes_merge_into_existing_payload() {
    let mut payload = vec![0xFFu8, 0x00, 0xAA, 0x55];
    let updates = vec![
        FieldWrite { first_bit: 8, last_bit: 15, value: 0x3C },
        FieldWrite { first_bit: 30, last_bit: 31, value: 0b10 },
    ];
    apply_field_writes(&mut payload, &updates);
    assert_eq!(payload, vec![0xFF, 0x3C, 0xAA, 0x95]);
}

#[test]
fn header_length_by_sub_id() {
    assert_eq!(header_length(0), 1);
    assert_eq!(header_length(1), 2);
    assert_eq!(header_length(127), 2);
    assert_eq!(header_length(128), 3);
    assert_eq!(header_length(0x7FFF), 3);
}

#[test]
fn build_header_short_form() {
    assert_eq!(build_header(0x00, 0, false), vec![0x00]);
    assert_eq!(build_header(0x0F, 0, true), vec![0x8F]);
}

#[test]
fn build_header_with_sub_address() {
    assert_eq!(build_header(0x23, 0x04, false), vec![0x63, 0x04]);
    assert_eq!(build_header(0x2D, 0x30, true), vec![0xED, 0x30]);
}

#[test]
fn build_header_with_extended_sub_address() {
    // Sub-id 0x1806: low 7 bits 0x06 with the extended flag, high bits 0x30.
    assert_eq!(build_header(0x2E, 0x1806, false), vec![0x6E, 0x86, 0x30]);
    assert_eq!(build_header(0x2E, 0x1806, true), vec![0xEE, 0x86, 0x30]);
}

#[test]
fn build_header_flags_do_not_corrupt_address() {
    for &(id, sub_id) in &[(0x3Fu8, 0u16), (0x01, 1), (0x2E, 127), (0x11, 128), (0x00, 0x7FFF)] {
        for &is_write in &[false, true] {
            let h = build_header(id, sub_id, is_write);
            assert_eq!(h[0] & 0x3F, id);
            assert_eq!(h[0] & 0x80 != 0, is_write);
            assert_eq!(h[0] & 0x40 != 0, sub_id > 0);
            if sub_id > 0 {
                let mut recovered = (h[1] & 0x7F) as u16;
                if h[1] & 0x80 != 0 {
                    recovered |= (h[2] as u16) << 7;
                }
                assert_eq!(recovered, sub_id);
            }
        }
    }
}

#[test]
fn duration_between_wraps_once() {
    assert_eq!(duration_between(100, 50), TIME_MAX - 100 + 50 + 1);
}

#[test]
fn duration_between_forward() {
    assert_eq!(duration_between(50, 100), 50);
}

#[test]
fn duration_between_same_instant_is_zero() {
    for &x in &[0u64, 1, 100, TIME_MAX - 1, TIME_MAX] {
        assert_eq!(duration_between(x, x), 0);
    }
}

#[test]
fn instant_rejects_values_over_forty_bits() {
    assert!(Instant::new(0).is_some());
    assert!(Instant::new(TIME_MAX).is_some());
    assert!(Instant::new(TIME_MAX + 1).is_none());
    assert_eq!(Instant::new(12345).unwrap().value(), 12345);
}

#[test]
fn duration_rejects_values_over_forty_bits() {
    assert!(Duration::new(TIME_MAX).is_some());
    assert!(Duration::new(TIME_MAX + 1).is_none());
    assert_eq!(Duration::new(7).unwrap().value(), 7);
}
