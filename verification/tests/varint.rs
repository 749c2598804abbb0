use smolv::varint::{decode_varint, encode_varint, write_varint, zigzag_decode, zigzag_encode};
use smolv::ErrorKind;

#[test]
fn small_values_take_one_byte() {
    assert_eq!(encode_varint(0), vec![0x00]);
    assert_eq!(encode_varint(1), vec![0x01]);
    assert_eq!(encode_varint(127), vec![0x7F]);
}

#[test]
fn groups_come_least_significant_first() {
    assert_eq!(encode_varint(128), vec![0x80, 0x01]);
    assert_eq!(encode_varint(300), vec![0xAC, 0x02]);
    assert_eq!(encode_varint(16_383), vec![0xFF, 0x7F]);
    assert_eq!(encode_varint(16_384), vec![0x80, 0x80, 0x01]);
    assert_eq!(encode_varint(0xFFFF_FFFF), vec![0xFF, 0xFF, 0xFF, 0xFF, 0x0F]);
}

#[test]
fn the_largest_value_takes_ten_bytes() {
    assert_eq!(
        encode_varint(u64::MAX),
        vec![0xFF, 0xFF, 0xFF, 0xFF, 0xFF, 0xFF, 0xFF, 0xFF, 0xFF, 0x01]
    );
}

#[test]
fn write_varint_appends() {
    let mut out = vec![9u8, 8];
    write_varint(&mut out, 300);
    write_varint(&mut out, 5);
    assert_eq!(out, vec![9, 8, 0xAC, 0x02, 5]);
}

#[test]
fn decode_gives_value_and_length() {
    assert_eq!(decode_varint(&[0x00]), Ok((0, 1)));
    assert_eq!(decode_varint(&[0x7F, 0xFF]), Ok((127, 1)));
    assert_eq!(decode_varint(&[0xAC, 0x02, 0x55]), Ok((300, 2)));
    assert_eq!(
        decode_varint(&[0xFF, 0xFF, 0xFF, 0xFF, 0xFF, 0xFF, 0xFF, 0xFF, 0xFF, 0x01, 0x33]),
        Ok((u64::MAX, 10))
    );
}

#[test]
fn decode_accepts_padded_values() {
    assert_eq!(decode_varint(&[0x80, 0x00]), Ok((0, 2)));
    assert_eq!(decode_varint(&[0x81, 0x80, 0x00]), Ok((1, 3)));
}

#[test]
fn varint_round_trip_on_many_values() {
    let mut value: u64 = 0;
    let mut step: u64 = 1;
    for _ in 0..2000 {
        let bytes = encode_varint(value);
        assert_eq!(decode_varint(&bytes), Ok((value, bytes.len())));
        value = value.wrapping_add(step);
        step = step.wrapping_mul(3).wrapping_add(1);
    }
    for shift in 0..64 {
        let value = 1u64 << shift;
        for v in [value - 1, value, value + 1] {
            let bytes = encode_varint(v);
            assert_eq!(bytes.len(), if v == 0 { 1 } else { (64 - v.leading_zeros() as usize + 6) / 7 });
            assert_eq!(decode_varint(&bytes), Ok((v, bytes.len())));
        }
    }
}

#[test]
fn decode_of_nothing_is_truncated() {
    assert_eq!(decode_varint(&[]), Err(ErrorKind::Truncated));
}

#[test]
fn decode_without_last_byte_is_truncated() {
    assert_eq!(decode_varint(&[0x80]), Err(ErrorKind::Truncated));
    assert_eq!(decode_varint(&[0xFF, 0xFF, 0xFF]), Err(ErrorKind::Truncated));
    assert_eq!(decode_varint(&[0x80; 9]), Err(ErrorKind::Truncated));
    let whole = encode_varint(u64::MAX);
    for len in 0..whole.len() {
        assert_eq!(decode_varint(&whole[..len]), Err(ErrorKind::Truncated));
    }
}

#[test]
fn decode_of_eleven_groups_is_overflow() {
    assert_eq!(decode_varint(&[0x80; 10]), Err(ErrorKind::Overflow));
    assert_eq!(decode_varint(&[0x80; 11]), Err(ErrorKind::Overflow));
    assert_eq!(
        decode_varint(&[0x80, 0x80, 0x80, 0x80, 0x80, 0x80, 0x80, 0x80, 0x80, 0x80, 0x00]),
        Err(ErrorKind::Overflow)
    );
}

#[test]
fn decode_of_more_than_64_bits_is_overflow() {
    assert_eq!(
        decode_varint(&[0xFF, 0xFF, 0xFF, 0xFF, 0xFF, 0xFF, 0xFF, 0xFF, 0xFF, 0x02]),
        Err(ErrorKind::Overflow)
    );
    assert_eq!(
        decode_varint(&[0x80, 0x80, 0x80, 0x80, 0x80, 0x80, 0x80, 0x80, 0x80, 0x7F]),
        Err(ErrorKind::Overflow)
    );
    assert_eq!(
        decode_varint(&[0x80, 0x80, 0x80, 0x80, 0x80, 0x80, 0x80, 0x80, 0x80, 0x01]),
        Ok((1u64 << 63, 10))
    );
}

#[test]
fn zigzag_interleaves_the_signs() {
    assert_eq!(zigzag_encode(0), 0);
    assert_eq!(zigzag_encode(-1), 1);
    assert_eq!(zigzag_encode(1), 2);
    assert_eq!(zigzag_encode(-2), 3);
    assert_eq!(zigzag_encode(2), 4);
    assert_eq!(zigzag_encode(-64), 127);
    assert_eq!(zigzag_encode(64), 128);
    assert_eq!(zigzag_encode(i64::MAX), u64::MAX - 1);
    assert_eq!(zigzag_encode(i64::MIN), u64::MAX);
}

#[test]
fn zigzag_is_the_shift_formula() {
    for n in [0i64, 1, -1, 5, -5, 1 << 40, -(1 << 40), i64::MAX, i64::MIN] {
        assert_eq!(zigzag_encode(n), ((n << 1) ^ (n >> 63)) as u64);
    }
}

#[test]
fn zigzag_decode_undoes_encode() {
    assert_eq!(zigzag_decode(0), 0);
    assert_eq!(zigzag_decode(1), -1);
    assert_eq!(zigzag_decode(2), 1);
    assert_eq!(zigzag_decode(3), -2);
    assert_eq!(zigzag_decode(u64::MAX), i64::MIN);
    assert_eq!(zigzag_decode(u64::MAX - 1), i64::MAX);
    for n in [0i64, 1, -1, 77, -77, 1 << 33, -(1 << 33), i64::MAX, i64::MIN] {
        assert_eq!(zigzag_decode(zigzag_encode(n)), n);
    }
    for u in [0u64, 1, 2, 3, 1000, 1001, u64::MAX, u64::MAX - 1] {
        assert_eq!(zigzag_encode(zigzag_decode(u)), u);
    }
}
