use blt_utils::{
    deserialize_i128, deserialize_i16, deserialize_i32, deserialize_i64, deserialize_i8,
    deserialize_isize, deserialize_u128, deserialize_u16, deserialize_u32, deserialize_u64,
    deserialize_u8, deserialize_usize, serialize_i128, serialize_i16, serialize_i32, serialize_i64,
    serialize_i8, serialize_isize, serialize_u128, serialize_u16, serialize_u32, serialize_u64,
    serialize_u8, serialize_usize, DeserializationError,
};

#[test]
fn round_trip_u8() {
    for value in [0u8, 1, 0x7f, u8::MAX] {
        let mut buffer = Vec::new();
        serialize_u8(value, &mut buffer);
        assert_eq!(buffer.len(), 1);
        assert_eq!(deserialize_u8(&mut buffer), Ok(value));
        assert!(buffer.is_empty());
    }
}

#[test]
fn round_trip_u16() {
    for value in [0u16, 1, 0x1234, u16::MAX] {
        let mut buffer = Vec::new();
        serialize_u16(value, &mut buffer);
        assert_eq!(buffer.len(), 2);
        assert_eq!(deserialize_u16(&mut buffer), Ok(value));
        assert!(buffer.is_empty());
    }
}

#[test]
fn round_trip_u32() {
    for value in [0u32, 1, 0xdead_beef, u32::MAX] {
        let mut buffer = Vec::new();
        serialize_u32(value, &mut buffer);
        assert_eq!(buffer.len(), 4);
        assert_eq!(deserialize_u32(&mut buffer), Ok(value));
        assert!(buffer.is_empty());
    }
}

#[test]
fn round_trip_u64() {
    for value in [0u64, 1, 0x0123_4567_89ab_cdef, u64::MAX] {
        let mut buffer = Vec::new();
        serialize_u64(value, &mut buffer);
        assert_eq!(buffer.len(), 8);
        assert_eq!(deserialize_u64(&mut buffer), Ok(value));
        assert!(buffer.is_empty());
    }
}

#[test]
fn round_trip_u128() {
    for value in [0u128, 1, u64::MAX as u128 + 1, u128::MAX] {
        let mut buffer = Vec::new();
        serialize_u128(value, &mut buffer);
        assert_eq!(buffer.len(), 16);
        assert_eq!(deserialize_u128(&mut buffer), Ok(value));
        assert!(buffer.is_empty());
    }
}

#[test]
fn round_trip_usize() {
    for value in [0usize, 1, 33, usize::MAX] {
        let mut buffer = Vec::new();
        serialize_usize(value, &mut buffer);
        assert_eq!(buffer.len(), 8);
        assert_eq!(deserialize_usize(&mut buffer), Ok(value));
        assert!(buffer.is_empty());
    }
}

#[test]
fn round_trip_i8() {
    for value in [i8::MIN, -1, 0, 1, i8::MAX] {
        let mut buffer = Vec::new();
        serialize_i8(value, &mut buffer);
        assert_eq!(buffer.len(), 1);
        assert_eq!(deserialize_i8(&mut buffer), Ok(value));
        assert!(buffer.is_empty());
    }
}

#[test]
fn round_trip_i16() {
    for value in [i16::MIN, -1, 0, 1, i16::MAX] {
        let mut buffer = Vec::new();
        serialize_i16(value, &mut buffer);
        assert_eq!(buffer.len(), 2);
        assert_eq!(deserialize_i16(&mut buffer), Ok(value));
        assert!(buffer.is_empty());
    }
}

#[test]
fn round_trip_i32() {
    for value in [i32::MIN, -1, 0, 1, i32::MAX] {
        let mut buffer = Vec::new();
        serialize_i32(value, &mut buffer);
        assert_eq!(buffer.len(), 4);
        assert_eq!(deserialize_i32(&mut buffer), Ok(value));
        assert!(buffer.is_empty());
    }
}

#[test]
fn round_trip_i64() {
    for value in [i64::MIN, -1, 0, 1, i64::MAX] {
        let mut buffer = Vec::new();
        serialize_i64(value, &mut buffer);
        assert_eq!(buffer.len(), 8);
        assert_eq!(deserialize_i64(&mut buffer), Ok(value));
        assert!(buffer.is_empty());
    }
}

#[test]
fn round_trip_i128() {
    for value in [i128::MIN, -1, 0, 1, i128::MAX] {
        let mut buffer = Vec::new();
        serialize_i128(value, &mut buffer);
        assert_eq!(buffer.len(), 16);
        assert_eq!(deserialize_i128(&mut buffer), Ok(value));
        assert!(buffer.is_empty());
    }
}

#[test]
fn round_trip_isize() {
    for value in [isize::MIN, -1, 0, 1, isize::MAX] {
        let mut buffer = Vec::new();
        serialize_isize(value, &mut buffer);
        assert_eq!(buffer.len(), 8);
        assert_eq!(deserialize_isize(&mut buffer), Ok(value));
        assert!(buffer.is_empty());
    }
}

#[test]
fn round_trip_float_bit_patterns() {
    for value in [0.0f32, -0.0, 1.5, f32::INFINITY, f32::NEG_INFINITY, f32::NAN] {
        let mut buffer = Vec::new();
        serialize_u32(value.to_bits(), &mut buffer);
        let bits = deserialize_u32(&mut buffer).unwrap();
        assert_eq!(bits, value.to_bits());
        assert!(buffer.is_empty());
    }
    for value in [0.0f64, -0.0, 2.25, f64::INFINITY, f64::NEG_INFINITY, f64::NAN] {
        let mut buffer = Vec::new();
        serialize_u64(value.to_bits(), &mut buffer);
        let bits = deserialize_u64(&mut buffer).unwrap();
        assert_eq!(bits, value.to_bits());
        assert!(buffer.is_empty());
    }
}

#[test]
fn little_endian_layout() {
    let mut buffer = Vec::new();
    serialize_u32(0x0403_0201, &mut buffer);
    assert_eq!(buffer, [1, 2, 3, 4]);
    let mut buffer = Vec::new();
    serialize_u16(0x0102, &mut buffer);
    assert_eq!(buffer, [2, 1]);
    let mut buffer = Vec::new();
    serialize_i8(-1, &mut buffer);
    assert_eq!(buffer, [0xff]);
    let mut buffer = Vec::new();
    serialize_i32(-2, &mut buffer);
    assert_eq!(buffer, [0xfe, 0xff, 0xff, 0xff]);
}

#[test]
fn truncation_fails_and_leaves_buffer_unchanged() {
    let mut buffer = vec![1u8, 2, 3];
    let snapshot = buffer.clone();
    assert_eq!(
        deserialize_u32(&mut buffer),
        Err(DeserializationError::UnexpectedByteCount(4, 3))
    );
    assert_eq!(buffer, snapshot);

    let mut buffer: Vec<u8> = Vec::new();
    assert_eq!(
        deserialize_u8(&mut buffer),
        Err(DeserializationError::UnexpectedByteCount(1, 0))
    );
    assert!(buffer.is_empty());

    let mut buffer = vec![9u8; 7];
    let snapshot = buffer.clone();
    assert_eq!(
        deserialize_u64(&mut buffer),
        Err(DeserializationError::UnexpectedByteCount(8, 7))
    );
    assert_eq!(buffer, snapshot);

    let mut buffer = vec![9u8; 15];
    let snapshot = buffer.clone();
    assert_eq!(
        deserialize_i128(&mut buffer),
        Err(DeserializationError::UnexpectedByteCount(16, 15))
    );
    assert_eq!(buffer, snapshot);

    let mut buffer = vec![9u8; 5];
    let snapshot = buffer.clone();
    assert_eq!(
        deserialize_isize(&mut buffer),
        Err(DeserializationError::UnexpectedByteCount(8, 5))
    );
    assert_eq!(buffer, snapshot);
}

#[test]
fn sequential_decodes_leave_later_bytes_untouched() {
    let mut buffer = Vec::new();
    serialize_u16(0xabcd, &mut buffer);
    serialize_u32(7, &mut buffer);
    serialize_u8(42, &mut buffer);
    assert_eq!(deserialize_u16(&mut buffer), Ok(0xabcd));
    assert_eq!(buffer.len(), 5);
    assert_eq!(deserialize_u32(&mut buffer), Ok(7));
    assert_eq!(buffer, [42]);
    assert_eq!(deserialize_u8(&mut buffer), Ok(42));
    assert!(buffer.is_empty());
}

#[test]
fn mixed_record_round_trip() {
    let mut buffer = Vec::new();
    serialize_i64(-123_456_789, &mut buffer);
    serialize_u128(1 << 100, &mut buffer);
    serialize_isize(-33, &mut buffer);
    serialize_usize(99, &mut buffer);
    assert_eq!(deserialize_i64(&mut buffer), Ok(-123_456_789));
    assert_eq!(deserialize_u128(&mut buffer), Ok(1 << 100));
    assert_eq!(deserialize_isize(&mut buffer), Ok(-33));
    assert_eq!(deserialize_usize(&mut buffer), Ok(99));
    assert!(buffer.is_empty());
}
