use blt_utils::{
    deserialize_string, deserialize_vec, serialize_string, serialize_vec, DeserializationError,
};

#[test]
fn hello_world_layout_and_round_trip() {
    let mut buffer = Vec::new();
    serialize_string("Hello World!", &mut buffer);
    assert_eq!(
        buffer,
        [12, 0, 0, 0, 0, 0, 0, 0, 72, 101, 108, 108, 111, 32, 87, 111, 114, 108, 100, 33]
    );
    assert_eq!(buffer.len(), 20);
    assert_eq!(deserialize_string(&mut buffer), Ok(String::from("Hello World!")));
    assert!(buffer.is_empty());
}

#[test]
fn empty_string_round_trip() {
    let mut buffer = Vec::new();
    serialize_string("", &mut buffer);
    assert_eq!(buffer, [0, 0, 0, 0, 0, 0, 0, 0]);
    assert_eq!(deserialize_string(&mut buffer), Ok(String::new()));
    assert!(buffer.is_empty());
}

#[test]
fn multi_byte_string_round_trip() {
    let text = "héllo ☃ 𝄞";
    let mut buffer = Vec::new();
    serialize_string(text, &mut buffer);
    assert_eq!(buffer.len(), 8 + text.len());
    assert_eq!(deserialize_string(&mut buffer), Ok(String::from(text)));
    assert!(buffer.is_empty());
}

#[test]
fn string_decode_leaves_later_bytes_untouched() {
    let mut buffer = Vec::new();
    serialize_string("first", &mut buffer);
    serialize_string("second", &mut buffer);
    assert_eq!(deserialize_string(&mut buffer), Ok(String::from("first")));
    let mut expected = Vec::new();
    serialize_string("second", &mut expected);
    assert_eq!(buffer, expected);
    assert_eq!(deserialize_string(&mut buffer), Ok(String::from("second")));
    assert!(buffer.is_empty());
}

#[test]
fn string_prefix_truncation_leaves_buffer_unchanged() {
    let mut buffer = vec![1u8, 2, 3];
    let snapshot = buffer.clone();
    assert_eq!(
        deserialize_string(&mut buffer),
        Err(DeserializationError::UnexpectedByteCount(8, 3))
    );
    assert_eq!(buffer, snapshot);
}

#[test]
fn string_declared_length_exceeding_buffer_fails() {
    let mut buffer = vec![5u8, 0, 0, 0, 0, 0, 0, 0, 10, 20];
    assert_eq!(
        deserialize_string(&mut buffer),
        Err(DeserializationError::UnexpectedByteCount(5, 2))
    );
    // The length prefix is consumed and not restored; the two payload
    // bytes that were present remain.
    assert_eq!(buffer, [10, 20]);
}

#[test]
fn invalid_utf8_fails_with_invalid_string() {
    let mut buffer = vec![2u8, 0, 0, 0, 0, 0, 0, 0, 0xff, 0xfe, 7];
    assert_eq!(
        deserialize_string(&mut buffer),
        Err(DeserializationError::InvalidString)
    );
    // The declared payload is consumed even though decoding failed.
    assert_eq!(buffer, [7]);
}

#[test]
fn hello_world_sequence_layout() {
    let values = vec![String::from("Hello"), String::from("World")];
    let mut buffer = Vec::new();
    serialize_vec(&values, &mut buffer);
    assert_eq!(
        buffer,
        [
            2, 0, 0, 0, 0, 0, 0, 0, 5, 0, 0, 0, 0, 0, 0, 0, 72, 101, 108, 108, 111, 5, 0, 0, 0,
            0, 0, 0, 0, 87, 111, 114, 108, 100
        ]
    );
    assert_eq!(buffer.len(), 34);
    assert_eq!(deserialize_vec(&mut buffer), Ok(values));
    assert!(buffer.is_empty());
}

#[test]
fn empty_sequence_round_trip() {
    let values: Vec<String> = Vec::new();
    let mut buffer = Vec::new();
    serialize_vec(&values, &mut buffer);
    assert_eq!(buffer, [0, 0, 0, 0, 0, 0, 0, 0]);
    assert_eq!(deserialize_vec(&mut buffer), Ok(values));
    assert!(buffer.is_empty());
}

#[test]
fn sequence_round_trip_with_empty_and_multi_byte_elements() {
    let values = vec![String::from(""), String::from("αβγ"), String::from("x")];
    let mut buffer = Vec::new();
    serialize_vec(&values, &mut buffer);
    assert_eq!(deserialize_vec(&mut buffer), Ok(values));
    assert!(buffer.is_empty());
}

#[test]
fn sequence_count_truncation_leaves_buffer_unchanged() {
    let mut buffer = vec![1u8, 2];
    let snapshot = buffer.clone();
    assert_eq!(
        deserialize_vec(&mut buffer),
        Err(DeserializationError::UnexpectedByteCount(8, 2))
    );
    assert_eq!(buffer, snapshot);
}

#[test]
fn sequence_with_too_many_declared_elements_fails() {
    // Two elements declared, only one present: the second read finds no
    // length prefix at all.
    let mut buffer = Vec::new();
    let values = vec![String::from("only")];
    serialize_vec(&values, &mut buffer);
    buffer[0] = 2;
    assert_eq!(
        deserialize_vec(&mut buffer),
        Err(DeserializationError::UnexpectedByteCount(8, 0))
    );
    assert!(buffer.is_empty());
}

#[test]
fn sequence_partial_failure_state_is_exact() {
    // Two elements declared; the first decodes, the second's prefix
    // declares nine bytes while three remain. The error carries the
    // declared and the available counts, the first element and the
    // second's prefix are consumed, and the three stray bytes remain.
    let mut buffer = Vec::new();
    serialize_vec(&vec![String::from("Hello"), String::from("ok")], &mut buffer);
    let mut tampered: Vec<u8> = buffer[..buffer.len() - 10].to_vec();
    tampered.extend_from_slice(&[9, 0, 0, 0, 0, 0, 0, 0, 30, 31, 32]);
    assert_eq!(
        deserialize_vec(&mut tampered),
        Err(DeserializationError::UnexpectedByteCount(9, 3))
    );
    assert_eq!(tampered, [30, 31, 32]);
}

#[test]
fn sequence_invalid_utf8_element_fails() {
    let mut buffer = vec![1u8, 0, 0, 0, 0, 0, 0, 0, 1, 0, 0, 0, 0, 0, 0, 0, 0x80];
    assert_eq!(
        deserialize_vec(&mut buffer),
        Err(DeserializationError::InvalidString)
    );
    assert!(buffer.is_empty());
}
