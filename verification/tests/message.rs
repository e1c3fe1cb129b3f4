use phorcys::data::{TimeTag, Value};
use phorcys::error::Error;
use phorcys::packet::message::{Message, MessageBuilder};

/// Ensures that `Message::deserialize()` processes valid bytes.
/// The packet has only address.
#[test]
fn message_test_deserializer_simple() {
    let bytes = vec![
        b'/', b'p', b'a', b't', // Address
        b'h', 0x00, 0x00, 0x00, // Address
        b',', 0x00, 0x00, 0x00, // Tag
    ];

    let packet = Message::deserialize(&bytes).expect("Deserialize failed");
    let (address, arguments) = packet.split_into();
    assert_eq!(address, "/path");
    assert_eq!(arguments, &[]);
}

/// Ensures that `Message::deserialize()` rejects invalid address.
/// The packet has only address.
#[test]
fn message_test_deserializer_error_address() {
    let bytes = vec![
        b'X', b'p', b'a', b't', // Address
        b'h', 0x00, 0x00, 0x00, // Address
        b',', 0x00, 0x00, 0x00, // Tag
    ];

    let packet = Message::deserialize(&bytes);
    assert_eq!(packet, Err(Error::InvalidAddress));
}

/// Ensures that `Message::deserialize()` rejects invalid tag.
/// The packet has only address.
#[test]
fn message_test_deserializer_error_tag() {
    let bytes = vec![
        b'/', b'p', b'a', b't', // Address
        b'h', 0x00, 0x00, 0x00, // Address
        b'/', 0x00, 0x00, 0x00, // Tag
    ];

    let packet = Message::deserialize(&bytes);
    assert_eq!(packet, Err(Error::InvalidTag));
}

/// Ensures that `Message::serialize()` processes valid packet.
/// The packet has only address.
#[test]
fn message_test_serializer_simple() {
    let packet = MessageBuilder::new("/path/to")
        .expect("Should valid")
        .build();
    let packet_bytes = packet.serialize().expect("Should encode");

    assert_eq!(
        &packet_bytes[..],
        &[
            b'/', b'p', b'a', b't', // Address
            b'h', b'/', b't', b'o', // Address
            0x00, 0x00, 0x00, 0x00, // Address
            b',', 0x00, 0x00, 0x00, // Tag
        ]
    );
}

/// Ensures that `Message::serialize()` processes valid packet.
#[test]
fn test_serializer_params1() {
    let packet = MessageBuilder::new("/path/to")
        .expect("Should valid")
        .push_argument(Value::Boolean(true))
        .push_argument(Value::Boolean(false))
        .build();
    let packet_bytes = packet.serialize().expect("Should encode");

    assert_eq!(
        &packet_bytes[..],
        &[
            b'/', b'p', b'a', b't', // Address
            b'h', b'/', b't', b'o', // Address
            0x00, 0x00, 0x00, 0x00, // Address
            b',', b'T', b'F', 0x00, // Tag
        ]
    );
}

#[test]
fn an_empty_message_is_its_address_and_a_comma() {
    let message = MessageBuilder::new("/path").expect("valid").build();
    let bytes = message.serialize().expect("encodable");
    assert_eq!(
        bytes,
        vec![0x2F, 0x70, 0x61, 0x74, 0x68, 0x00, 0x00, 0x00, 0x2C, 0x00, 0x00, 0x00]
    );
    let decoded = Message::deserialize(&bytes).expect("decodes");
    assert_eq!(decoded.address().as_str(), "/path");
    assert!(decoded.arguments().is_empty());
}

#[test]
fn a_message_with_every_kind_of_argument_is_encoded_byte_for_byte() {
    let message = MessageBuilder::new("/a")
        .expect("valid")
        .push_argument(Value::Int32(1))
        .push_argument(Value::String("hi".into()))
        .push_argument(Value::Blob(vec![0xAA, 0xBB]))
        .push_argument(Value::Array(vec![Value::Boolean(true), Value::Float32(0x3F80_0000)]))
        .build();
    let bytes = message.serialize().expect("encodable");
    assert_eq!(
        bytes,
        vec![
            b'/', b'a', 0, 0, // address
            b',', b'i', b's', b'b', b'[', b'T', b'f', b']', 0, 0, 0, 0, // type tags
            0, 0, 0, 1, // Int32
            b'h', b'i', 0, 0, // String
            0, 0, 0, 2, 0xAA, 0xBB, 0, 0, // Blob
            0x3F, 0x80, 0, 0, // Float32
        ]
    );
}

fn sample_arguments() -> Vec<Value> {
    vec![
        Value::Nil,
        Value::Infinitum,
        Value::Boolean(true),
        Value::Boolean(false),
        Value::Character('x'),
        Value::Int32(-7),
        Value::Int64(i64::MIN),
        Value::Float32(f32::NAN.to_bits()),
        Value::Float64(1.5f64.to_bits()),
        Value::Color([1, 2, 3, 4]),
        Value::MidiMessage([0, 0x90, 0x3C, 0x7F]),
        Value::TimeTag(TimeTag(1)),
        Value::String("hello, world".into()),
        Value::String("\u{30bb}\u{30d5}\u{30a3}\u{30e9}".into()),
        Value::Alternative("alt".into()),
        Value::Blob(vec![]),
        Value::Blob(vec![1, 2, 3, 4, 5, 6, 7]),
        Value::Array(vec![]),
        Value::Array(vec![
            Value::Int32(3),
            Value::Array(vec![Value::String("deep".into()), Value::Array(vec![Value::Nil])]),
            Value::Blob(vec![9]),
        ]),
    ]
}

#[test]
fn a_message_comes_back_from_its_bytes() {
    let message = MessageBuilder::new("/avatar/parameters/Viseme")
        .expect("valid")
        .set_arguments(sample_arguments())
        .build();
    let bytes = message.clone().serialize().expect("encodable");
    assert_eq!(bytes.len() % 4, 0);
    assert_eq!(Message::deserialize(&bytes), Ok(message));
}

#[test]
fn encoding_leaves_the_message_and_matches_serialize() {
    let message = MessageBuilder::new("/m")
        .expect("valid")
        .set_arguments(sample_arguments())
        .build();
    let encoded = message.encode().expect("encodable");
    assert_eq!(message.serialize(), Ok(encoded));
}

#[test]
fn payload_bytes_after_the_last_argument_are_ignored() {
    let message = MessageBuilder::new("/path")
        .expect("valid")
        .push_argument(Value::Int32(5))
        .build();
    let mut bytes = message.clone().serialize().expect("encodable");
    bytes.extend_from_slice(&[0, 0, 0, 0, 0, 0, 0, 0]);
    let decoded = Message::deserialize(&bytes).expect("decodes");
    assert_eq!(decoded, message);
    let again = decoded.serialize().expect("encodable");
    assert_eq!(again[..], bytes[..bytes.len() - 8]);
}

#[test]
fn split_into_hands_out_the_parts() {
    let message = MessageBuilder::new("/x/y")
        .expect("valid")
        .push_argument(Value::Int32(1))
        .push_argument(Value::Nil)
        .build();
    assert_eq!(message.address().as_str(), "/x/y");
    assert_eq!(message.arguments(), &[Value::Int32(1), Value::Nil]);
    let (address, arguments) = message.split_into();
    assert_eq!(address, "/x/y");
    assert_eq!(arguments, vec![Value::Int32(1), Value::Nil]);
}

#[test]
fn set_arguments_replaces_what_was_pushed() {
    let message = MessageBuilder::new("/x")
        .expect("valid")
        .push_argument(Value::Int32(1))
        .set_arguments(vec![Value::Boolean(true)])
        .push_argument(Value::Nil)
        .build();
    assert_eq!(message.arguments(), &[Value::Boolean(true), Value::Nil]);
}

#[test]
fn the_builder_refuses_an_invalid_address() {
    assert!(matches!(MessageBuilder::new("path"), Err(Error::InvalidAddress)));
    assert!(matches!(MessageBuilder::new("/a b"), Err(Error::InvalidAddress)));
    assert!(matches!(MessageBuilder::new(""), Err(Error::InvalidAddress)));
}

#[test]
fn a_message_that_is_not_encodable_is_refused() {
    let message = MessageBuilder::new("/x")
        .expect("valid")
        .push_argument(Value::Int32(1))
        .push_argument(Value::Character('\u{100}'))
        .build();
    assert_eq!(message.serialize(), Err(Error::Overflow));
}

#[test]
fn a_length_that_is_no_multiple_of_four_is_unaligned() {
    assert_eq!(Message::deserialize(&[b'/', b'a', 0, 0, b',']), Err(Error::UnalignedData));
    assert_eq!(Message::deserialize(&[0]), Err(Error::UnalignedData));
}

#[test]
fn an_address_without_its_nul_is_not_terminated() {
    assert_eq!(Message::deserialize(&[]), Err(Error::NotTerminated));
    assert_eq!(Message::deserialize(&[b'/', b'a', b'b', b'c']), Err(Error::NotTerminated));
}

#[test]
fn an_empty_or_invalid_address_is_refused() {
    assert_eq!(Message::deserialize(&[0, 0, 0, 0, b',', 0, 0, 0]), Err(Error::InvalidAddress));
    assert_eq!(
        Message::deserialize(&[b'/', b'a', b'*', 0, b',', 0, 0, 0]),
        Err(Error::InvalidAddress)
    );
    assert_eq!(
        Message::deserialize(&[b'/', 0xC3, 0xA9, 0, b',', 0, 0, 0]),
        Err(Error::InvalidAddress)
    );
    assert_eq!(
        Message::deserialize(&[b'/', 0xFF, 0xFE, 0, b',', 0, 0, 0]),
        Err(Error::InvalidAddress)
    );
}

#[test]
fn a_missing_or_malformed_tag_section_is_refused() {
    // No bytes after the address: no terminator can be found.
    assert_eq!(Message::deserialize(&[b'/', b'a', 0, 0]), Err(Error::NotTerminated));
    // The tag section runs to the end without a NUL.
    assert_eq!(
        Message::deserialize(&[b'/', b'a', 0, 0, b',', b'i', b'i', b'i']),
        Err(Error::NotTerminated)
    );
    // The tag section is empty.
    assert_eq!(Message::deserialize(&[b'/', b'a', 0, 0, 0, 0, 0, 0]), Err(Error::InvalidTag));
    // The tag section does not start with a comma.
    assert_eq!(
        Message::deserialize(&[b'/', b'a', 0, 0, b'i', 0, 0, 0]),
        Err(Error::InvalidTag)
    );
    // The tag section is not ASCII.
    assert_eq!(
        Message::deserialize(&[b'/', b'a', 0, 0, b',', 0xC3, 0xA9, 0]),
        Err(Error::InvalidTag)
    );
}

fn with_tags(tags: &[u8], payload: &[u8]) -> Vec<u8> {
    let mut bytes = vec![b'/', b'a', 0, 0, b','];
    bytes.extend_from_slice(tags);
    bytes.push(0);
    while bytes.len() % 4 != 0 {
        bytes.push(0);
    }
    bytes.extend_from_slice(payload);
    bytes
}

#[test]
fn an_unknown_type_tag_is_named_in_the_error() {
    assert_eq!(Message::deserialize(&with_tags(b"x", &[])), Err(Error::UnknownType(b'x')));
    assert_eq!(
        Message::deserialize(&with_tags(b"iZ", &[0, 0, 0, 1])),
        Err(Error::UnknownType(b'Z'))
    );
}

#[test]
fn brackets_that_do_not_match_are_illegal() {
    assert_eq!(Message::deserialize(&with_tags(b"]", &[])), Err(Error::IllegalStructure));
    assert_eq!(Message::deserialize(&with_tags(b"[", &[])), Err(Error::IllegalStructure));
    assert_eq!(Message::deserialize(&with_tags(b"[T[F]", &[])), Err(Error::IllegalStructure));
    assert_eq!(Message::deserialize(&with_tags(b"[T]]", &[])), Err(Error::IllegalStructure));
}

#[test]
fn a_payload_that_is_too_short_lacks_data() {
    assert_eq!(Message::deserialize(&with_tags(b"i", &[])), Err(Error::NotEnoughData));
    assert_eq!(Message::deserialize(&with_tags(b"c", &[])), Err(Error::NotEnoughData));
    assert_eq!(Message::deserialize(&with_tags(b"f", &[])), Err(Error::NotEnoughData));
    assert_eq!(Message::deserialize(&with_tags(b"r", &[])), Err(Error::NotEnoughData));
    assert_eq!(Message::deserialize(&with_tags(b"m", &[])), Err(Error::NotEnoughData));
    assert_eq!(Message::deserialize(&with_tags(b"h", &[0, 0, 0, 0])), Err(Error::NotEnoughData));
    assert_eq!(Message::deserialize(&with_tags(b"d", &[0, 0, 0, 0])), Err(Error::NotEnoughData));
    assert_eq!(Message::deserialize(&with_tags(b"t", &[0, 0, 0, 0])), Err(Error::NotEnoughData));
    assert_eq!(Message::deserialize(&with_tags(b"s", &[])), Err(Error::NotEnoughData));
    assert_eq!(Message::deserialize(&with_tags(b"S", &[])), Err(Error::NotEnoughData));
    assert_eq!(Message::deserialize(&with_tags(b"b", &[])), Err(Error::NotEnoughData));
    assert_eq!(Message::deserialize(&with_tags(b"ii", &[0, 0, 0, 1])), Err(Error::NotEnoughData));
}

#[test]
fn a_string_without_its_nul_is_not_terminated() {
    assert_eq!(
        Message::deserialize(&with_tags(b"s", &[b'a', b'b', b'c', b'd'])),
        Err(Error::NotTerminated)
    );
}

#[test]
fn a_string_that_is_not_utf8_is_refused() {
    assert_eq!(
        Message::deserialize(&with_tags(b"s", &[0xFF, 0xFE, 0, 0])),
        Err(Error::InvalidAddress)
    );
    assert_eq!(
        Message::deserialize(&with_tags(b"S", &[0xC3, 0, 0, 0])),
        Err(Error::InvalidAddress)
    );
}

#[test]
fn a_string_in_utf8_is_decoded() {
    let decoded =
        Message::deserialize(&with_tags(b"s", &[0xC3, 0xA9, b'!', 0])).expect("decodes");
    assert_eq!(decoded.arguments(), &[Value::String("\u{e9}!".into())]);
}

#[test]
fn a_blob_longer_than_what_is_left_lacks_data() {
    assert_eq!(
        Message::deserialize(&with_tags(b"b", &[0, 0, 0, 5, 1, 2, 3, 4])),
        Err(Error::NotEnoughData)
    );
    // Five bytes of data are there, their padding is not.
    assert_eq!(
        Message::deserialize(&with_tags(b"b", &[0, 0, 0, 1])),
        Err(Error::NotEnoughData)
    );
    // A negative length.
    assert_eq!(
        Message::deserialize(&with_tags(b"b", &[0xFF, 0xFF, 0xFF, 0xFF, 0, 0, 0, 0])),
        Err(Error::NotEnoughData)
    );
    assert_eq!(
        Message::deserialize(&with_tags(b"b", &[0x80, 0, 0, 0, 0, 0, 0, 0])),
        Err(Error::NotEnoughData)
    );
}

#[test]
fn a_blob_is_followed_by_the_next_argument() {
    let decoded = Message::deserialize(&with_tags(
        b"bi",
        &[0, 0, 0, 3, 7, 8, 9, 0, 0, 0, 0, 42],
    ))
    .expect("decodes");
    assert_eq!(decoded.arguments(), &[Value::Blob(vec![7, 8, 9]), Value::Int32(42)]);
}

#[test]
fn an_array_is_read_up_to_its_closing_bracket() {
    let decoded = Message::deserialize(&with_tags(
        b"[i[Ts]]N",
        &[0, 0, 0, 9, b'o', b'k', 0, 0],
    ))
    .expect("decodes");
    assert_eq!(
        decoded.arguments(),
        &[
            Value::Array(vec![
                Value::Int32(9),
                Value::Array(vec![Value::Boolean(true), Value::String("ok".into())]),
            ]),
            Value::Nil,
        ]
    );
}

#[test]
fn a_character_is_the_low_byte_of_its_word() {
    let decoded =
        Message::deserialize(&with_tags(b"cc", &[0, 0, 0, b'A', 1, 2, 3, b'z'])).expect("decodes");
    assert_eq!(decoded.arguments(), &[Value::Character('A'), Value::Character('z')]);
}

#[test]
fn numbers_are_read_big_endian() {
    let decoded = Message::deserialize(&with_tags(
        b"ihfdtrm",
        &[
            0xFF, 0xFF, 0xFF, 0xFE, // i
            0, 0, 0, 0, 0, 0, 1, 0, // h
            0x3F, 0x80, 0, 0, // f
            0x3F, 0xF0, 0, 0, 0, 0, 0, 0, // d
            0, 0, 0, 0, 0, 0, 0, 1, // t
            1, 2, 3, 4, // r
            5, 6, 7, 8, // m
        ],
    ))
    .expect("decodes");
    assert_eq!(
        decoded.arguments(),
        &[
            Value::Int32(-2),
            Value::Int64(256),
            Value::Float32(1.0f32.to_bits()),
            Value::Float64(1.0f64.to_bits()),
            Value::TimeTag(TimeTag(1)),
            Value::Color([1, 2, 3, 4]),
            Value::MidiMessage([5, 6, 7, 8]),
        ]
    );
}

#[test]
fn the_first_error_is_the_one_returned() {
    // The unknown tag comes before the argument that lacks data.
    assert_eq!(
        Message::deserialize(&with_tags(b"qi", &[])),
        Err(Error::UnknownType(b'q'))
    );
    // The argument that lacks data comes before the unknown tag.
    assert_eq!(Message::deserialize(&with_tags(b"iq", &[])), Err(Error::NotEnoughData));
}

fn without_trailing_zeros(bytes: &[u8]) -> &[u8] {
    let mut end = bytes.len();
    while end > 0 && bytes[end - 1] == 0 {
        end -= 1;
    }
    &bytes[..end]
}

#[test]
fn bytes_padded_with_zeros_are_encoded_as_they_came() {
    let samples: Vec<Vec<u8>> = vec![
        with_tags(b"", &[]),
        with_tags(b"", &[0, 0, 0, 0, 0, 0, 0, 0]),
        with_tags(b"ci", &[0, 0, 0, b'A', 0xFF, 0xFF, 0xFF, 0xFE]),
        with_tags(b"sS", &[b'a', b'b', b'c', 0, b'a', b'b', b'c', b'd', 0, 0, 0, 0]),
        with_tags(b"b", &[0, 0, 0, 5, 1, 2, 3, 4, 5, 0, 0, 0, 0, 0, 0, 0]),
        with_tags(b"[T[s]b]N", &[0xC3, 0xA9, 0, 0, 0, 0, 0, 0]),
        with_tags(b"hdtrm", &[
            1, 2, 3, 4, 5, 6, 7, 8, 9, 10, 11, 12, 13, 14, 15, 16, 0, 0, 0, 0, 0, 0, 0, 1, 1, 2, 3,
            4, 5, 6, 7, 8,
        ]),
    ];
    for bytes in samples {
        let message = Message::deserialize(&bytes).expect("decodes");
        let again = message.serialize().expect("encodable");
        assert_eq!(without_trailing_zeros(&again), without_trailing_zeros(&bytes));
        assert_eq!(again[..], bytes[..again.len()]);
    }
}

#[test]
fn bytes_padded_with_something_else_are_encoded_otherwise() {
    // A byte that is not zero in the padding of the address.
    let bytes = vec![b'/', b'a', 0, b'X', b',', 0, 0, 0];
    let message = Message::deserialize(&bytes).expect("decodes");
    assert_eq!(message.serialize().expect("encodable"), vec![b'/', b'a', 0, 0, b',', 0, 0, 0]);
    // A character whose word is not its code extended with zeros.
    let bytes = with_tags(b"c", &[1, 2, 3, b'z']);
    let message = Message::deserialize(&bytes).expect("decodes");
    assert_eq!(message.serialize().expect("encodable"), with_tags(b"c", &[0, 0, 0, b'z']));
    // A character outside ASCII decodes, and is refused on the way back.
    let bytes = with_tags(b"c", &[0, 0, 0, 0xE9]);
    let message = Message::deserialize(&bytes).expect("decodes");
    assert_eq!(message.serialize(), Err(Error::Overflow));
}
