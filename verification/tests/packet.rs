use phorcys::data::{TimeTag, Value};
use phorcys::error::Error;
use phorcys::packet::bundle::{Bundle, BundleBuilder};
use phorcys::packet::message::{Message, MessageBuilder};
use phorcys::packet::{Packet, PacketBuilder, BUNDLE_HEADER, MAX_BUNDLE_DEPTH};

/// Ensures that `Packet::deserialize()` processes valid bytes.
/// The packet has only address.
#[test]
fn packet_test_deserializer_simple() {
    let bytes = vec![
        b'/', b'p', b'a', b't', // Address
        b'h', 0x00, 0x00, 0x00, // Address
        b',', 0x00, 0x00, 0x00, // Tag
    ];

    let packet = Packet::deserialize(&bytes).expect("Deserialize failed");
    let (address, arguments) = packet.split_into().expect("A message");
    assert_eq!(address, "/path");
    assert_eq!(arguments, &[]);
}

/// Ensures that `Packet::deserialize()` rejects invalid address.
/// The packet has only address.
#[test]
fn packet_test_deserializer_error_address() {
    let bytes = vec![
        b'X', b'p', b'a', b't', // Address
        b'h', 0x00, 0x00, 0x00, // Address
        b',', 0x00, 0x00, 0x00, // Tag
    ];

    let packet = Packet::deserialize(&bytes);
    assert_eq!(packet, Err(Error::InvalidAddress));
}

/// Ensures that `Packet::deserialize()` rejects invalid tag.
/// The packet has only address.
#[test]
fn packet_test_deserializer_error_tag() {
    let bytes = vec![
        b'/', b'p', b'a', b't', // Address
        b'h', 0x00, 0x00, 0x00, // Address
        b'/', 0x00, 0x00, 0x00, // Tag
    ];

    let packet = Packet::deserialize(&bytes);
    assert_eq!(packet, Err(Error::InvalidTag));
}

/// Ensures that `Packet::serialize()` processes valid packet.
/// The packet has only address.
#[test]
fn packet_test_serializer_simple() {
    let packet = PacketBuilder::new("/path/to")
        .expect("Should valid")
        .build();
    let packet_bytes = packet.serialize().expect("Should encode");

    assert_eq!(
        &packet_bytes[..],
        &[
            b'/', b'p', b'a', b't', // Address
            b'h', b'/', b't', b'o', // Address
            0x00, 0x00, 0x00, 0x00, // Address
            b',', 0x00, 0x00, 0x00, // Tag
        ]
    );
}

fn message(address: &str, arguments: Vec<Value>) -> Message {
    MessageBuilder::new(address).expect("valid").set_arguments(arguments).build()
}

#[test]
fn the_packet_builder_makes_a_message() {
    let packet = PacketBuilder::new("/avatar/parameters/X")
        .expect("valid")
        .push_argument(Value::Int32(3))
        .build();
    assert_eq!(packet, Packet::Message(message("/avatar/parameters/X", vec![Value::Int32(3)])));
    assert_eq!(packet.address().map(|a| a.as_str()), Some("/avatar/parameters/X"));
    assert_eq!(packet.arguments(), Some(&[Value::Int32(3)][..]));
    let replaced = PacketBuilder::new("/x")
        .expect("valid")
        .push_argument(Value::Nil)
        .set_arguments(vec![Value::Boolean(false)])
        .build();
    assert_eq!(replaced.split_into(), Some(("/x".to_string(), vec![Value::Boolean(false)])));
    assert!(matches!(PacketBuilder::new("x"), Err(Error::InvalidAddress)));
}

#[test]
fn a_bundle_has_no_address_and_no_arguments() {
    let packet = Packet::Bundle(BundleBuilder::new(TimeTag(1)).build());
    assert_eq!(packet.address(), None);
    assert_eq!(packet.arguments(), None);
    assert_eq!(packet.split_into(), None);
}

#[test]
fn the_first_byte_decides_what_a_packet_is() {
    assert_eq!(Packet::deserialize(&[]), Err(Error::NotEnoughData));
    assert_eq!(Packet::deserialize(&[b'X', 0, 0, 0]), Err(Error::InvalidAddress));
    assert_eq!(Packet::deserialize(&[0, 0, 0, 0]), Err(Error::InvalidAddress));
    assert_eq!(Packet::deserialize(&[b'#', 0, 0, 0]), Err(Error::InvalidBundle));
    assert_eq!(Packet::deserialize(&[b'/', b'a', b'b', b'c']), Err(Error::NotTerminated));
    let decoded = Packet::deserialize(&[b'/', b'a', 0, 0, b',', b'N', 0, 0]).expect("decodes");
    assert_eq!(decoded, Packet::Message(message("/a", vec![Value::Nil])));
}

#[test]
fn the_bundle_header_is_the_word_bundle() {
    assert_eq!(&BUNDLE_HEADER, b"#bundle\0");
    assert_eq!(MAX_BUNDLE_DEPTH, 32);
}

#[test]
fn an_empty_bundle_is_its_header_and_its_time_tag() {
    let bundle = BundleBuilder::new(TimeTag(1)).build();
    let bytes = bundle.clone().serialize().expect("encodable");
    assert_eq!(
        bytes,
        vec![b'#', b'b', b'u', b'n', b'd', b'l', b'e', 0, 0, 0, 0, 0, 0, 0, 0, 1]
    );
    assert_eq!(Bundle::deserialize(&bytes), Ok(bundle));
}

#[test]
fn each_element_of_a_bundle_stands_behind_its_length() {
    let bundle = BundleBuilder::new(TimeTag(0x0102030405060708))
        .push_element(Packet::Message(message("/a", vec![Value::Int32(1)])))
        .push_element(Packet::Message(message("/bcd", vec![])))
        .build();
    let bytes = bundle.serialize().expect("encodable");
    assert_eq!(
        bytes,
        vec![
            b'#', b'b', b'u', b'n', b'd', b'l', b'e', 0, // header
            1, 2, 3, 4, 5, 6, 7, 8, // time tag
            0, 0, 0, 12, // length
            b'/', b'a', 0, 0, b',', b'i', 0, 0, 0, 0, 0, 1, // first element
            0, 0, 0, 12, // length
            b'/', b'b', b'c', b'd', 0, 0, 0, 0, b',', 0, 0, 0, // second element
        ]
    );
}

fn nested(depth: usize) -> Bundle {
    let mut bundle = BundleBuilder::new(TimeTag(depth as u64))
        .push_element(Packet::Message(message("/leaf", vec![Value::String("x".into())])))
        .build();
    for level in 1..depth {
        bundle = BundleBuilder::new(TimeTag(level as u64))
            .push_element(Packet::Message(message("/before", vec![Value::Int32(level as i32)])))
            .push_element(Packet::Bundle(bundle))
            .push_element(Packet::Message(message("/after", vec![])))
            .build();
    }
    bundle
}

#[test]
fn a_bundle_comes_back_from_its_bytes() {
    for depth in [1usize, 2, 3, 10, 32] {
        let bundle = nested(depth);
        let bytes = bundle.encode().expect("encodable");
        assert_eq!(Bundle::deserialize(&bytes), Ok(bundle.clone()));
        assert_eq!(Packet::deserialize(&bytes), Ok(Packet::Bundle(bundle)));
    }
}

#[test]
fn bundles_nested_too_deeply_are_refused() {
    let bundle = nested(33);
    let bytes = bundle.serialize().expect("encodable");
    assert_eq!(Bundle::deserialize(&bytes), Err(Error::InvalidBundle));
    assert_eq!(Packet::deserialize(&bytes), Err(Error::InvalidBundle));
    assert!(Bundle::deserialize_within(&bytes, 33).is_ok());
    assert!(Packet::deserialize_within(&bytes, 33).is_ok());
}

#[test]
fn the_budget_counts_the_outermost_bundle() {
    let bytes = nested(2).serialize().expect("encodable");
    assert_eq!(Bundle::deserialize_within(&bytes, 0), Err(Error::InvalidBundle));
    assert_eq!(Bundle::deserialize_within(&bytes, 1), Err(Error::InvalidBundle));
    assert!(Bundle::deserialize_within(&bytes, 2).is_ok());
    let flat = nested(1).serialize().expect("encodable");
    assert!(Bundle::deserialize_within(&flat, 1).is_ok());
    assert_eq!(Packet::deserialize_within(&flat, 0), Err(Error::InvalidBundle));
    // A message needs no budget.
    assert!(Packet::deserialize_within(&[b'/', b'a', 0, 0, b',', 0, 0, 0], 0).is_ok());
}

#[test]
fn a_short_or_foreign_header_is_no_bundle() {
    assert_eq!(Bundle::deserialize(&[]), Err(Error::InvalidBundle));
    assert_eq!(
        Bundle::deserialize(&[b'#', b'b', b'u', b'n', b'd', b'l', b'e', 0, 0, 0, 0, 0, 0, 0, 0]),
        Err(Error::InvalidBundle)
    );
    assert_eq!(
        Bundle::deserialize(&[b'#', b'B', b'u', b'n', b'd', b'l', b'e', 0, 0, 0, 0, 0, 0, 0, 0, 1]),
        Err(Error::InvalidBundle)
    );
    assert_eq!(
        Bundle::deserialize(&[b'#', b'b', b'u', b'n', b'd', b'l', b'e', b'!', 0, 0, 0, 0, 0, 0, 0, 1]),
        Err(Error::InvalidBundle)
    );
}

fn bundle_bytes(elements: &[u8]) -> Vec<u8> {
    let mut bytes = b"#bundle\0".to_vec();
    bytes.extend_from_slice(&[0, 0, 0, 0, 0, 0, 0, 1]);
    bytes.extend_from_slice(elements);
    bytes
}

#[test]
fn an_element_longer_than_what_is_left_lacks_data() {
    assert_eq!(
        Bundle::deserialize(&bundle_bytes(&[0, 0, 0, 8, b'/', b'a', 0, 0])),
        Err(Error::NotEnoughData)
    );
    assert_eq!(
        Bundle::deserialize(&bundle_bytes(&[0xFF, 0xFF, 0xFF, 0xFF, b'/', b'a', 0, 0])),
        Err(Error::NotEnoughData)
    );
}

#[test]
fn an_empty_element_lacks_data() {
    assert_eq!(Bundle::deserialize(&bundle_bytes(&[0, 0, 0, 0])), Err(Error::NotEnoughData));
}

#[test]
fn the_error_of_an_element_is_the_error_of_the_bundle() {
    assert_eq!(
        Bundle::deserialize(&bundle_bytes(&[0, 0, 0, 4, b'X', b'a', 0, 0])),
        Err(Error::InvalidAddress)
    );
    assert_eq!(
        Bundle::deserialize(&bundle_bytes(&[0, 0, 0, 3, b'/', b'a', 0, 0])),
        Err(Error::UnalignedData)
    );
    assert_eq!(
        Bundle::deserialize(&bundle_bytes(&[0, 0, 0, 8, b'/', b'a', 0, 0, b',', b'?', 0, 0])),
        Err(Error::UnknownType(b'?'))
    );
}

#[test]
fn fewer_than_four_bytes_after_the_last_element_are_ignored() {
    let decoded = Bundle::deserialize(&bundle_bytes(&[
        0, 0, 0, 8, b'/', b'a', 0, 0, b',', 0, 0, 0, 9, 9, 9,
    ]))
    .expect("decodes");
    assert_eq!(decoded.time_tag(), TimeTag(1));
    assert_eq!(decoded.elements(), &[Packet::Message(message("/a", vec![]))]);
    let empty = Bundle::deserialize(&bundle_bytes(&[7])).expect("decodes");
    assert!(empty.elements().is_empty());
}

#[test]
fn a_new_bundle_holds_what_it_was_given() {
    let elements = vec![
        Packet::Message(message("/one", vec![Value::Nil])),
        Packet::Bundle(Bundle::new(TimeTag(2), vec![])),
    ];
    let bundle = Bundle::new(TimeTag(7), elements.clone());
    assert_eq!(bundle.time_tag(), TimeTag(7));
    assert_eq!(bundle.elements(), &elements[..]);
    assert_eq!(bundle.split_into(), (TimeTag(7), elements));
}

#[test]
fn a_bundle_with_an_element_that_is_not_encodable_is_refused() {
    let bundle = BundleBuilder::new(TimeTag(1))
        .push_element(Packet::Message(message("/ok", vec![])))
        .push_element(Packet::Bundle(
            BundleBuilder::new(TimeTag(1))
                .push_element(Packet::Message(message("/bad", vec![Value::Character('\u{2603}')])))
                .build(),
        ))
        .build();
    assert_eq!(bundle.encode(), Err(Error::Overflow));
    assert_eq!(Packet::Bundle(bundle).serialize(), Err(Error::Overflow));
}

#[test]
fn a_packet_serializes_as_what_it_holds() {
    let inner = message("/m", vec![Value::Int64(9)]);
    assert_eq!(Packet::Message(inner.clone()).serialize(), inner.clone().serialize());
    let bundle = BundleBuilder::new(TimeTag(3)).push_element(Packet::Message(inner)).build();
    assert_eq!(Packet::Bundle(bundle.clone()).encode(), bundle.serialize());
}
