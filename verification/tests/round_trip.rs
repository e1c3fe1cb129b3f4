use phorcys::address::Address;
use phorcys::data::{TimeTag, Value};
use phorcys::error::Error;
use phorcys::packet::bundle::BundleBuilder;
use phorcys::packet::message::{Message, MessageBuilder};
use phorcys::packet::Packet;
use phorcys::round_trip::{are_faithful, message_round_trip, packet_round_trip};
use phorcys::text::is_free_of_nul;

fn message(address: &str, arguments: Vec<Value>) -> Message {
    MessageBuilder::new(address).expect("valid").set_arguments(arguments).build()
}

#[test]
fn text_with_a_nul_is_found_out() {
    assert!(is_free_of_nul(""));
    assert!(is_free_of_nul("plain"));
    assert!(!is_free_of_nul("\0"));
    assert!(!is_free_of_nul("a\0b"));
    assert!(!is_free_of_nul("\u{3042}\0"));
}

#[test]
fn values_that_the_wire_would_change_are_not_faithful() {
    assert!(Value::Nil.is_faithful());
    assert!(Value::String("text".into()).is_faithful());
    assert!(Value::Character('a').is_faithful());
    assert!(Value::Blob(vec![0, 0, 0]).is_faithful());
    assert!(Value::Float32(f32::NAN.to_bits()).is_faithful());
    assert!(!Value::String("te\0xt".into()).is_faithful());
    assert!(!Value::Alternative("\0".into()).is_faithful());
    assert!(!Value::Character('\u{e9}').is_faithful());
    assert!(Value::Array(vec![Value::Int32(1), Value::Array(vec![])]).is_faithful());
    assert!(!Value::Array(vec![Value::Int32(1), Value::Array(vec![Value::String("\0".into())])])
        .is_faithful());
    assert!(are_faithful(&[]));
    assert!(are_faithful(&[Value::Nil, Value::Int64(1)]));
    assert!(!are_faithful(&[Value::Nil, Value::Character('\u{80}')]));
}

#[test]
fn a_faithful_message_comes_back_as_it_went() {
    let sent = message(
        "/avatar/parameters/Viseme",
        vec![
            Value::Int32(7),
            Value::String("\u{30bb}\u{30d5}\u{30a3}\u{30e9}".into()),
            Value::Array(vec![Value::Blob(vec![1, 2, 3]), Value::TimeTag(TimeTag(1))]),
        ],
    );
    assert!(sent.is_faithful());
    assert_eq!(message_round_trip(&sent), Ok(sent));
}

#[test]
fn a_string_with_a_nul_comes_back_cut_short() {
    let sent = message("/x", vec![Value::String("ab\0cd".into())]);
    assert!(!sent.is_faithful());
    assert_eq!(message_round_trip(&sent), Ok(message("/x", vec![Value::String("ab".into())])));
}

#[test]
fn an_address_with_a_nul_comes_back_cut_short() {
    let address = Address::new("/a\0b").expect("a NUL is no reserved character");
    let sent = message(address.as_str(), vec![]);
    assert!(!sent.is_faithful());
    // What follows the NUL is read as the type tags, and they lack their comma.
    assert_eq!(message_round_trip(&sent), Err(Error::InvalidTag));
}

#[test]
fn a_message_that_is_not_encodable_does_not_leave() {
    let sent = message("/x", vec![Value::Character('\u{3042}')]);
    assert!(!sent.is_faithful());
    assert_eq!(message_round_trip(&sent), Err(Error::Overflow));
}

#[test]
fn a_faithful_packet_comes_back_as_it_went() {
    let inner = BundleBuilder::new(TimeTag(2))
        .push_element(Packet::Message(message("/in", vec![Value::Boolean(true)])))
        .build();
    let sent = Packet::Bundle(
        BundleBuilder::new(TimeTag(1))
            .push_element(Packet::Message(message("/out", vec![Value::String("s".into())])))
            .push_element(Packet::Bundle(inner))
            .build(),
    );
    assert!(sent.is_faithful());
    assert_eq!(packet_round_trip(&sent), Ok(sent));
    let single = Packet::Message(message("/m", vec![]));
    assert!(single.is_faithful());
    assert_eq!(packet_round_trip(&single), Ok(single));
}

#[test]
fn a_packet_with_an_unfaithful_element_is_not_faithful() {
    let bundle = BundleBuilder::new(TimeTag(1))
        .push_element(Packet::Message(message("/ok", vec![])))
        .push_element(Packet::Message(message("/cut", vec![Value::Alternative("a\0".into())])))
        .build();
    assert!(!bundle.is_faithful());
    assert!(!Packet::Bundle(bundle.clone()).is_faithful());
    let back = packet_round_trip(&Packet::Bundle(bundle)).expect("decodes");
    assert_eq!(
        back,
        Packet::Bundle(
            BundleBuilder::new(TimeTag(1))
                .push_element(Packet::Message(message("/ok", vec![])))
                .push_element(Packet::Message(message("/cut", vec![Value::Alternative("a".into())])))
                .build()
        )
    );
}
