use phorcys::address::Address;
use phorcys::data::Value;
use phorcys::error::Error;
use phorcys::packet::{osc_packet, Packet};
use phorcys::prelude::{OscAddress, OscMessageBuilder, OscPacket, OscPacketBuilder, OscValue};
use phorcys::text::{same_text, split_text};

#[test]
fn values_are_made_from_what_they_hold() {
    assert_eq!(Value::from(true), Value::Boolean(true));
    assert_eq!(Value::from('c'), Value::Character('c'));
    assert_eq!(Value::from(5i32), Value::Int32(5));
    assert_eq!(Value::from(-5i64), Value::Int64(-5));
    assert_eq!(Value::from(String::from("owned")), Value::String("owned".into()));
    assert_eq!(Value::from("borrowed"), Value::String("borrowed".into()));
    let through_into: Value = 7i32.into();
    assert_eq!(through_into, Value::Int32(7));
}

#[test]
fn an_address_becomes_its_string() {
    let address = Address::new("/a/b").expect("valid");
    assert_eq!(String::from(address), "/a/b");
}

#[test]
fn an_address_hands_out_its_parts() {
    assert_eq!(Address::new("/a").expect("valid").parts(), vec!["a"]);
    assert_eq!(
        Address::new("/avatar/parameters/VRCFaceBlendV").expect("valid").parts(),
        vec!["avatar", "parameters", "VRCFaceBlendV"]
    );
    let mut address = Address::new("/x").expect("valid");
    address.push_part("y-z").expect("a part");
    assert_eq!(address.parts(), vec!["x", "y-z"]);
}

#[test]
fn the_parts_of_an_address_are_never_empty() {
    for text in ["/a", "/a/b", "/address/to/osc_method-2", "/0/1/2/3"] {
        let address = Address::new(text).expect("valid");
        assert!(address.as_str().starts_with('/'));
        assert!(address.as_str().is_ascii());
        for part in address.parts() {
            assert!(!part.is_empty());
            assert!(!part.contains(&[' ', '#', '*', ',', '/', '?', '[', ']', '{', '}'][..]));
        }
    }
}

#[test]
fn text_is_split_at_each_separator() {
    assert_eq!(split_text("a,b,c", ','), vec!["a", "b", "c"]);
    assert_eq!(split_text("", ','), vec![""]);
    assert_eq!(split_text(",", ','), vec!["", ""]);
    assert_eq!(split_text("a,,b,", ','), vec!["a", "", "b", ""]);
    assert_eq!(split_text("no separator", ','), vec!["no separator"]);
    assert_eq!(split_text("\u{3042}/\u{3044}", '/'), vec!["\u{3042}", "\u{3044}"]);
}

#[test]
fn texts_are_compared_by_their_characters() {
    assert!(same_text("", ""));
    assert!(same_text("abc", "abc"));
    assert!(same_text("\u{30bb}\u{30d5}", "\u{30bb}\u{30d5}"));
    assert!(!same_text("abc", "abd"));
    assert!(!same_text("abc", "ab"));
    assert!(!same_text("", "a"));
}

#[test]
fn a_packet_is_made_from_an_address_and_arguments() {
    let packet = osc_packet("/path", vec![Value::Int32(1), Value::from("two")]).expect("valid");
    let expected = OscPacketBuilder::new("/path")
        .expect("valid")
        .push_argument(OscValue::Int32(1))
        .push_argument(OscValue::String("two".into()))
        .build();
    assert_eq!(packet, expected);
    assert_eq!(osc_packet("/path", vec![]).expect("valid").arguments(), Some(&[][..]));
    assert_eq!(osc_packet("path", vec![]), Err(Error::InvalidAddress));
}

#[test]
fn the_prelude_names_the_same_types() {
    let address: OscAddress = Address::new("/x").expect("valid");
    let message = OscMessageBuilder::new(address.as_str()).expect("valid").build();
    let packet: OscPacket = Packet::Message(message);
    assert_eq!(packet.address().map(|a| a.as_str()), Some("/x"));
}
