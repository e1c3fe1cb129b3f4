use phorcys::address::{check_address, check_part, Address, METHOD_PROHIBITED_CHAR};
use phorcys::error::Error;

/// Ensures valid OSC addresses are accepted.
#[test]
fn test_valid_address() {
    assert!(Address::new("/address").is_ok());
    assert!(Address::new("/address/to").is_ok());
    assert!(Address::new("/address/to/osc_method").is_ok());
    assert!(Address::new("/address/to/osc_method-2").is_ok());
}

/// Ensures invalid OSC addresses are rejected.
#[test]
fn test_invalid_address() {
    assert!(Address::new("").is_err());
    assert!(Address::new("X").is_err());
    assert!(Address::new(",").is_err());
    assert!(Address::new("/").is_err());
    assert!(Address::new("/address/").is_err());
    assert!(Address::new("/address/to*").is_err());
    assert!(Address::new("/address/to osc method").is_err());
}

#[test]
fn address_rejections_are_invalid_address() {
    assert_eq!(Address::new("//a"), Err(Error::InvalidAddress));
    assert_eq!(Address::new("/a//b"), Err(Error::InvalidAddress));
    assert_eq!(Address::new("/caf\u{e9}"), Err(Error::InvalidAddress));
    assert_eq!(Address::new("/a#"), Err(Error::InvalidAddress));
    assert_eq!(Address::new("/a{b}"), Err(Error::InvalidAddress));
    assert_eq!(Address::new("/a[b]"), Err(Error::InvalidAddress));
    assert_eq!(Address::new("/a?"), Err(Error::InvalidAddress));
    assert_eq!(Address::new("/a,b"), Err(Error::InvalidAddress));
}

#[test]
fn address_keeps_its_text() {
    let address = Address::new("/avatar/parameters/VRCFaceBlendV").expect("valid");
    assert_eq!(address.as_str(), "/avatar/parameters/VRCFaceBlendV");
    assert_eq!(address.to_string(), "/avatar/parameters/VRCFaceBlendV");
    assert_eq!(address.clone().into_string(), "/avatar/parameters/VRCFaceBlendV");
}

#[test]
fn push_part_appends_a_separator_and_the_part() {
    let mut address = Address::new("/avatar").expect("valid");
    assert_eq!(address.push_part("parameters"), Ok(()));
    assert_eq!(address.push_part("Viseme"), Ok(()));
    assert_eq!(address.as_str(), "/avatar/parameters/Viseme");
}

#[test]
fn push_part_refuses_and_leaves_the_address() {
    let mut address = Address::new("/avatar").expect("valid");
    assert_eq!(address.push_part(""), Err(Error::InvalidAddress));
    assert_eq!(address.push_part("a/b"), Err(Error::InvalidAddress));
    assert_eq!(address.push_part("a b"), Err(Error::InvalidAddress));
    assert_eq!(address.push_part("caf\u{e9}"), Err(Error::InvalidAddress));
    assert_eq!(address.push_part("a*"), Err(Error::InvalidAddress));
    assert_eq!(address.as_str(), "/avatar");
}

#[test]
fn no_part_holds_a_prohibited_character() {
    assert_eq!(METHOD_PROHIBITED_CHAR, [' ', '#', '*', ',', '/', '?', '[', ']', '{', '}']);
    for c in METHOD_PROHIBITED_CHAR {
        assert!(!check_part(&format!("a{}b", c)));
        if c != '/' {
            assert!(!check_address(&format!("/a{}b", c)));
        }
    }
    assert!(check_part("a-b_c.d!"));
    assert!(check_address("/a-b_c.d!/e"));
    assert!(!check_part(""));
    assert!(!check_address(""));
}
