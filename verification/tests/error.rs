use phorcys::error::Error;

#[test]
fn each_error_has_its_message() {
    assert_eq!(Error::InvalidAddress.message(), "Invalid address");
    assert_eq!(
        Error::InvalidPattern("left: x".into()).message(),
        "Invalid address pattern: left: x"
    );
    assert_eq!(Error::UnalignedData.message(), "Bytes array not aligned");
    assert_eq!(Error::NotTerminated.message(), "String termination not found");
    assert_eq!(Error::InvalidTag.message(), "Invalid tag");
    assert_eq!(Error::IllegalStructure.message(), "Type tag structure is illegal");
    assert_eq!(Error::UnknownType(0).message(), "Unknown data type: 0");
    assert_eq!(Error::UnknownType(7).message(), "Unknown data type: 7");
    assert_eq!(Error::UnknownType(42).message(), "Unknown data type: 42");
    assert_eq!(Error::UnknownType(120).message(), "Unknown data type: 120");
    assert_eq!(Error::UnknownType(255).message(), "Unknown data type: 255");
    assert_eq!(Error::NotEnoughData.message(), "Not enough argument data");
    assert_eq!(Error::InvalidBundle.message(), "Invalid bundle");
    assert_eq!(Error::Overflow.message(), "Value does not fit its field");
}

#[test]
fn errors_compare_by_kind_and_content() {
    assert_eq!(Error::UnknownType(1), Error::UnknownType(1));
    assert_ne!(Error::UnknownType(1), Error::UnknownType(2));
    assert_ne!(Error::InvalidAddress, Error::InvalidTag);
    assert_eq!(Error::InvalidPattern("a".into()).clone(), Error::InvalidPattern("a".into()));
}
