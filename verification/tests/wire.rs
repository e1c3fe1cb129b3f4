use phorcys::wire::{
    append_bytes, copy_range, find_nul, u32_from_be_bytes, u32_to_be_bytes, u64_from_be_bytes,
    u64_to_be_bytes,
};

#[test]
fn big_endian_bytes_of_numbers() {
    assert_eq!(u32_to_be_bytes(0x01020304), [1, 2, 3, 4]);
    assert_eq!(u32_to_be_bytes(u32::MAX), [0xFF; 4]);
    assert_eq!(u64_to_be_bytes(0x0102030405060708), [1, 2, 3, 4, 5, 6, 7, 8]);
    assert_eq!(u32_from_be_bytes(&[0x12, 0x34, 0x56, 0x78, 0x9A]), 0x12345678);
    assert_eq!(u64_from_be_bytes(&[0, 0, 0, 0, 0, 0, 1, 2]), 0x0102);
}

#[test]
fn big_endian_round_trips() {
    for x in [0u32, 1, 0x7F, 0x80, 0xFFFF, 0x8000_0000, u32::MAX] {
        assert_eq!(u32_from_be_bytes(&u32_to_be_bytes(x)), x);
    }
    for x in [0u64, 1, 0xFFFF_FFFF, 0x1_0000_0000, u64::MAX] {
        assert_eq!(u64_from_be_bytes(&u64_to_be_bytes(x)), x);
    }
}

#[test]
fn the_first_zero_byte_is_found() {
    assert_eq!(find_nul(&[]), None);
    assert_eq!(find_nul(&[1, 2, 3]), None);
    assert_eq!(find_nul(&[0]), Some(0));
    assert_eq!(find_nul(&[5, 0, 7, 0]), Some(1));
}

#[test]
fn bytes_are_appended_and_copied() {
    let mut buffer = vec![1u8];
    append_bytes(&mut buffer, &[2, 3]);
    append_bytes(&mut buffer, &[]);
    assert_eq!(buffer, vec![1, 2, 3]);
    assert_eq!(copy_range(&[1, 2, 3, 4, 5], 1, 4), vec![2, 3, 4]);
    assert_eq!(copy_range(&[1, 2, 3], 2, 2), Vec::<u8>::new());
}
