use deet::{
    align_addr_to_word, parse_address, parse_breakpoint_address, patch_word, AddressError,
    BreakpointSet, TRAP_OPCODE,
};

#[test]
fn address_with_and_without_prefix_agree() {
    assert_eq!(parse_breakpoint_address("*0x1040"), Ok(0x1040));
    assert_eq!(parse_breakpoint_address("*1040"), Ok(0x1040));
    assert_eq!(parse_breakpoint_address("*0X1040"), Ok(0x1040));
}

#[test]
fn address_without_marker_or_with_bad_digits_is_rejected() {
    assert_eq!(parse_breakpoint_address("1040"), Err(AddressError::MissingMarker));
    assert_eq!(parse_breakpoint_address("*zz"), Err(AddressError::BadHex));
    assert_eq!(parse_breakpoint_address(""), Err(AddressError::MissingMarker));
    assert_eq!(parse_breakpoint_address("*"), Err(AddressError::BadHex));
    assert_eq!(parse_breakpoint_address("*0x"), Err(AddressError::BadHex));
}

#[test]
fn parse_address_reads_hex_in_either_case() {
    assert_eq!(parse_address("deadBEEF"), Some(0xdead_beef));
    assert_eq!(parse_address("0x0"), Some(0));
    assert_eq!(parse_address("ffffffffffffffff"), Some(usize::MAX));
    assert_eq!(parse_address("10000000000000000"), None);
    assert_eq!(parse_address("+10"), None);
    assert_eq!(parse_address("12 "), None);
}

#[test]
fn align_rounds_down_to_word() {
    assert_eq!(align_addr_to_word(0x1040), 0x1040);
    assert_eq!(align_addr_to_word(0x1047), 0x1040);
    assert_eq!(align_addr_to_word(0x1049), 0x1048);
    assert_eq!(align_addr_to_word(7), 0);
}

#[test]
fn patching_one_byte_keeps_the_other_seven() {
    let word: u64 = 0x1122_3344_5566_7788;
    for offset in 0..8usize {
        let (patched, orig) = patch_word(word, offset, TRAP_OPCODE);
        let before = word.to_le_bytes();
        let after = patched.to_le_bytes();
        assert_eq!(orig, before[offset]);
        for k in 0..8 {
            if k == offset {
                assert_eq!(after[k], 0xcc);
            } else {
                assert_eq!(after[k], before[k]);
            }
        }
    }
    assert_eq!(patch_word(word, 3, 0xcc), (0x1122_3344_cc66_7788, 0x55));
}

#[test]
fn requesting_an_address_twice_keeps_one_breakpoint() {
    let mut set = BreakpointSet::new();
    assert_eq!(set.request(0x1040), 1);
    assert_eq!(set.request(0x2000), 2);
    assert_eq!(set.request(0x1040), 1);
    assert_eq!(set.len(), 2);
    assert_eq!(set.get(0).address, 0x1040);
    assert_eq!(set.get(0).saved, None);
    assert_eq!(set.get(1).address, 0x2000);
}
