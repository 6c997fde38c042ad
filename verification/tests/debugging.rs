use balancebeam::debug::{
    align_addr_to_word, classify_breakpoint_target, parse_address, patch_byte_in_word,
    BreakTarget, Breakpoint, BreakpointTable,
};

#[test]
fn addresses_align_down_to_their_word() {
    assert_eq!(align_addr_to_word(0x1234), 0x1230);
    assert_eq!(align_addr_to_word(0x1237), 0x1230);
    assert_eq!(align_addr_to_word(0x1238), 0x1238);
    assert_eq!(align_addr_to_word(0), 0);
}

#[test]
fn patching_a_word_replaces_exactly_one_byte() {
    let word: u64 = 0x1122334455667788;
    let (orig, updated) = patch_byte_in_word(word, 2, 0xcc);
    assert_eq!(orig, 0x66);
    assert_eq!(updated, 0x11223344_55cc7788);
    let (restored_orig, restored) = patch_byte_in_word(updated, 2, orig);
    assert_eq!(restored_orig, 0xcc);
    assert_eq!(restored, word);
}

#[test]
fn patching_the_top_byte_works_too() {
    let (orig, updated) = patch_byte_in_word(0xff00000000000000, 7, 0x01);
    assert_eq!(orig, 0xff);
    assert_eq!(updated, 0x0100000000000000);
}

#[test]
fn hex_addresses_parse_with_and_without_prefix() {
    assert_eq!(parse_address("0x1f"), Some(0x1f));
    assert_eq!(parse_address("0X1F"), Some(0x1f));
    assert_eq!(parse_address("1f"), Some(0x1f));
    assert_eq!(parse_address("40123c"), Some(0x40123c));
    assert_eq!(parse_address("0"), Some(0));
}

#[test]
fn bad_hex_addresses_do_not_parse() {
    assert_eq!(parse_address(""), None);
    assert_eq!(parse_address("0x"), None);
    assert_eq!(parse_address("zz"), None);
    assert_eq!(parse_address("1g"), None);
    assert_eq!(parse_address("0x12 34"), None);
    assert_eq!(parse_address("123456789123456789123456789"), None);
}

#[test]
fn breakpoint_targets_classify_by_shape() {
    assert_eq!(classify_breakpoint_target("*0x401234"), Some(BreakTarget::Address(0x401234)));
    assert_eq!(classify_breakpoint_target("*401234"), Some(BreakTarget::Address(0x401234)));
    assert_eq!(classify_breakpoint_target("*zz"), None);
    assert_eq!(classify_breakpoint_target("42"), Some(BreakTarget::Line(42)));
    assert_eq!(classify_breakpoint_target("main"), Some(BreakTarget::Function));
    assert_eq!(classify_breakpoint_target(""), Some(BreakTarget::Function));
}

#[test]
fn breakpoint_table_reports_hits_one_byte_before_rip() {
    let mut table = BreakpointTable::new();
    assert_eq!(table.len(), 0);
    table.insert(0x400100, Some(Breakpoint { addr: 0x400100, orig_byte: 0x55 }));
    table.insert(0x400200, None);
    assert_eq!(table.len(), 2);
    assert_eq!(table.stopped_breakpoint(0x400101), Some(0x55));
    assert_eq!(table.stopped_breakpoint(0x400201), None);
    assert_eq!(table.stopped_breakpoint(0x400301), None);
    table.insert(0x400100, Some(Breakpoint { addr: 0x400100, orig_byte: 0x90 }));
    assert_eq!(table.len(), 2);
    assert_eq!(table.stopped_breakpoint(0x400101), Some(0x90));
}
