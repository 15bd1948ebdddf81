use jit_tracer::FunctionMapping;
use jit_tracer::ParseError;

#[test]
fn parse_round_trips_addr_and_size() {
    let mapping = FunctionMapping::parse("7f3a1c400000 34 world\n", "").unwrap();
    let meta = mapping.get_function("world").unwrap();
    assert_eq!(meta.addr, 0x7f3a1c400000);
    assert_eq!(meta.size, 0x34);
    assert_eq!(meta.symbol, "world");
}

#[test]
fn parse_strips_hex_prefix_of_address_only() {
    let mapping = FunctionMapping::parse("0xff 10 wasm_binary:foo", "").unwrap();
    let meta = mapping.get_function("foo").unwrap();
    assert_eq!(meta.addr, 0xff);
    assert_eq!(meta.size, 0x10);
    assert_eq!(meta.symbol, "wasm_binary:foo");
}

#[test]
fn last_occurrence_of_a_short_name_wins() {
    let text = "7f0000000000 34 wasm_binary:foo\n7f0000000100 10 wasm_binary:foo\n";
    let mapping = FunctionMapping::parse(text, "wasm_binary").unwrap();
    assert_eq!(mapping.len(), 1);
    let meta = mapping.get_function("foo").unwrap();
    assert_eq!(meta.addr, 0x7f0000000100);
    assert_eq!(meta.size, 0x10);
}

#[test]
fn filtered_names_never_appear() {
    let text = "1000 10 other:bar\n2000 20 wasm_binary:baz\n";
    let mapping = FunctionMapping::parse(text, "wasm_binary").unwrap();
    assert_eq!(mapping.len(), 1);
    assert!(mapping.get_function("bar").is_none());
    assert!(mapping.get_function("baz").is_some());
}

#[test]
fn missing_column_aborts_whole_parse() {
    let err = FunctionMapping::parse("1000 10 good\n2000 20\n", "").unwrap_err();
    assert_eq!(err, ParseError::MissingColumn);
    let err = FunctionMapping::parse("lonely\n", "").unwrap_err();
    assert_eq!(err, ParseError::MissingColumn);
}

#[test]
fn malformed_hex_aborts_whole_parse() {
    let err = FunctionMapping::parse("zz 10 name\n", "").unwrap_err();
    assert_eq!(err, ParseError::MalformedHex);
    let err = FunctionMapping::parse("1000 1g name\n", "").unwrap_err();
    assert_eq!(err, ParseError::MalformedHex);
    let err = FunctionMapping::parse("1ffffffffffffffff 0 name\n", "").unwrap_err();
    assert_eq!(err, ParseError::MalformedHex);
}

#[test]
fn malformed_hex_on_a_filtered_line_is_ignored() {
    let mapping = FunctionMapping::parse("zz 10 other\n", "wasm").unwrap();
    assert_eq!(mapping.len(), 0);
}

#[test]
fn blank_lines_are_skipped() {
    let mapping = FunctionMapping::parse("\n\n1000 10 a\n   \n", "").unwrap();
    assert_eq!(mapping.len(), 1);
    assert!(mapping.get_function("a").is_some());
}

#[test]
fn short_name_is_the_part_after_the_last_colon() {
    let mapping = FunctionMapping::parse("1000 10 a:b:c\n", "").unwrap();
    let meta = mapping.get_function("c").unwrap();
    assert_eq!(meta.symbol, "a:b:c");
    assert!(mapping.get_function("a:b:c").is_none());
}

#[test]
fn trailing_colon_gives_an_empty_short_name() {
    let mapping = FunctionMapping::parse("1000 10 abc:\n", "").unwrap();
    let meta = mapping.get_function("").unwrap();
    assert_eq!(meta.symbol, "abc:");
}

#[test]
fn extra_columns_are_ignored() {
    let mapping = FunctionMapping::parse("1000 10 name extra stuff\n", "").unwrap();
    let meta = mapping.get_function("name").unwrap();
    assert_eq!(meta.addr, 0x1000);
    assert_eq!(meta.size, 0x10);
}

#[test]
fn final_line_needs_no_newline() {
    let mapping = FunctionMapping::parse("1000 10 a\n2000 20 b", "").unwrap();
    assert_eq!(mapping.len(), 2);
    assert_eq!(mapping.get_function("b").unwrap().addr, 0x2000);
}

#[test]
fn entry_listing_matches_lookups() {
    let mapping = FunctionMapping::parse("1000 10 a\n2000 20 b\n", "").unwrap();
    assert_eq!(mapping.len(), 2);
    let (name0, meta0) = mapping.entry_at(0);
    assert_eq!(name0, "a");
    assert_eq!(meta0.addr, 0x1000);
    let (name1, meta1) = mapping.entry_at(1);
    assert_eq!(name1, "b");
    assert_eq!(meta1.size, 0x20);
}

#[test]
fn lookup_of_absent_name_is_none() {
    let mapping = FunctionMapping::parse("1000 10 a\n", "").unwrap();
    assert!(mapping.get_function("missing").is_none());
}
