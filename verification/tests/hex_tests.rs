use jit_tracer::parse_hex_u64;

#[test]
fn hex_values_parse_exactly() {
    assert_eq!(parse_hex_u64("0"), Some(0));
    assert_eq!(parse_hex_u64("ff"), Some(255));
    assert_eq!(parse_hex_u64("FF"), Some(255));
    assert_eq!(parse_hex_u64("7f3a1c400000"), Some(0x7f3a1c400000));
    assert_eq!(parse_hex_u64("ffffffffffffffff"), Some(u64::MAX));
}

#[test]
fn a_leading_plus_is_accepted_once() {
    assert_eq!(parse_hex_u64("+ff"), Some(255));
    assert_eq!(parse_hex_u64("+"), None);
    assert_eq!(parse_hex_u64("++f"), None);
}

#[test]
fn non_digits_and_empty_fields_are_rejected() {
    assert_eq!(parse_hex_u64(""), None);
    assert_eq!(parse_hex_u64("zz"), None);
    assert_eq!(parse_hex_u64("1g"), None);
    assert_eq!(parse_hex_u64("-1"), None);
    assert_eq!(parse_hex_u64("f f"), None);
}

#[test]
fn values_past_64_bits_are_rejected() {
    assert_eq!(parse_hex_u64("10000000000000000"), None);
    assert_eq!(parse_hex_u64("1ffffffffffffffff"), None);
}
