use rudo::text::{concat_str, is_whitespace, parse_u64, u64_to_decimal};

#[test]
fn numbers_render_and_parse() {
    assert_eq!(u64_to_decimal(0), "0");
    assert_eq!(u64_to_decimal(1234567890), "1234567890");
    assert_eq!(u64_to_decimal(u64::MAX), "18446744073709551615");
    assert_eq!(parse_u64("42"), Some(42));
    assert_eq!(parse_u64("+42"), Some(42));
    assert_eq!(parse_u64("-1"), None);
    assert_eq!(parse_u64(""), None);
    assert_eq!(parse_u64("+"), None);
    assert_eq!(parse_u64(" 1"), None);
    for n in [0u64, 7, 10, 99, 100, 65535, u64::MAX] {
        assert_eq!(parse_u64(&u64_to_decimal(n)), Some(n));
        assert_eq!(parse_u64(&n.to_string()), n.to_string().parse::<u64>().ok());
    }
    assert_eq!(concat_str("ab", "cd"), "abcd");
}

#[test]
fn whitespace_is_the_unicode_white_space_set() {
    for code in 0u32..=0x10ffff {
        if let Some(c) = char::from_u32(code) {
            assert_eq!(is_whitespace(c), c.is_whitespace(), "U+{code:04X}");
        }
    }
}
