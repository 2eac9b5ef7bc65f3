use disk_space_optimizer::text::first_token;
use disk_space_optimizer::text::i32_to_string;
use disk_space_optimizer::text::lines_of;
use disk_space_optimizer::text::parse_u32;
use disk_space_optimizer::text::trim;
use disk_space_optimizer::text::u32_to_string;

#[test]
fn trim_strips_surrounding_ascii_whitespace() {
    assert_eq!(trim("  hello \t\r\n"), "hello");
    assert_eq!(trim("hello"), "hello");
    assert_eq!(trim("   "), "");
    assert_eq!(trim(""), "");
    assert_eq!(trim("a b"), "a b");
}

#[test]
fn parse_accepts_exactly_the_decimal_strings_that_fit() {
    assert_eq!(parse_u32("0"), Some(0));
    assert_eq!(parse_u32("7"), Some(7));
    assert_eq!(parse_u32("4294967295"), Some(u32::MAX));
    assert_eq!(parse_u32("4294967296"), None);
    assert_eq!(parse_u32(""), None);
    assert_eq!(parse_u32("12a"), None);
    assert_eq!(parse_u32("-1"), None);
    assert_eq!(parse_u32(" 1"), None);
    assert_eq!(parse_u32("007"), Some(7));
    assert_eq!(parse_u32("+5"), Some(5));
    assert_eq!(parse_u32("+"), None);
    assert_eq!(parse_u32("++1"), None);
}

#[test]
fn decimal_formatting_round_trips() {
    assert_eq!(u32_to_string(0), "0");
    assert_eq!(u32_to_string(7), "7");
    assert_eq!(u32_to_string(30), "30");
    assert_eq!(u32_to_string(4294967295), "4294967295");
    assert_eq!(i32_to_string(-5), "-5");
    assert_eq!(i32_to_string(0), "0");
    assert_eq!(i32_to_string(i32::MIN), "-2147483648");
    assert_eq!(i32_to_string(i32::MAX), "2147483647");
    assert_eq!(parse_u32(&u32_to_string(123456789)), Some(123456789));
}

#[test]
fn line_splitting_matches_newline_count() {
    assert_eq!(lines_of("a\nb"), vec!["a".to_string(), "b".to_string()]);
    assert_eq!(lines_of("a\n\nb"), vec!["a".to_string(), "".to_string(), "b".to_string()]);
    assert_eq!(lines_of(""), vec!["".to_string()]);
    assert_eq!(lines_of("\n"), vec!["".to_string(), "".to_string()]);
    assert_eq!(lines_of("one line"), vec!["one line".to_string()]);
}

#[test]
fn first_token_skips_leading_whitespace_and_stops_at_the_next() {
    assert_eq!(first_token("  foo bar"), "foo");
    assert_eq!(first_token("foo"), "foo");
    assert_eq!(first_token("   "), "");
    assert_eq!(first_token(""), "");
    assert_eq!(first_token("vim.x86_64  2:9.0  updates"), "vim.x86_64");
}
