use oops::number::{i64_text, octal_text, parse_u64_text, u64_text};
use oops::service::hook_timeout_ms;

#[test]
fn numbers_render() {
    assert_eq!(u64_text(0), "0");
    assert_eq!(u64_text(1234), "1234");
    assert_eq!(u64_text(u64::MAX), u64::MAX.to_string());
    assert_eq!(i64_text(-5), "-5");
    assert_eq!(i64_text(i64::MIN), i64::MIN.to_string());
    assert_eq!(octal_text(0o100644), "100644");
    assert_eq!(octal_text(0), "0");
}

#[test]
fn numbers_parse() {
    assert_eq!(parse_u64_text("+12"), Some(12));
    assert_eq!(parse_u64_text("007"), Some(7));
    assert_eq!(parse_u64_text(""), None);
    assert_eq!(parse_u64_text("+"), None);
    assert_eq!(parse_u64_text("-1"), None);
    assert_eq!(parse_u64_text(" 1"), None);
    assert_eq!(parse_u64_text("1a"), None);
    assert_eq!(parse_u64_text("18446744073709551615"), Some(u64::MAX));
    assert_eq!(parse_u64_text("18446744073709551616"), None);
    assert_eq!(parse_u64_text(&u64_text(987654321)), Some(987654321));
}

#[test]
fn hook_timeout() {
    assert_eq!(hook_timeout_ms(None), 200);
    assert_eq!(hook_timeout_ms(Some("350".to_string())), 350);
    assert_eq!(hook_timeout_ms(Some("fast".to_string())), 200);
}
