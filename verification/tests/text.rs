use firefam::text::chars_of;
use firefam::text::composer_filter;
use firefam::text::is_whitespace;
use firefam::text::str_equal;
use firefam::text::str_lex_less;
use firefam::text::str_starts_with;
use firefam::text::trim_str;

#[test]
fn whitespace_matches_char_is_whitespace() {
    for c in ['a', ' ', '\t', '\n', '\u{85}', '\u{a0}', '\u{2003}', '\u{3000}', '\u{200b}', 'é'] {
        assert_eq!(is_whitespace(c), c.is_whitespace(), "char {c:?}");
    }
}

#[test]
fn lexicographic_order_matches_str_order() {
    let words = ["", "a", "ab", "b", "Zed", "alpha", "é", "z"];
    for a in words {
        for b in words {
            assert_eq!(str_lex_less(a, b), a < b, "{a:?} < {b:?}");
        }
    }
}

#[test]
fn chars_prefix_and_equality() {
    assert_eq!(chars_of("héllo"), vec!['h', 'é', 'l', 'l', 'o']);
    assert!(str_starts_with("model", "mo"));
    assert!(!str_starts_with("mo", "model"));
    assert!(str_starts_with("x", ""));
    assert!(str_equal("init", "init"));
    assert!(!str_equal("init", "ini"));
}

#[test]
fn trim_removes_surrounding_whitespace() {
    assert_eq!(trim_str("  fa \t"), "fa");
    assert_eq!(trim_str("   "), "");
    assert_eq!(trim_str("a b"), "a b");
}

#[test]
fn composer_filter_takes_first_token_of_first_line() {
    assert_eq!(composer_filter("/clear something"), "clear");
    assert_eq!(composer_filter("/  mo"), "mo");
    assert_eq!(composer_filter("/in\nsecond line"), "in");
    assert_eq!(composer_filter("/"), "");
    assert_eq!(composer_filter("hello /init"), "");
    assert_eq!(composer_filter(""), "");
    assert_eq!(composer_filter("\n/init"), "");
    assert_eq!(composer_filter("/IN\r\n"), "IN");
}
