use idempotent_proxy::text::{
    chars_of, contains, split_filtering, starts_with, str_eq, to_ascii_lowercase, trim_chars,
};
use idempotent_proxy::{err_string, unix_ms, HEADER_IDEMPOTENCY_KEY, HEADER_X_JSON_MASK};

#[test]
fn test_split_filtering() {
    assert_eq!(split_filtering("").len(), 0);
    assert_eq!(split_filtering("args,url"), vec!["args", "url"]);
    assert_eq!(split_filtering("args, url"), vec!["args", "url"]);
}

#[test]
fn split_filtering_drops_empty_entries_and_trims() {
    assert_eq!(split_filtering(",, a ,b,,\t c\u{a0},"), vec!["a", "b", "c"]);
    assert_eq!(split_filtering(" , ").len(), 0);
    assert_eq!(split_filtering("a b"), vec!["a b"]);
    assert_eq!(split_filtering("Origin"), vec!["Origin"]);
}

#[test]
fn trimming_follows_the_standard_library() {
    for s in ["", "  x  ", "\u{2003}x\u{3000}", "\u{85}\u{1680} a b \u{2028}\u{2029}", "\u{200b}x"] {
        let chars: Vec<char> = s.chars().collect();
        let trimmed: String = trim_chars(&chars).into_iter().collect();
        assert_eq!(trimmed, s.trim());
    }
}

#[test]
fn lower_case_prefix_and_infix() {
    assert_eq!(to_ascii_lowercase("Date, Content-TYPE, é"), "date, content-type, é");
    assert!(starts_with("/URL_X", "/URL_"));
    assert!(!starts_with("/UR", "/URL_"));
    assert!(starts_with("abc", ""));
    assert!(contains("text/json; application/json", "application/json"));
    assert!(!contains("application/jso", "application/json"));
    assert!(contains("abc", ""));
    assert!(str_eq("a", "a") && !str_eq("a", "b"));
    assert_eq!(chars_of("héllo"), vec!['h', 'é', 'l', 'l', 'o']);
}

#[test]
fn header_names_and_error_text() {
    assert_eq!(HEADER_IDEMPOTENCY_KEY, "idempotency-key");
    assert_eq!(HEADER_X_JSON_MASK, "x-json-mask");
    assert_eq!(err_string("boom"), "boom");
    assert_eq!(err_string(42), "42");
}

#[test]
fn the_clock_is_past_the_year_2020() {
    assert!(unix_ms() > 1_577_836_800_000);
}
