use xuan_agent::text::{
    after_last_exec, decimal_string, replace_str, signed_decimal_string, to_lowercase, to_uppercase, words_of,
};

#[test]
fn replace_takes_matches_from_the_left() {
    assert_eq!(replace_str("aaa", "aa", "b"), "ba");
    assert_eq!(replace_str("x{tools}y{tools}", "{tools}", "T"), "xTyT");
    assert_eq!(replace_str("none here", "zz", "T"), "none here");
}

#[test]
fn last_piece_after_separator() {
    assert_eq!(after_last_exec("paper:abc", ':'), "abc");
    assert_eq!(after_last_exec("a:b:c", ':'), "c");
    assert_eq!(after_last_exec("plain", ':'), "plain");
    assert_eq!(after_last_exec("ends:", ':'), "");
}

#[test]
fn decimal_numerals() {
    assert_eq!(decimal_string(0), "0");
    assert_eq!(decimal_string(1234567890), "1234567890");
    assert_eq!(decimal_string(u64::MAX), u64::MAX.to_string());
    assert_eq!(signed_decimal_string(-32600), "-32600");
    assert_eq!(signed_decimal_string(i64::MIN), i64::MIN.to_string());
}

#[test]
fn words_split_at_any_whitespace() {
    assert_eq!(words_of(" a\tb\n\nc "), vec!["a".to_string(), "b".to_string(), "c".to_string()]);
    assert!(words_of("   ").is_empty());
}

#[test]
fn case_mapping() {
    assert_eq!(to_lowercase("ÀBC"), "àbc");
    assert_eq!(to_uppercase("straße"), "STRASSE");
}
