use xuan_agent::api::{default_limit, list_limit, parse_u32};

#[test]
fn numbers_read_as_std_does() {
    assert_eq!(parse_u32("42"), Some(42));
    assert_eq!(parse_u32("+7"), Some(7));
    assert_eq!(parse_u32("4294967295"), Some(4294967295));
    assert_eq!(parse_u32("4294967296"), None);
    assert_eq!(parse_u32(""), None);
    assert_eq!(parse_u32("+"), None);
    assert_eq!(parse_u32("-1"), None);
    assert_eq!(parse_u32("12a"), None);
    for s in ["0", "007", "+0", "99999999999", " 1"] {
        assert_eq!(parse_u32(s), s.parse::<u32>().ok());
    }
}

#[test]
fn limits() {
    assert_eq!(default_limit(), 10);
    assert_eq!(list_limit(Some("5")), 5);
    assert_eq!(list_limit(Some("five")), 20);
    assert_eq!(list_limit(None), 20);
}
