use seedrelay::env_file::{env_value, parse_env};

#[test]
fn parses_entries_skipping_blanks_and_comments() {
    let entries = parse_env("# comment\n\nhost = 0.0.0.0\r\nport=9000\nbad line\nmodel=\"a b\"\nkey='x'\nq=\"\n");
    assert_eq!(
        entries,
        vec![
            ("host".to_string(), "0.0.0.0".to_string()),
            ("port".to_string(), "9000".to_string()),
            ("model".to_string(), "a b".to_string()),
            ("key".to_string(), "x".to_string()),
            ("q".to_string(), "\"".to_string()),
        ]
    );
    assert!(parse_env("").is_empty());
}

#[test]
fn later_entries_override_earlier_ones() {
    let entries = parse_env("a=1\nb=2\na=3");
    assert_eq!(env_value(&entries, "a"), Some("3".to_string()));
    assert_eq!(env_value(&entries, "b"), Some("2".to_string()));
    assert_eq!(env_value(&entries, "c"), None);
}
