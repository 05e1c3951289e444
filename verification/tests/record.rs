use sysml_core::record::{
    parse_basic_string, push_escaped, push_kv_string, push_kv_string_array, split_top_level,
    days_to_ymd, generate_record_id, iso8601_from_secs, now_iso8601, record_filename, record_id_at, short_hash,
    RecordError,
};

#[test]
fn record_error_display() {
    let e = RecordError::MissingField("meta".into());
    assert_eq!(e.to_string(), "missing required field: meta");

    let e = RecordError::InvalidValue {
        key: "x".into(),
        detail: "bad".into(),
    };
    assert_eq!(e.to_string(), "invalid value for 'x': bad");

    let e = RecordError::ParseError("oops".into());
    assert_eq!(e.to_string(), "TOML parse error: oops");
}

#[test]
fn generate_id_format() {
    let id = generate_record_id("lint", "check", "alice");
    // Should start with tool-type-
    assert!(id.starts_with("lint-check-"));
    // Should end with author-4hexchars
    let parts: Vec<&str> = id.rsplitn(2, '-').collect();
    assert_eq!(parts[0].len(), 4);
    assert!(parts[0].chars().all(|c| c.is_ascii_hexdigit()));
    assert!(id.contains("alice"));
}

#[test]
fn record_filename_format() {
    assert_eq!(
        record_filename("lint-check-20260309-alice-ab12"),
        "lint-check-20260309-alice-ab12.toml"
    );
}

#[test]
fn now_iso8601_format() {
    let ts = now_iso8601();
    // Basic structure: YYYY-MM-DDTHH:MM:SSZ
    assert_eq!(ts.len(), 20);
    assert_eq!(&ts[4..5], "-");
    assert_eq!(&ts[7..8], "-");
    assert_eq!(&ts[10..11], "T");
    assert_eq!(&ts[13..14], ":");
    assert_eq!(&ts[16..17], ":");
    assert!(ts.ends_with('Z'));
}

#[test]
fn short_hash_deterministic() {
    let a = short_hash("hello");
    let b = short_hash("hello");
    assert_eq!(a, b);
    assert_eq!(a.len(), 4);

    // Different inputs produce different hashes (probabilistically).
    let c = short_hash("world");
    assert_ne!(a, c);
}

#[test]
fn days_to_ymd_known_dates() {
    // 1970-01-01 = day 0
    assert_eq!(days_to_ymd(0), (1970, 1, 1));
    // 2000-01-01 = day 10957
    assert_eq!(days_to_ymd(10957), (2000, 1, 1));
    // 2026-03-09 = day 20521
    assert_eq!(days_to_ymd(20521), (2026, 3, 9));
}

#[test]
fn iso8601_of_known_instants() {
    assert_eq!(iso8601_from_secs(0), "1970-01-01T00:00:00Z");
    assert_eq!(iso8601_from_secs(1773066600), "2026-03-09T14:30:00Z");
    assert_eq!(iso8601_from_secs(951782400), "2000-02-29T00:00:00Z");
}

#[test]
fn record_id_from_fixed_timestamp() {
    let id = record_id_at("lint", "check", "alice", "2026-03-09T14:30:00Z");
    assert!(id.starts_with("lint-check-20260309143000-alice-"));
    let expected_hash = short_hash("lintcheck2026-03-09T14:30:00Zalice");
    assert!(id.ends_with(&expected_hash));
    assert_eq!(id.len(), "lint-check-20260309143000-alice-".len() + 4);
}

#[test]
fn short_hash_known_value() {
    // FNV-1a of the empty input is the offset basis 0xcbf29ce484222325.
    assert_eq!(short_hash(""), "2325");
}

#[test]
fn days_to_ymd_leap_days() {
    assert_eq!(days_to_ymd(11016), (2000, 2, 29));
    assert_eq!(days_to_ymd(19417), (2023, 3, 1));
}

#[test]
fn escaped_strings_and_key_lines() {
    let mut out = String::new();
    push_kv_string(&mut out, "id", "a\"b\\c\nd\te\r");
    assert_eq!(out, "id = \"a\\\"b\\\\c\\nd\\te\\r\"\n");
    let mut arr = String::new();
    push_kv_string_array(&mut arr, "satisfies", &vec!["Req::A".to_string(), "q\"x".to_string()]);
    assert_eq!(arr, "satisfies = [\"Req::A\", \"q\\\"x\"]\n");
    let mut empty = String::new();
    push_kv_string_array(&mut empty, "none", &Vec::new());
    assert_eq!(empty, "none = []\n");
}

#[test]
fn basic_string_decoding() {
    assert_eq!(parse_basic_string("\"plain\"", 0).unwrap(), "plain");
    assert_eq!(parse_basic_string("\"a\\\"b\\\\c\\nd\\te\\r\"", 3).unwrap(), "a\"b\\c\nd\te\r");
    match parse_basic_string("\"open", 4) {
        Err(RecordError::ParseError(m)) => assert_eq!(m, "unterminated string at line 5"),
        other => panic!("unexpected {other:?}"),
    }
    match parse_basic_string("\"bad \\q\"", 0) {
        Err(RecordError::ParseError(m)) => assert_eq!(m, "unknown escape '\\q' at line 1"),
        other => panic!("unexpected {other:?}"),
    }
    match parse_basic_string("\"end\\\"", 1) {
        Err(RecordError::ParseError(m)) => assert_eq!(m, "trailing backslash at line 2"),
        other => panic!("unexpected {other:?}"),
    }
}

#[test]
fn escaping_round_trips_through_basic_strings() {
    for text in ["", "x", "quote \" and backslash \\", "lines\nand\ttabs\r"] {
        let mut out = String::new();
        out.push('"');
        push_escaped(&mut out, text);
        out.push('"');
        assert_eq!(parse_basic_string(&out, 0).unwrap(), text);
    }
}

#[test]
fn split_respects_nesting_and_quotes() {
    assert_eq!(
        split_top_level("1, [2, 3], {a = 4, b = 5}, \"x, y\"", ','),
        vec!["1".to_string(), " [2, 3]".to_string(), " {a = 4, b = 5}".to_string(), " \"x, y\"".to_string()]
    );
    assert_eq!(split_top_level("a,,b,", ','), vec!["a".to_string(), "".to_string(), "b".to_string()]);
    assert_eq!(split_top_level("\"a\\\",b\",c", ','), vec!["\"a\\\",b\"".to_string(), "c".to_string()]);
    assert!(split_top_level("", ',').is_empty());
}
