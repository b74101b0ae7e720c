use heartbeat_store::text::{is_before, is_same};
use heartbeat_store::timestamp::checked_timestamp;
use heartbeat_store::{
    db_path, parse_rfc3339, truncate_output, StoreError, Timestamp, MAX_OUTPUT_BYTES,
    TRUNCATED_MARKER,
};

#[test]
fn truncate_output_exactly_at_limit() {
    let exact = "x".repeat(MAX_OUTPUT_BYTES);
    let result = truncate_output(&exact);
    assert_eq!(result.len(), MAX_OUTPUT_BYTES);
    assert!(!result.contains(TRUNCATED_MARKER));
}

#[test]
fn truncate_output_one_byte_over() {
    let over = "x".repeat(MAX_OUTPUT_BYTES + 1);
    let result = truncate_output(&over);
    assert!(result.ends_with(TRUNCATED_MARKER));
    assert!(result.len() <= MAX_OUTPUT_BYTES);
}

#[test]
fn truncate_output_multibyte_boundary() {
    // Build a string of multi-byte chars that crosses the cutoff boundary
    // Each '€' is 3 bytes in UTF-8
    let euro_count = MAX_OUTPUT_BYTES / 3 + 10;
    let input: String = "€".repeat(euro_count);
    let result = truncate_output(&input);
    // Must be valid UTF-8 and end with the marker
    assert!(result.ends_with(TRUNCATED_MARKER));
    // Verify it's valid UTF-8 (would panic if not)
    let _ = result.as_str();
}

#[test]
fn truncate_output_empty_string() {
    let result = truncate_output("");
    assert_eq!(result, "");
}

#[test]
fn truncate_output_single_char() {
    let result = truncate_output("x");
    assert_eq!(result, "x");
}

#[test]
fn truncate_output_shorter_than_marker() {
    let result = truncate_output("short");
    assert_eq!(result, "short");
    assert!(!result.contains(TRUNCATED_MARKER));
}

#[test]
fn truncate_output_4byte_utf8_boundary() {
    // '𝄞' is 4 bytes in UTF-8: test char boundary handling with 4-byte chars
    let count = MAX_OUTPUT_BYTES / 4 + 10;
    let input: String = "𝄞".repeat(count);
    let result = truncate_output(&input);
    assert!(result.ends_with(TRUNCATED_MARKER));
    // Must remain valid UTF-8
    let _ = result.as_str();
}

#[test]
fn cut_output_has_the_longest_prefix_that_fits() {
    let ascii = truncate_output(&"x".repeat(MAX_OUTPUT_BYTES + 1));
    assert_eq!(ascii, "x".repeat(16_369) + TRUNCATED_MARKER);
    let wide = truncate_output(&"𝄞".repeat(MAX_OUTPUT_BYTES));
    assert_eq!(wide, "𝄞".repeat(4_092) + TRUNCATED_MARKER);
}

#[test]
fn cutting_twice_is_cutting_once() {
    let once = truncate_output(&"€uro".repeat(MAX_OUTPUT_BYTES));
    assert_eq!(truncate_output(&once), once);
}

#[test]
fn timestamp_has_the_range_of_a_moment() {
    assert!(Timestamp::new(8_210_266_876_799, 999_999_999).is_some());
    assert!(Timestamp::new(8_210_266_876_800, 0).is_none());
    assert!(Timestamp::new(-8_334_601_228_800, 0).is_some());
    assert!(Timestamp::new(-8_334_601_228_801, 0).is_none());
    assert!(Timestamp::new(59, 1_999_999_999).is_some());
    assert!(Timestamp::new(-1, 1_999_999_999).is_some());
    assert!(Timestamp::new(58, 1_000_000_000).is_none());
    assert!(Timestamp::new(59, 2_000_000_000).is_none());
    for (secs, nanos) in [
        (8_210_266_876_799i64, 999_999_999u32),
        (8_210_266_876_799, 1_999_999_999),
        (8_210_266_876_800, 0),
        (-8_334_601_228_800, 0),
        (-8_334_601_228_801, 0),
        (-1, 1_500_000_000),
        (-2, 1_500_000_000),
        (i64::MIN, 0),
        (i64::MAX, 0),
    ] {
        assert_eq!(
            Timestamp::new(secs, nanos).is_some(),
            chrono::DateTime::from_timestamp(secs, nanos).is_some()
        );
    }
}

#[test]
fn timestamp_texts() {
    for (secs, nanos, text) in [
        (0i64, 0u32, "1970-01-01T00:00:00+00:00"),
        (0, 120_000_000, "1970-01-01T00:00:00.120+00:00"),
        (0, 1_000, "1970-01-01T00:00:00.000001+00:00"),
        (0, 1, "1970-01-01T00:00:00.000000001+00:00"),
        (-62_167_219_200, 0, "0000-01-01T00:00:00+00:00"),
        (253_402_300_799, 999_999_999, "9999-12-31T23:59:59.999999999+00:00"),
        (1_435_708_799, 1_250_000_000, "2015-06-30T23:59:60.250+00:00"),
    ] {
        let timestamp = Timestamp::new(secs, nanos).unwrap();
        assert_eq!(timestamp.to_rfc3339(), text);
        assert_eq!(parse_rfc3339(text), Ok(timestamp));
    }
    let before = Timestamp::new(-62_167_219_201, 0).unwrap();
    assert_eq!(before.to_rfc3339(), "-0001-12-31T23:59:59+00:00");
    assert!(parse_rfc3339("-0001-12-31T23:59:59+00:00").is_err());
}

#[test]
fn rfc3339_texts_read_in_utc() {
    assert_eq!(
        parse_rfc3339("1996-12-19T16:39:57-08:00"),
        Ok(Timestamp::new(851_042_397, 0).unwrap())
    );
    assert_eq!(parse_rfc3339("1970-01-01T00:00:05.25Z"), Ok(Timestamp::new(5, 250_000_000).unwrap()));
    assert_eq!(
        parse_rfc3339("not a time"),
        Err(StoreError::InvalidTimestamp { raw: "not a time".to_string() })
    );
}

#[test]
fn checked_timestamp_keeps_what_was_read() {
    let moment = Timestamp::new(7, 8).unwrap();
    assert_eq!(checked_timestamp("raw", Some(moment)), Ok(moment));
    assert_eq!(
        checked_timestamp("raw", None),
        Err(StoreError::InvalidTimestamp { raw: "raw".to_string() })
    );
}

#[test]
fn texts_are_ordered_byte_by_byte() {
    assert!(is_before("", "a"));
    assert!(is_before("a", "ab"));
    assert!(is_before("Z", "a"));
    assert!(is_before("z", "é"));
    assert!(!is_before("ab", "ab"));
    assert!(!is_before("b", "ab"));
    assert!(is_same("ok", "ok"));
    assert!(!is_same("ok", "OK"));
}

#[test]
fn history_lies_below_the_workspace() {
    let workspace = vec!["home".to_string(), "me".to_string()];
    assert_eq!(db_path(&workspace), ["home", "me", "heartbeat", "history.db"]);
    assert_eq!(db_path(&Vec::new()), ["heartbeat", "history.db"]);
}
