use calendar_rs::time::parse_timestamp;

#[test]
fn parse_epoch() {
    assert_eq!(parse_timestamp("1970-01-01T00:00:00Z"), Some(0));
}

#[test]
fn parse_second_day() {
    assert_eq!(parse_timestamp("1970-01-02T00:00:00Z"), Some(86_400_000));
}

#[test]
fn parse_matches_reference_library() {
    let cases = [
        "1970-01-01T00:00:00Z",
        "1999-12-31T23:59:59Z",
        "2000-02-29T12:00:00Z",
        "2024-03-01T10:00:00Z",
        "2024-03-01T12:00:00Z",
        "2024-12-31T23:59:59.999Z",
        "2031-07-04T01:02:03.5Z",
        "2024-03-01T10:00:00+01:00",
        "2024-03-01T10:00:00-05:30",
        "1970-01-01T00:00:00+01:00",
        "9999-12-31T23:59:59Z",
    ];
    for s in cases {
        let expected = chrono::DateTime::parse_from_rfc3339(s)
            .unwrap()
            .timestamp_millis();
        assert_eq!(parse_timestamp(s), Some(expected), "case {s}");
    }
}

#[test]
fn parse_fraction_truncates_to_millis() {
    assert_eq!(parse_timestamp("1970-01-01T00:00:00.5Z"), Some(500));
    assert_eq!(parse_timestamp("1970-01-01T00:00:00.123Z"), Some(123));
    assert_eq!(parse_timestamp("1970-01-01T00:00:00.123456789Z"), Some(123));
}

#[test]
fn parse_offsets() {
    assert_eq!(
        parse_timestamp("2024-03-01T10:00:00+01:00"),
        parse_timestamp("2024-03-01T09:00:00Z")
    );
    assert_eq!(
        parse_timestamp("2024-03-01T10:00:00-02:00"),
        parse_timestamp("2024-03-01T12:00:00Z")
    );
}

#[test]
fn parse_rejects_malformed() {
    let bad = [
        "",
        "2024-03-01",
        "2024-03-01T10:00:00",
        "2024-03-01 10:00:00Z",
        "2024-13-01T10:00:00Z",
        "2024-00-01T10:00:00Z",
        "2024-02-30T10:00:00Z",
        "2023-02-29T10:00:00Z",
        "2024-03-00T10:00:00Z",
        "2024-03-01T24:00:00Z",
        "2024-03-01T10:60:00Z",
        "2024-03-01T10:00:60Z",
        "1969-12-31T23:59:59Z",
        "2024-03-01T10:00:00.Z",
        "2024-03-01T10:00:00.1234567890Z",
        "2024-03-01T10:00:00+25:00",
        "2024-03-01T10:00:00+01:60",
        "2024-03-01T10:00:00X",
        "2024-03-01T10:00:00Zx",
        "202A-03-01T10:00:00Z",
    ];
    for s in bad {
        assert_eq!(parse_timestamp(s), None, "case {s:?}");
    }
}

#[test]
fn parse_leap_years() {
    assert!(parse_timestamp("2024-02-29T00:00:00Z").is_some());
    assert!(parse_timestamp("2000-02-29T00:00:00Z").is_some());
    assert_eq!(parse_timestamp("1900-02-29T00:00:00Z"), None);
}
