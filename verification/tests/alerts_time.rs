use radarpro::alerts_time::{parse_rfc3339, TimeParseError};

#[test]
fn parses_real_nws_timestamps_matching_independent_ground_truth() {
    let cases: &[(&str, i64)] = &[
        ("2026-09-12T18:09:00-05:00", 1_789_254_540_000),
        ("2026-09-12T23:13:09+00:00", 1_789_254_789_000),
        ("1970-01-01T00:00:00Z", 0),
        ("2024-06-01T00:03:53.941Z", 1_717_200_233_941),
        ("2026-09-13T03:30:00-08:00", 1_789_299_000_000),
    ];
    for (input, expected_millis) in cases {
        let ts = parse_rfc3339(input).unwrap_or_else(|e| panic!("{input}: {e:?}"));
        assert_eq!(ts.epoch_millis(), *expected_millis, "input: {input}");
    }
}

#[test]
fn rejects_too_short_input_without_panicking() {
    assert!(matches!(parse_rfc3339("2026-09-12"), Err(TimeParseError::TooShort { .. })));
}

#[test]
fn rejects_non_digit_fields() {
    assert!(matches!(
        parse_rfc3339("202X-09-12T18:09:00Z"),
        Err(TimeParseError::NonDigit { .. })
    ));
}

#[test]
fn rejects_out_of_range_month() {
    assert!(matches!(
        parse_rfc3339("2026-13-12T18:09:00Z"),
        Err(TimeParseError::OutOfRange { field: "month", .. })
    ));
}

#[test]
fn rejects_missing_offset() {
    assert!(matches!(
        parse_rfc3339("2026-09-12T18:09:00X"),
        Err(TimeParseError::InvalidOffset { .. })
    ));
}

#[test]
fn rejects_malformed_offset_sign_only() {
    assert!(matches!(
        parse_rfc3339("2026-09-12T18:09:00+05"),
        Err(TimeParseError::InvalidOffset { .. })
    ));
}

#[test]
fn never_panics_on_arbitrary_short_garbage() {
    for s in ["", "z", "\u{0}", "----------------T::Z", "🎉🎉🎉🎉🎉🎉🎉🎉🎉🎉"] {
        let _ = parse_rfc3339(s);
    }
}

#[test]
fn fractional_seconds_are_truncated_or_padded_to_milliseconds() {
    assert_eq!(parse_rfc3339("1970-01-01T00:00:00.5Z").unwrap().epoch_millis(), 500);
    assert_eq!(parse_rfc3339("1970-01-01T00:00:00.25z").unwrap().epoch_millis(), 250);
    assert_eq!(parse_rfc3339("1970-01-01T00:00:00.123999Z").unwrap().epoch_millis(), 123);
    assert_eq!(
        parse_rfc3339("1970-01-01T00:00:00.Z"),
        Err(TimeParseError::NonDigit {
            value: "1970-01-01T00:00:00.Z".to_string(),
            field: "fractional seconds"
        })
    );
}

#[test]
fn every_error_kind_names_its_cause() {
    assert_eq!(
        parse_rfc3339("2026/09-12T18:09:00Z"),
        Err(TimeParseError::UnexpectedChar {
            value: "2026/09-12T18:09:00Z".to_string(),
            offset: 4,
            expected: '-'
        })
    );
    assert_eq!(
        parse_rfc3339("2026-09-12T24:09:00Z"),
        Err(TimeParseError::OutOfRange {
            value: "2026-09-12T24:09:00Z".to_string(),
            field: "hour",
            found: 24
        })
    );
    assert!(matches!(
        parse_rfc3339("2026-09-12T18:09:00+0x:00"),
        Err(TimeParseError::NonDigit { field: "offset hour", .. })
    ));
    assert!(matches!(
        parse_rfc3339("2026-09-12T18:09:00+24:00"),
        Err(TimeParseError::InvalidOffset { .. })
    ));
    assert!(matches!(
        parse_rfc3339("2026-09-12T18:09:00Zjunk"),
        Err(TimeParseError::InvalidOffset { .. })
    ));
    assert!(matches!(
        parse_rfc3339("🎉🎉🎉🎉🎉"),
        Err(TimeParseError::NonDigit { field: "year", .. })
    ));
    assert_eq!(parse_rfc3339("2026-09-12T18:09:60Z").unwrap().epoch_millis(), 1_789_236_600_000);
}
