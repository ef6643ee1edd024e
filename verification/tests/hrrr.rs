use radarpro::hrrr_error::HrrrError;
use radarpro::hrrr_idx::{byte_range, find_message, parse_idx};
use radarpro::hrrr_keys::{idx_key, object_key, object_url, ForecastHour, Product, RunReference};

const REAL_HRRR_IDX_EXCERPT: &str = "64:31850743:d=2026091212:TMP:surface:anl:\n\
65:32605283:d=2026091212:SPFH:surface:anl:\n\
66:32916423:d=2026091212:DPT:surface:anl:\n\
67:33509886:d=2026091212:RH:surface:anl:\n\
68:33940274:d=2026091212:UGRD:10 m above ground:anl:\n\
69:34320715:d=2026091212:VGRD:10 m above ground:anl:\n\
70:34720313:d=2026091212:SNOD:surface:anl:\n\
71:34722112:d=2026091212:TMP:2 m above ground:anl:\n\
72:35918739:d=2026091212:POT:2 m above ground:anl:\n\
73:37094201:d=2026091212:SPFH:2 m above ground:anl:\n";

#[test]
fn parses_a_real_captured_idx_excerpt() {
    let entries = parse_idx("https://example.com/x.idx", REAL_HRRR_IDX_EXCERPT).unwrap();
    assert_eq!(entries.len(), 10);
    assert_eq!(entries[7].message_number, 71);
    assert_eq!(entries[7].offset, 34_722_112);
    assert_eq!(entries[7].variable, "TMP");
    assert_eq!(entries[7].level, "2 m above ground");
    assert_eq!(entries[7].rest, "anl:");
}

#[test]
fn find_message_locates_tmp_2m() {
    let entries = parse_idx("u", REAL_HRRR_IDX_EXCERPT).unwrap();
    let found = find_message(&entries, "TMP", "2 m above ground").unwrap();
    assert_eq!(found.message_number, 71);
}

#[test]
fn find_message_returns_none_for_absent_field() {
    let entries = parse_idx("u", REAL_HRRR_IDX_EXCERPT).unwrap();
    assert!(find_message(&entries, "TMP", "surface").is_some());
    assert!(find_message(&entries, "NOSUCHVAR", "2 m above ground").is_none());
}

#[test]
fn byte_range_uses_next_entrys_offset_when_not_last() {
    let entries = parse_idx("u", REAL_HRRR_IDX_EXCERPT).unwrap();
    let (start, end) = byte_range("u", &entries, 7, None).unwrap();
    assert_eq!(start, 34_722_112);
    assert_eq!(end, 35_918_739);
    assert_eq!(end - start, 1_196_627);
}

#[test]
fn byte_range_for_the_last_message_needs_content_length() {
    let entries = parse_idx("u", REAL_HRRR_IDX_EXCERPT).unwrap();
    let last = entries.len() - 1;
    let err = byte_range("u", &entries, last, None).unwrap_err();
    assert!(matches!(err, HrrrError::MissingContentLength { .. }));

    let (start, end) = byte_range("u", &entries, last, Some(50_000_000)).unwrap();
    assert_eq!(start, 37_094_201);
    assert_eq!(end, 50_000_000);
}

#[test]
fn malformed_line_is_a_structured_error_not_a_panic() {
    let err = parse_idx("https://example.com/x.idx", "not a valid idx line").unwrap_err();
    match err {
        HrrrError::MalformedIdxLine { line_number, .. } => assert_eq!(line_number, 1),
        other => panic!("expected MalformedIdxLine, got {other:?}"),
    }
}

#[test]
fn blank_lines_are_skipped() {
    let text = "1:0:d=2026091212:VIS:surface:anl:\n\n\n";
    let entries = parse_idx("u", text).unwrap();
    assert_eq!(entries.len(), 1);
}

#[test]
fn hrrr_lines_have_no_ens_annotation_unlike_gefs() {
    let entries = parse_idx("u", REAL_HRRR_IDX_EXCERPT).unwrap();
    assert!(entries.iter().all(|e| !e.rest.contains("ENS")));
}

#[test]
fn idx_lines_accept_crlf_plus_signs_and_missing_rest() {
    let text = "+5:+10:d=1:A:B\r\n\r\n6:20:d=1:C:D:x:y:z\r\r\n";
    let entries = parse_idx("u", text).unwrap();
    assert_eq!(entries.len(), 2);
    assert_eq!(entries[0].message_number, 5);
    assert_eq!(entries[0].offset, 10);
    assert_eq!(entries[0].rest, "");
    assert_eq!(entries[1].rest, "x:y:z");
}

#[test]
fn idx_malformed_line_reports_its_own_number_and_text() {
    let text = "1:0:d:A:B:\n\n3:x:d:A:B:\n4:0:d:A:B:\n";
    match parse_idx("file", text).unwrap_err() {
        HrrrError::MalformedIdxLine { url, line_number, line } => {
            assert_eq!(url, "file");
            assert_eq!(line_number, 3);
            assert_eq!(line, "3:x:d:A:B:");
        }
        other => panic!("unexpected {other:?}"),
    }
    assert!(parse_idx("u", "1:0:d:A:\n").is_err());
    assert!(parse_idx("u", "4294967296:0:d:A:B\n").is_err());
    assert!(parse_idx("u", "4294967295:18446744073709551615:d:A:B\n").is_ok());
}

#[test]
fn object_key_matches_the_empirically_verified_real_layout() {
    let run = RunReference::new(2026, 9, 12, 12);
    let key = object_key(run, Product::CONUS_SURFACE, ForecastHour(0));
    assert_eq!(key, "hrrr.20260912/conus/hrrr.t12z.wrfsfcf00.grib2");
}

#[test]
fn idx_key_appends_dot_idx() {
    let run = RunReference::new(2026, 9, 12, 12);
    let key = idx_key(run, Product::CONUS_SURFACE, ForecastHour(3));
    assert_eq!(key, "hrrr.20260912/conus/hrrr.t12z.wrfsfcf03.grib2.idx");
}

#[test]
fn forecast_hour_is_zero_padded_to_two_digits_not_three() {
    assert_eq!(ForecastHour(0).file_suffix(), "f00");
    assert_eq!(ForecastHour(9).file_suffix(), "f09");
    assert_eq!(ForecastHour(18).file_suffix(), "f18");
    assert_eq!(ForecastHour(123).file_suffix(), "f123");
}

#[test]
fn object_url_joins_cleanly_regardless_of_trailing_slash() {
    assert_eq!(object_url("https://example.com", "a/b"), "https://example.com/a/b");
    assert_eq!(object_url("https://example.com/", "a/b"), "https://example.com/a/b");
    assert_eq!(object_url("https://example.com//", "a/b"), "https://example.com/a/b");
}

#[test]
fn run_reference_displays_run_hour_and_date() {
    let run = RunReference::new(2026, 9, 12, 12);
    assert_eq!(run.to_string(), "12Z 20260912");
    assert_eq!(RunReference::new(987, 1, 2, 3).run_prefix(), "hrrr.09870102/conus/");
}
