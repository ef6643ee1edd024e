//! Decisions of the HRRR bucket client.

use radarpro::calendar::previous_day;
use radarpro::hrrr_client::{
    classify_status, current_utc_hour, existence_decision, utc_hour_of_millis, listing_contains, listing_step, previous_run,
    range_header_value, ExistenceDecision,
};
use radarpro::hrrr_error::HrrrError;
use radarpro::hrrr_keys::RunReference;
use radarpro::list_objects::ListObjectsPage;

#[test]
fn current_utc_hour_is_a_plausible_value() {
    let h = current_utc_hour();
    assert!(h < 24);
}

#[test]
fn statuses_map_to_errors() {
    assert!(classify_status("u", 200).is_ok());
    assert!(classify_status("u", 206).is_ok());
    assert_eq!(classify_status("u", 404), Err(HrrrError::NotFound { url: "u".into(), status: 404 }));
    assert_eq!(classify_status("u", 503), Err(HrrrError::HttpStatus { url: "u".into(), status: 503 }));
    assert_eq!(classify_status("u", 302), Err(HrrrError::HttpStatus { url: "u".into(), status: 302 }));
}

#[test]
fn range_header_is_inclusive_of_the_last_byte() {
    assert_eq!(range_header_value(34_722_112, 35_918_739), "bytes=34722112-35918738");
    assert_eq!(range_header_value(0, 0), "bytes=0-0");
}

#[test]
fn listing_membership_is_exact() {
    let keys = vec!["hrrr.20260912/conus/hrrr.t12z.wrfsfcf00.grib2".to_string()];
    assert!(listing_contains(&keys, "hrrr.20260912/conus/hrrr.t12z.wrfsfcf00.grib2"));
    assert!(!listing_contains(&keys, "hrrr.20260912/conus/hrrr.t12z.wrfsfcf00.grib2.idx"));
}

#[test]
fn listing_pages_continue_only_with_a_token() {
    let mut all = Vec::new();
    let next = listing_step(
        &mut all,
        ListObjectsPage { keys: vec!["a".into()], is_truncated: true, next_continuation_token: Some("t".into()) },
    );
    assert_eq!(next.as_deref(), Some("t"));
    let next = listing_step(
        &mut all,
        ListObjectsPage { keys: vec!["b".into()], is_truncated: true, next_continuation_token: None },
    );
    assert_eq!(next, None);
    let next = listing_step(
        &mut all,
        ListObjectsPage { keys: vec![], is_truncated: false, next_continuation_token: Some("ignored".into()) },
    );
    assert_eq!(next, None);
    assert_eq!(all, vec!["a".to_string(), "b".to_string()]);
}

#[test]
fn existence_checks_retry_errors_twice() {
    assert_eq!(existence_decision(1, false), ExistenceDecision::Answered);
    assert_eq!(existence_decision(1, true), ExistenceDecision::RetryAfter(300));
    assert_eq!(existence_decision(2, true), ExistenceDecision::RetryAfter(300));
    assert_eq!(existence_decision(3, true), ExistenceDecision::GiveUp);
}

#[test]
fn the_run_walk_crosses_midnight_and_month_and_year_ends() {
    let r = previous_run(RunReference::new(2026, 9, 12, 5));
    assert_eq!(r, RunReference::new(2026, 9, 12, 4));
    assert_eq!(previous_run(RunReference::new(2026, 9, 1, 0)), RunReference::new(2026, 8, 31, 23));
    assert_eq!(previous_run(RunReference::new(2026, 1, 1, 0)), RunReference::new(2025, 12, 31, 23));
    assert_eq!(previous_run(RunReference::new(2024, 3, 1, 0)), RunReference::new(2024, 2, 29, 23));
    assert_eq!(previous_run(RunReference::new(2100, 3, 1, 0)), RunReference::new(2100, 2, 28, 23));
    assert_eq!(previous_day(2000, 3, 1), (2000, 2, 29));
}

#[test]
fn utc_hour_of_millis_takes_the_hour_of_the_day() {
    assert_eq!(utc_hour_of_millis(0), 0);
    assert_eq!(utc_hour_of_millis(3_599_999), 0);
    assert_eq!(utc_hour_of_millis(3_600_000), 1);
    // 2026-09-12 13:45:00 UTC
    assert_eq!(utc_hour_of_millis(1_789_220_700_000), 13);
    assert_eq!(utc_hour_of_millis(86_400_000 + 23 * 3_600_000), 23);
}
