use radarpro::cache_keys::{parse_object_key, CacheDate};
use radarpro::radar_types::Timestamp;

#[test]
fn parses_a_valid_volume_key() {
    let v = parse_object_key("2026/09/12/KTLX/KTLX20260912_000110_V06").unwrap();
    assert_eq!(v.icao, "KTLX");
    assert_eq!(v.format_version, 6);
    assert_eq!(v.file_name(), "KTLX20260912_000110_V06");
    let civil = v.start_time.to_civil_utc();
    assert_eq!(civil.year, 2026);
    assert_eq!(civil.month, 9);
    assert_eq!(civil.day, 12);
    assert_eq!(civil.hour, 0);
    assert_eq!(civil.minute, 1);
    assert_eq!(civil.second, 10);
}

#[test]
fn rejects_mdm_companion_objects() {
    assert!(parse_object_key("2026/09/12/KTLX/KTLX20260912_000110_V06_MDM").is_none());
}

#[test]
fn rejects_unsupported_format_version() {
    assert!(parse_object_key("2026/09/12/KTLX/KTLX20260912_000110_V01").is_none());
    assert!(parse_object_key("2026/09/12/KTLX/KTLX20260912_000110_V08").is_none());
    assert!(parse_object_key("2026/09/12/KTLX/KTLX20260912_000110_V19").is_none());
}

#[test]
fn accepts_full_supported_version_range() {
    for v in b'2'..=b'7' {
        let key = format!("2026/09/12/KTLX/KTLX20260912_000110_V0{}", v as char);
        assert!(parse_object_key(&key).is_some(), "V0{} should be accepted", v as char);
    }
}

#[test]
fn rejects_garbage_and_truncated_keys() {
    assert!(parse_object_key("").is_none());
    assert!(parse_object_key("not-a-key-at-all").is_none());
    assert!(parse_object_key("2026/09/12/KTLX/KTLX20260912_000110").is_none());
    assert!(parse_object_key("2026/09/12/KTLX/KTLX2026091_000110_V06").is_none());
    assert!(parse_object_key("2026/09/12/KTLX/ktlx20260912_000110_v06").is_none());
    assert!(parse_object_key("2026/09/12/KTLX/KTLX2026091X_000110_V06").is_none());
}

#[test]
fn rejects_out_of_range_calendar_fields_without_panicking() {
    assert!(parse_object_key("2026/09/12/KTLX/KTLX20269912_999999_V06").is_none());
    assert!(parse_object_key("2026/09/12/KTLX/KTLX20260000_000110_V06").is_none());
}

#[test]
fn key_prefix_is_zero_padded() {
    let date = CacheDate::new(2026, 1, 5);
    assert_eq!(date.key_prefix("KTLX"), "2026/01/05/KTLX/");
    assert_eq!(CacheDate::new(-5, 12, 31).key_prefix("K"), "-005/12/31/K/");
}

#[test]
fn today_utc_is_plausible() {
    let today = CacheDate::today_utc();
    assert!(today.year >= 2024 && today.year < 3000);
    assert!((1..=12).contains(&today.month));
    assert!((1..=31).contains(&today.day));
}

#[test]
fn sorts_chronologically() {
    let a = parse_object_key("2026/09/12/KTLX/KTLX20260912_000110_V06").unwrap();
    let b = parse_object_key("2026/09/12/KTLX/KTLX20260912_000440_V06").unwrap();
    let mut v = vec![b.clone(), a.clone()];
    v.sort();
    assert_eq!(v, vec![a, b]);
}

#[test]
fn keys_without_a_path_and_with_non_ascii_prefixes_still_parse() {
    let v = parse_object_key("KTLX20260912_000110_V02").unwrap();
    assert_eq!(v.file_name(), "KTLX20260912_000110_V02");
    let w = parse_object_key("é/KTLX20240229_235960_V07").unwrap();
    assert_eq!(w.key, "é/KTLX20240229_235960_V07");
    assert_eq!(w.start_time.epoch_millis(), 1_709_251_200_000);
    assert!(parse_object_key("2026/09/12/KTLX/KTLé0260912_000110_V06").is_none());
}

#[test]
fn utc_date_of_takes_the_day_containing_the_instant() {
    let d = CacheDate::utc_date_of(Timestamp::from_epoch_millis(1_789_254_540_000));
    assert_eq!((d.year, d.month, d.day), (2026, 9, 12));
}

#[test]
fn date_of_clock_reading_takes_the_utc_day() {
    let d = CacheDate::date_of_clock_reading(1_789_220_700_000);
    assert_eq!((d.year, d.month, d.day), (2026, 9, 12));
    let epoch = CacheDate::date_of_clock_reading(0);
    assert_eq!((epoch.year, epoch.month, epoch.day), (1970, 1, 1));
    let last_ms_of_day = CacheDate::date_of_clock_reading(86_399_999);
    assert_eq!((last_ms_of_day.year, last_ms_of_day.month, last_ms_of_day.day), (1970, 1, 1));
    let beyond = CacheDate::date_of_clock_reading(i64::MAX as u128 + 1);
    assert_eq!((beyond.year, beyond.month, beyond.day), (1970, 1, 1));
}
