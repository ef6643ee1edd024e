use radarpro::calendar::{civil_from_days, days_from_civil};
use radarpro::radar_types::{MomentKind, Timestamp};

#[test]
fn timestamp_from_epoch_millis_round_trips() {
    let ts = Timestamp::from_epoch_millis(1_717_200_000_000);
    assert_eq!(ts.epoch_millis(), 1_717_200_000_000);
}

#[test]
fn timestamp_epoch_is_1970_01_01() {
    let ts = Timestamp::from_epoch_millis(0);
    let civil = ts.to_civil_utc();
    assert_eq!(civil.year, 1970);
    assert_eq!(civil.month, 1);
    assert_eq!(civil.day, 1);
    assert_eq!(civil.hour, 0);
    assert_eq!(civil.minute, 0);
    assert_eq!(civil.second, 0);
}

#[test]
fn timestamp_from_nexrad_date_time_matches_ktlx_fixture_ground_truth() {
    let ts = Timestamp::from_nexrad_date_time(19876, 233_941).expect("no overflow");
    let civil = ts.to_civil_utc();

    assert_eq!(civil.year, 2024);
    assert_eq!(civil.month, 6);
    assert_eq!(civil.day, 1);
    assert_eq!(civil.hour, 0);
    assert_eq!(civil.minute, 3);
    assert_eq!(civil.second, 53);
    assert_eq!(civil.millisecond, 941);
}

#[test]
fn timestamp_from_nexrad_date_time_epoch_day_one_is_1970_01_01() {
    let ts = Timestamp::from_nexrad_date_time(1, 0).expect("no overflow");
    let civil = ts.to_civil_utc();

    assert_eq!(civil.year, 1970);
    assert_eq!(civil.month, 1);
    assert_eq!(civil.day, 1);
}

#[test]
fn timestamp_from_nexrad_date_time_never_panics_on_extreme_input() {
    let result = Timestamp::from_nexrad_date_time(u32::MAX, u32::MAX);
    assert!(result.is_some());
    let _ = result.unwrap().to_civil_utc();
}

#[test]
fn moment_kind_ordering_matches_s01_scope_order() {
    let mut kinds = vec![
        MomentKind::DifferentialPhase,
        MomentKind::Reflectivity,
        MomentKind::CorrelationCoefficient,
        MomentKind::Velocity,
        MomentKind::DifferentialReflectivity,
        MomentKind::SpectrumWidth,
    ];
    kinds.sort();

    assert_eq!(
        kinds,
        vec![
            MomentKind::Reflectivity,
            MomentKind::Velocity,
            MomentKind::SpectrumWidth,
            MomentKind::DifferentialReflectivity,
            MomentKind::CorrelationCoefficient,
            MomentKind::DifferentialPhase,
        ]
    );
}

#[test]
fn moment_kind_wire_code_round_trips_for_every_variant() {
    let all = [
        MomentKind::Reflectivity,
        MomentKind::Velocity,
        MomentKind::SpectrumWidth,
        MomentKind::DifferentialReflectivity,
        MomentKind::CorrelationCoefficient,
        MomentKind::DifferentialPhase,
        MomentKind::StormRelativeVelocity,
    ];
    for kind in all {
        let code = kind.wire_code();
        assert_eq!(MomentKind::from_wire_code(code), Some(kind));
        assert_eq!(kind.to_string(), code);
    }
}

#[test]
fn moment_kind_from_wire_code_rejects_unknown_and_wrong_case() {
    assert_eq!(MomentKind::from_wire_code("RHO"), None);
    assert_eq!(MomentKind::from_wire_code("ref"), None);
    assert_eq!(MomentKind::from_wire_code(""), None);
}

#[test]
fn civil_date_round_trips_across_leap_days_and_centuries() {
    for &(y, m, d) in &[
        (1970i64, 1u32, 1u32),
        (2000, 2, 29),
        (1900, 2, 28),
        (1900, 3, 1),
        (2024, 12, 31),
        (1969, 12, 31),
        (1, 1, 1),
        (-1, 3, 1),
    ] {
        let days = days_from_civil(y, m, d);
        assert_eq!(civil_from_days(days), (y, m, d));
    }
    assert_eq!(days_from_civil(1970, 1, 1), 0);
    assert_eq!(days_from_civil(2000, 3, 1), 11_017);
    assert_eq!(civil_from_days(-1), (1969, 12, 31));
}

#[test]
fn civil_breakdown_of_negative_timestamp_rounds_down_to_previous_day() {
    let civil = Timestamp::from_epoch_millis(-1).to_civil_utc();
    assert_eq!((civil.year, civil.month, civil.day), (1969, 12, 31));
    assert_eq!((civil.hour, civil.minute, civil.second, civil.millisecond), (23, 59, 59, 999));
    let _ = Timestamp::from_epoch_millis(i64::MIN).to_civil_utc();
    let _ = Timestamp::from_epoch_millis(i64::MAX).to_civil_utc();
}

#[test]
fn civil_date_time_displays_zero_padded_utc() {
    let ts = radarpro::radar_types::Timestamp::from_epoch_millis(1_789_171_270_005);
    assert_eq!(ts.to_string(), "2026-09-12 00:01:10.005 UTC");
    let epoch = radarpro::radar_types::Timestamp::from_epoch_millis(0);
    assert_eq!(epoch.to_string(), "1970-01-01 00:00:00.000 UTC");
    let before = radarpro::radar_types::Timestamp::from_epoch_millis(-62_167_219_200_001);
    assert_eq!(before.to_string(), "-001-12-31 23:59:59.999 UTC");
}
