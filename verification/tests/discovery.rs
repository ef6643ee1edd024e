//! Discovery: a site's volumes from listed keys, pagination decisions, and
//! the newest-first order of cached scans.

use radarpro::cache_keys::parse_object_key;
use radarpro::cache_volume::{
    event_for_download, event_for_no_volume, map_fetch_error, sort_newest_first, verify_decision, CacheError,
    CachedVolume, DownloadOutcome, UpdateEvent, VerifyDecision,
};
use radarpro::net::FetchError;
use radarpro::discovery::{discovery_step, latest_volume, sort_volumes, str_lt, volumes_from_keys, DiscoveryStep};
use radarpro::list_objects::{DiscoveryError, ListObjectsPage};
use radarpro::radar_types::Timestamp;

fn keys(list: &[&str]) -> Vec<String> {
    list.iter().map(|k| k.to_string()).collect()
}

#[test]
fn volumes_are_filtered_by_site_and_sorted_oldest_first() {
    let listed = keys(&[
        "2026/09/12/KTLX/KTLX20260912_001000_V06",
        "2026/09/12/KTLX/KTLX20260912_000110_V06_MDM",
        "2026/09/12/KTLX/KTLX20260912_000110_V06",
        "2026/09/12/KFTG/KFTG20260912_000500_V06",
        "2026/09/12/KTLX/KTLX20260912_000440_V06",
        "garbage",
    ]);
    let volumes = volumes_from_keys(&listed, "ktlx");
    let got: Vec<&str> = volumes.iter().map(|v| v.key.as_str()).collect();
    assert_eq!(
        got,
        vec![
            "2026/09/12/KTLX/KTLX20260912_000110_V06",
            "2026/09/12/KTLX/KTLX20260912_000440_V06",
            "2026/09/12/KTLX/KTLX20260912_001000_V06",
        ]
    );
    let latest = latest_volume(volumes).unwrap();
    assert_eq!(latest.key, "2026/09/12/KTLX/KTLX20260912_001000_V06");
    assert!(latest_volume(Vec::new()).is_none());
}

#[test]
fn equal_start_times_sort_by_key() {
    let a = parse_object_key("2026/09/12/KTLX/KTLX20260912_000110_V06").unwrap();
    let b = parse_object_key("x/KTLX20260912_000110_V06").unwrap();
    let sorted = sort_volumes(vec![a.clone(), b.clone()]);
    assert_eq!(sorted, vec![a, b]);
    assert!(str_lt("2026", "x"));
    assert!(str_lt("ab", "abc"));
    assert!(!str_lt("abc", "abc"));
    assert!(!str_lt("b", "abc"));
}

#[test]
fn a_complete_page_finishes_discovery() {
    let mut all = keys(&["2026/09/12/KTLX/KTLX20260912_000440_V06"]);
    let page = ListObjectsPage {
        keys: keys(&["2026/09/12/KTLX/KTLX20260912_000110_V06"]),
        is_truncated: false,
        next_continuation_token: None,
    };
    match discovery_step(&mut all, page, "KTLX") {
        DiscoveryStep::Finished(volumes) => {
            assert_eq!(volumes.len(), 2);
            assert_eq!(volumes[0].key, "2026/09/12/KTLX/KTLX20260912_000110_V06");
        }
        other => panic!("unexpected {other:?}"),
    }
    assert_eq!(all.len(), 2);
}

#[test]
fn a_truncated_page_continues_or_fails_without_a_token() {
    let mut all = Vec::new();
    let page = ListObjectsPage { keys: keys(&["a"]), is_truncated: true, next_continuation_token: Some("tok".into()) };
    assert!(matches!(discovery_step(&mut all, page, "KTLX"), DiscoveryStep::Continue(t) if t == "tok"));
    let page = ListObjectsPage { keys: keys(&["b"]), is_truncated: true, next_continuation_token: None };
    match discovery_step(&mut all, page, "KTLX") {
        DiscoveryStep::Failed(DiscoveryError::MalformedXml(m)) => {
            assert_eq!(m, "IsTruncated=true but no NextContinuationToken present")
        }
        other => panic!("unexpected {other:?}"),
    }
    assert_eq!(all, keys(&["a", "b"]));
}

fn cached(key: &str, millis: i64) -> CachedVolume {
    CachedVolume {
        icao: "KTLX".to_string(),
        key: key.to_string(),
        start_time: Timestamp::from_epoch_millis(millis),
        format_version: 6,
        file_path: std::path::PathBuf::from(format!("/cache/KTLX/{key}")),
        size_bytes: 10,
    }
}

#[test]
fn scan_history_order_is_newest_first_then_key_descending() {
    let sorted = sort_newest_first(vec![cached("a", 1), cached("c", 3), cached("b", 3), cached("d", 2)]);
    let got: Vec<&str> = sorted.iter().map(|c| c.key.as_str()).collect();
    assert_eq!(got, vec!["c", "b", "d", "a"]);
}

#[test]
fn update_events_report_downloads_and_cache_hits() {
    match event_for_download("KTLX", DownloadOutcome::Downloaded(cached("k1", 5))) {
        UpdateEvent::Downloaded(c) => assert_eq!(c.key, "k1"),
        other => panic!("unexpected {other:?}"),
    }
    match event_for_download("KTLX", DownloadOutcome::AlreadyCached(cached("k2", 5))) {
        UpdateEvent::AlreadyCached { icao, key } => {
            assert_eq!(icao, "KTLX");
            assert_eq!(key, "k2");
        }
        other => panic!("unexpected {other:?}"),
    }
    assert!(matches!(event_for_no_volume("KFTG"), UpdateEvent::NoneAvailable { icao } if icao == "KFTG"));
    let outcome = DownloadOutcome::AlreadyCached(cached("k3", 7));
    assert_eq!(outcome.cached_volume().key, "k3");
    assert_eq!(outcome.into_cached_volume().start_time.epoch_millis(), 7);
}

#[test]
fn fetch_failures_map_to_cache_and_discovery_errors() {
    assert_eq!(map_fetch_error(FetchError::Cancelled, "k"), CacheError::Cancelled);
    assert_eq!(
        map_fetch_error(FetchError::Status { status: 404, url: "u".into(), attempts: 1 }, "k"),
        CacheError::NotFound { key: "k".into() }
    );
    assert_eq!(
        map_fetch_error(FetchError::Status { status: 503, url: "u".into(), attempts: 5 }, "k"),
        CacheError::DownloadHttpStatus { key: "k".into(), status: 503, attempts: 5 }
    );
    assert_eq!(
        map_fetch_error(FetchError::Request { attempts: 2, message: "m".into() }, "k"),
        CacheError::DownloadRequestFailed { key: "k".into(), attempts: 2, message: "m".into() }
    );
    assert_eq!(
        DiscoveryError::from_fetch(FetchError::Status { status: 500, url: "u".into(), attempts: 3 }),
        DiscoveryError::HttpStatus { status: 500, url: "u".into(), attempts: 3 }
    );
    assert_eq!(DiscoveryError::from_fetch(FetchError::Cancelled), DiscoveryError::Cancelled);
    assert_eq!(verify_decision(1, true), VerifyDecision::Accept);
    assert_eq!(verify_decision(1, false), VerifyDecision::RetryAfter(1000));
    assert_eq!(verify_decision(2, false), VerifyDecision::Fail { attempts: 2 });
}
