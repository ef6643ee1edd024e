use radarpro::cache_volume::{build_object_url, CacheError};
use radarpro::discovery::{build_list_url, NEXRAD_LEVEL2_BUCKET_URL};
use radarpro::hrrr_client;
use radarpro::hrrr_error::HrrrError;
use radarpro::hrrr_keys::HRRR_BUCKET_URL;
use radarpro::list_objects::DiscoveryError;
use std::collections::HashMap;

fn parsed(text: &str) -> reqwest::Url {
    reqwest::Url::parse(text).unwrap()
}

fn query_of(url: &reqwest::Url) -> HashMap<String, String> {
    url.query_pairs().into_owned().collect()
}

#[test]
fn client_build_list_url_includes_prefix_and_list_type() {
    let url = parsed(&hrrr_client::build_list_url(HRRR_BUCKET_URL, "hrrr.20260912/conus/", None).unwrap());
    assert_eq!(url.host_str(), Some("noaa-hrrr-bdp-pds.s3.amazonaws.com"));
    let query = query_of(&url);
    assert_eq!(query.get("list-type").map(String::as_str), Some("2"));
    assert_eq!(query.get("prefix").map(String::as_str), Some("hrrr.20260912/conus/"));
}

#[test]
fn client_build_list_url_rejects_invalid_bucket_url() {
    let err = hrrr_client::build_list_url("not a url", "prefix/", None).unwrap_err();
    assert!(matches!(err, HrrrError::InvalidBucketUrl { .. }));
}

#[test]
fn discovery_build_list_url_includes_prefix_and_list_type() {
    let url = parsed(&build_list_url(NEXRAD_LEVEL2_BUCKET_URL, "2026/09/12/KTLX/", None).unwrap());
    assert_eq!(url.host_str(), Some("unidata-nexrad-level2.s3.amazonaws.com"));
    let query = query_of(&url);
    assert_eq!(query.get("list-type").map(String::as_str), Some("2"));
    assert_eq!(query.get("prefix").map(String::as_str), Some("2026/09/12/KTLX/"));
    assert!(!query.contains_key("continuation-token"));
}

#[test]
fn build_list_url_includes_continuation_token_when_present() {
    let url = parsed(&build_list_url(NEXRAD_LEVEL2_BUCKET_URL, "2026/09/12/KTLX/", Some("tok==")).unwrap());
    let query = query_of(&url);
    assert_eq!(query.get("continuation-token").map(String::as_str), Some("tok=="));
}

#[test]
fn discovery_build_list_url_rejects_invalid_bucket_url() {
    let err = build_list_url("not a url", "prefix/", None).unwrap_err();
    assert!(matches!(err, DiscoveryError::InvalidBucketUrl { .. }));
}

#[test]
fn build_object_url_joins_bucket_and_key() {
    let url = build_object_url(NEXRAD_LEVEL2_BUCKET_URL, "2026/09/12/KTLX/KTLX20260912_000110_V06").unwrap();
    assert_eq!(
        url.as_str(),
        "https://unidata-nexrad-level2.s3.amazonaws.com/2026/09/12/KTLX/KTLX20260912_000110_V06"
    );
}

#[test]
fn list_url_query_is_form_encoded_and_in_order() {
    let url = build_list_url("https://bucket.example.com/", "a b/", Some("x&y")).unwrap();
    assert_eq!(url, "https://bucket.example.com/?list-type=2&prefix=a+b%2F&continuation-token=x%26y");
}

#[test]
fn invalid_bucket_url_error_carries_url_and_parser_message() {
    match build_list_url("not a url", "prefix/", None) {
        Err(DiscoveryError::InvalidBucketUrl { url, message }) => {
            assert_eq!(url, "not a url");
            assert_eq!(message, "relative URL without a base");
        }
        other => panic!("unexpected result: {:?}", other),
    }
}

#[test]
fn object_url_drops_trailing_slashes_of_the_bucket() {
    let url = build_object_url("https://example.com//", "a/b").unwrap();
    assert_eq!(url, "https://example.com/a/b");
}

#[test]
fn invalid_object_url_error_carries_the_key() {
    match build_object_url("", "a/b") {
        Err(CacheError::InvalidUrl { key, message }) => {
            assert_eq!(key, "a/b");
            assert_eq!(message, "relative URL without a base");
        }
        other => panic!("unexpected result: {:?}", other),
    }
}

#[test]
fn bucket_url_text_is_normalized_by_the_parser() {
    let url = build_object_url("HTTPS://Example.COM", "k").unwrap();
    assert_eq!(url, "https://example.com/k");
    let list = build_list_url("https://example.com", "p", None).unwrap();
    assert_eq!(list, "https://example.com/?list-type=2&prefix=p");
}
