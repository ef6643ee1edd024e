//! `ListObjectsV2` listings of the NEXRAD and HRRR buckets.

use radarpro::hrrr_error::HrrrError;
use radarpro::list_objects::{
    list_page_from_tokens, parse_hrrr_listing, parse_list_objects_v2, DiscoveryError, XmlToken,
};

#[test]
fn parses_a_normal_response() {
    let xml = br#"<?xml version="1.0" encoding="UTF-8"?>
<ListBucketResult xmlns="http://s3.amazonaws.com/doc/2006-03-01/">
  <Name>unidata-nexrad-level2</Name>
  <Prefix>2026/09/12/KTLX/</Prefix>
  <KeyCount>2</KeyCount>
  <MaxKeys>1000</MaxKeys>
  <IsTruncated>false</IsTruncated>
  <Contents>
    <Key>2026/09/12/KTLX/KTLX20260912_000110_V06</Key>
    <LastModified>2026-09-12T00:04:32.000Z</LastModified>
    <ETag>&quot;6faecebf15f26fe4a84f2baae09ba227&quot;</ETag>
    <Size>6834037</Size>
    <StorageClass>STANDARD</StorageClass>
  </Contents>
  <Contents>
    <Key>2026/09/12/KTLX/KTLX20260912_000440_V06</Key>
    <LastModified>2026-09-12T00:08:02.000Z</LastModified>
    <ETag>&quot;a53c39ce13228ae90fb32988dc08b79d&quot;</ETag>
    <Size>6740332</Size>
    <StorageClass>STANDARD</StorageClass>
  </Contents>
</ListBucketResult>"#;

    let page = parse_list_objects_v2(xml).unwrap();
    assert_eq!(
        page.keys,
        vec![
            "2026/09/12/KTLX/KTLX20260912_000110_V06".to_string(),
            "2026/09/12/KTLX/KTLX20260912_000440_V06".to_string(),
        ]
    );
    assert!(!page.is_truncated);
    assert_eq!(page.next_continuation_token, None);
}

#[test]
fn xml_parses_a_paginated_truncated_response() {
    let xml = br#"<?xml version="1.0" encoding="UTF-8"?>
<ListBucketResult xmlns="http://s3.amazonaws.com/doc/2006-03-01/">
  <Name>unidata-nexrad-level2</Name>
  <Prefix>2026/09/12/KTLX/</Prefix>
  <KeyCount>1</KeyCount>
  <MaxKeys>1</MaxKeys>
  <IsTruncated>true</IsTruncated>
  <NextContinuationToken>abc123token==</NextContinuationToken>
  <Contents>
    <Key>2026/09/12/KTLX/KTLX20260912_000110_V06</Key>
    <Size>6834037</Size>
  </Contents>
</ListBucketResult>"#;

    let page = parse_list_objects_v2(xml).unwrap();
    assert_eq!(page.keys, vec!["2026/09/12/KTLX/KTLX20260912_000110_V06".to_string()]);
    assert!(page.is_truncated);
    assert_eq!(page.next_continuation_token.as_deref(), Some("abc123token=="));
}

#[test]
fn parses_an_empty_result() {
    let xml = br#"<?xml version="1.0" encoding="UTF-8"?>
<ListBucketResult xmlns="http://s3.amazonaws.com/doc/2006-03-01/">
  <Name>unidata-nexrad-level2</Name>
  <Prefix>2026/01/01/ZZZZ/</Prefix>
  <KeyCount>0</KeyCount>
  <MaxKeys>1000</MaxKeys>
  <IsTruncated>false</IsTruncated>
</ListBucketResult>"#;

    let page = parse_list_objects_v2(xml).unwrap();
    assert!(page.keys.is_empty());
    assert!(!page.is_truncated);
    assert_eq!(page.next_continuation_token, None);
}

#[test]
fn xml_rejects_truncated_xml_without_panicking() {
    let xml = br#"<?xml version="1.0" encoding="UTF-8"?>
<ListBucketResult xmlns="http://s3.amazonaws.com/doc/2006-03-01/">
  <Contents>
    <Key>2026/09/12/KTLX/KTLX20260912_000110_V06</Key>
    <Size>683"#;

    let result = parse_list_objects_v2(xml);
    assert!(result.is_err(), "truncated XML must be a structured error, not a panic");
}

#[test]
fn xml_rejects_malformed_xml_without_panicking() {
    let xml = b"this is not xml at all <<<>>>";
    let result = parse_list_objects_v2(xml);
    assert!(result.is_err());
}

#[test]
fn xml_rejects_mismatched_tags_without_panicking() {
    let xml = br#"<ListBucketResult><Contents><Key>foo</Contents></Key></ListBucketResult>"#;
    let result = parse_list_objects_v2(xml);
    assert!(result.is_err());
}

#[test]
fn xml_rejects_invalid_utf8_without_panicking() {
    let xml: &[u8] = b"<ListBucketResult><Contents><Key>\xff\xfe</Key></Contents></ListBucketResult>";
    let result = parse_list_objects_v2(xml);
    assert!(result.is_err());
}

#[test]
fn parses_a_real_hrrr_listing_shape() {
    let xml = br#"<?xml version="1.0" encoding="UTF-8"?>
<ListBucketResult xmlns="http://s3.amazonaws.com/doc/2006-03-01/">
  <Name>noaa-hrrr-bdp-pds</Name>
  <Prefix>hrrr.20260912/conus/hrrr.t12z.wrfsfcf00.grib2</Prefix>
  <KeyCount>2</KeyCount>
  <MaxKeys>1000</MaxKeys>
  <IsTruncated>false</IsTruncated>
  <Contents>
    <Key>hrrr.20260912/conus/hrrr.t12z.wrfsfcf00.grib2</Key>
    <Size>690694451</Size>
  </Contents>
  <Contents>
    <Key>hrrr.20260912/conus/hrrr.t12z.wrfsfcf00.grib2.idx</Key>
    <Size>60649</Size>
  </Contents>
</ListBucketResult>"#;

    let page = parse_hrrr_listing("u", xml).unwrap();
    assert_eq!(
        page.keys,
        vec![
            "hrrr.20260912/conus/hrrr.t12z.wrfsfcf00.grib2".to_string(),
            "hrrr.20260912/conus/hrrr.t12z.wrfsfcf00.grib2.idx".to_string(),
        ]
    );
    assert!(!page.is_truncated);
    assert_eq!(page.next_continuation_token, None);
}

#[test]
fn hrrr_xml_parses_a_paginated_truncated_response() {
    let xml = br#"<ListBucketResult>
  <IsTruncated>true</IsTruncated>
  <NextContinuationToken>abc123==</NextContinuationToken>
  <Contents><Key>a</Key></Contents>
</ListBucketResult>"#;
    let page = parse_hrrr_listing("u", xml).unwrap();
    assert_eq!(page.keys, vec!["a".to_string()]);
    assert!(page.is_truncated);
    assert_eq!(page.next_continuation_token.as_deref(), Some("abc123=="));
}

#[test]
fn hrrr_xml_rejects_malformed_listings_without_panicking() {
    let truncated = br#"<ListBucketResult><Contents><Key>a</Key><Size>683"#;
    assert!(parse_hrrr_listing("u", truncated).is_err());
    assert!(parse_hrrr_listing("u", b"not xml <<<>>>").is_err());
    let mismatched = br#"<ListBucketResult><Contents><Key>foo</Contents></Key></ListBucketResult>"#;
    assert!(parse_hrrr_listing("u", mismatched).is_err());
    let bad_utf8: &[u8] = b"<ListBucketResult><Contents><Key>\xff\xfe</Key></Contents></ListBucketResult>";
    match parse_hrrr_listing("https://example/list", bad_utf8) {
        Err(HrrrError::MalformedListing { url, .. }) => assert_eq!(url, "https://example/list"),
        other => panic!("unexpected {other:?}"),
    }
}

// -- the token reader on given tokens ----------------------------------------

fn t(s: &str) -> String {
    s.to_string()
}

#[test]
fn unmatched_closing_tag_is_reported_with_its_name() {
    let tokens = vec![XmlToken::End(t("Foo"))];
    assert_eq!(
        list_page_from_tokens(&tokens, None),
        Err(DiscoveryError::MalformedXml(t("unmatched closing tag </Foo> with no corresponding open tag")))
    );
}

#[test]
fn elements_left_open_are_counted() {
    let tokens = vec![XmlToken::Start(t("A")), XmlToken::Start(t("B"))];
    assert_eq!(
        list_page_from_tokens(&tokens, None),
        Err(DiscoveryError::MalformedXml(t(
            "document ended with 2 element(s) still open (truncated or malformed input)"
        )))
    );
}

#[test]
fn top_level_text_is_rejected_with_its_quoted_content() {
    let tokens = vec![XmlToken::Text(t("hello"))];
    assert_eq!(
        list_page_from_tokens(&tokens, None),
        Err(DiscoveryError::MalformedXml(t("unexpected top-level text content: \"hello\"")))
    );
}

#[test]
fn tokenizer_error_wins_after_the_tokens_read() {
    let tokens = vec![XmlToken::Start(t("A")), XmlToken::End(t("A"))];
    assert_eq!(
        list_page_from_tokens(&tokens, Some(t("boom"))),
        Err(DiscoveryError::MalformedXml(t("boom")))
    );
}

#[test]
fn keys_outside_contents_are_ignored_and_truncation_is_case_insensitive() {
    let tokens = vec![
        XmlToken::Start(t("R")),
        XmlToken::Start(t("Key")),
        XmlToken::Text(t("outside")),
        XmlToken::End(t("Key")),
        XmlToken::Start(t("IsTruncated")),
        XmlToken::Text(t("TRUE")),
        XmlToken::End(t("IsTruncated")),
        XmlToken::Start(t("Contents")),
        XmlToken::Start(t("Key")),
        XmlToken::Text(t("a&amp;b")),
        XmlToken::End(t("Key")),
        XmlToken::End(t("Contents")),
        XmlToken::End(t("R")),
    ];
    let page = list_page_from_tokens(&tokens, None).unwrap();
    assert_eq!(page.keys, vec![t("a&b")]);
    assert!(page.is_truncated);
}
