//! Reading `/alerts/active` documents: polygon, multipolygon and malformed
//! geometry, status filtering, nulls, area lists, and top-level errors.

use radarpro::alerts_model::{AlertGeometry, Certainty, MessageType, Severity, Urgency};
use radarpro::alerts_parse::{
    parse_feature_collection_value, AlertParseError, FeatureParseError, GeometryError,
};
use radarpro::json_value::{JsonMember, JsonValue};

fn s(text: &str) -> JsonValue {
    JsonValue::String(text.to_string())
}

fn num(v: f64) -> JsonValue {
    JsonValue::Number(v.to_bits())
}

fn arr(items: Vec<JsonValue>) -> JsonValue {
    JsonValue::Array(items)
}

fn obj(members: Vec<(&str, JsonValue)>) -> JsonValue {
    JsonValue::Object(
        members
            .into_iter()
            .map(|(name, value)| JsonMember { name: name.to_string(), value })
            .collect(),
    )
}

fn pos(lon: f64, lat: f64) -> JsonValue {
    arr(vec![num(lon), num(lat)])
}

fn bits(lon: f64, lat: f64) -> [u64; 2] {
    [lon.to_bits(), lat.to_bits()]
}

/// Replace member `name` of object `v` (or add it).
fn set(v: &mut JsonValue, name: &str, value: JsonValue) {
    if let JsonValue::Object(members) = v {
        for m in members.iter_mut() {
            if m.name == name {
                m.value = value;
                return;
            }
        }
        members.push(JsonMember { name: name.to_string(), value });
    }
}

fn set_property(feature: &mut JsonValue, name: &str, value: JsonValue) {
    if let JsonValue::Object(members) = feature {
        for m in members.iter_mut() {
            if m.name == "properties" {
                set(&mut m.value, name, value);
                return;
            }
        }
    }
}

/// A minimal, structurally real `/alerts/active` feature.
fn base_feature(id: &str) -> JsonValue {
    obj(vec![
        ("id", s(&format!("https://api.weather.gov/alerts/{id}"))),
        ("type", s("Feature")),
        ("geometry", JsonValue::Null),
        (
            "properties",
            obj(vec![
                ("@id", s(&format!("https://api.weather.gov/alerts/{id}"))),
                ("id", s(id)),
                ("areaDesc", s("Cleveland, OK; Canadian, OK")),
                ("references", arr(vec![])),
                ("sent", s("2026-09-12T18:00:00-05:00")),
                ("effective", s("2026-09-12T18:00:00-05:00")),
                ("onset", s("2026-09-12T18:00:00-05:00")),
                ("expires", s("2026-09-12T19:00:00-05:00")),
                ("ends", JsonValue::Null),
                ("status", s("Actual")),
                ("messageType", s("Alert")),
                ("severity", s("Severe")),
                ("certainty", s("Observed")),
                ("urgency", s("Immediate")),
                ("event", s("Severe Thunderstorm Warning")),
                ("sender", s("w-nws.webmaster@noaa.gov")),
                ("senderName", s("NWS Norman OK")),
                ("headline", s("Severe Thunderstorm Warning issued for Cleveland and Canadian Counties")),
                ("description", s("A severe thunderstorm was located near Norman.")),
                ("instruction", s("Move to an interior room on the lowest floor.")),
            ]),
        ),
    ])
}

fn feature_collection(features: Vec<JsonValue>) -> JsonValue {
    obj(vec![
        ("@context", arr(vec![])),
        ("type", s("FeatureCollection")),
        ("features", arr(features)),
        ("title", s("test")),
        ("updated", s("2026-09-12T18:00:00-05:00")),
    ])
}

#[test]
fn polygon_geometry_parses_correctly() {
    let mut feature = base_feature("urn:oid:test.polygon.1");
    set(
        &mut feature,
        "geometry",
        obj(vec![
            ("type", s("Polygon")),
            (
                "coordinates",
                arr(vec![arr(vec![
                    pos(-97.5, 35.2),
                    pos(-97.4, 35.2),
                    pos(-97.4, 35.3),
                    pos(-97.5, 35.3),
                    pos(-97.5, 35.2),
                ])]),
            ),
        ]),
    );
    let doc = feature_collection(vec![feature]);

    let parsed = parse_feature_collection_value(&doc).expect("valid FeatureCollection");
    assert_eq!(parsed.alerts.len(), 1);
    assert!(parsed.skipped.is_empty());

    match &parsed.alerts[0].geometry {
        Some(AlertGeometry::Polygon(rings)) => {
            assert_eq!(rings.len(), 1);
            assert_eq!(rings[0].len(), 5);
            assert_eq!(rings[0][0], bits(-97.5, 35.2));
            assert_eq!(rings[0][4], bits(-97.5, 35.2), "ring should be closed");
        }
        other => panic!("expected Polygon, got {other:?}"),
    }
}

#[test]
fn multipolygon_geometry_parses_with_distinct_rings() {
    let mut feature = base_feature("urn:oid:test.multipolygon.1");
    set(
        &mut feature,
        "geometry",
        obj(vec![
            ("type", s("MultiPolygon")),
            (
                "coordinates",
                arr(vec![
                    arr(vec![arr(vec![
                        pos(-97.5, 35.2),
                        pos(-97.4, 35.2),
                        pos(-97.4, 35.3),
                        pos(-97.5, 35.3),
                        pos(-97.5, 35.2),
                    ])]),
                    arr(vec![arr(vec![
                        pos(-96.0, 34.0),
                        pos(-95.9, 34.0),
                        pos(-95.9, 34.1),
                        pos(-96.0, 34.1),
                        pos(-96.0, 34.0),
                    ])]),
                ]),
            ),
        ]),
    );
    let doc = feature_collection(vec![feature]);

    let parsed = parse_feature_collection_value(&doc).expect("valid FeatureCollection");
    assert_eq!(parsed.alerts.len(), 1);

    match &parsed.alerts[0].geometry {
        Some(AlertGeometry::MultiPolygon(polygons)) => {
            assert_eq!(polygons.len(), 2, "two distinct polygons must be preserved separately");
            assert_eq!(polygons[0].len(), 1);
            assert_eq!(polygons[1].len(), 1);
            assert_eq!(polygons[0][0][0], bits(-97.5, 35.2));
            assert_eq!(polygons[1][0][0], bits(-96.0, 34.0));
        }
        other => panic!("expected MultiPolygon, got {other:?}"),
    }
}

#[test]
fn null_geometry_is_not_an_error() {
    let feature = base_feature("urn:oid:test.nullgeom.1");
    let doc = feature_collection(vec![feature]);

    let parsed = parse_feature_collection_value(&doc).expect("valid FeatureCollection");
    assert_eq!(parsed.alerts.len(), 1);
    assert!(parsed.skipped.is_empty());
    assert_eq!(parsed.alerts[0].geometry, None);
}

#[test]
fn malformed_geometry_garbage_coordinates_is_rejected() {
    let mut feature = base_feature("urn:oid:test.malformed.1");
    set(
        &mut feature,
        "geometry",
        obj(vec![
            ("type", s("Polygon")),
            (
                "coordinates",
                arr(vec![arr(vec![
                    arr(vec![s("not"), s("numbers")]),
                    pos(-97.4, 35.2),
                    pos(-97.4, 35.3),
                    pos(-97.5, 35.3),
                ])]),
            ),
        ]),
    );
    let doc = feature_collection(vec![feature]);

    let parsed = parse_feature_collection_value(&doc).expect("top-level FeatureCollection is valid");
    assert!(parsed.alerts.is_empty());
    assert_eq!(parsed.skipped.len(), 1);
    assert!(matches!(
        parsed.skipped[0].error,
        FeatureParseError::Geometry(GeometryError::NonNumericCoordinate { .. })
    ));
}

#[test]
fn malformed_geometry_wrong_nesting_depth_is_rejected() {
    let mut feature = base_feature("urn:oid:test.malformed.2");
    set(
        &mut feature,
        "geometry",
        obj(vec![("type", s("Polygon")), ("coordinates", arr(vec![num(-97.5), num(35.2)]))]),
    );
    let doc = feature_collection(vec![feature]);

    let parsed = parse_feature_collection_value(&doc).expect("top-level FeatureCollection is valid");
    assert!(parsed.alerts.is_empty());
    assert_eq!(parsed.skipped.len(), 1);
    assert!(matches!(
        parsed.skipped[0].error,
        FeatureParseError::Geometry(GeometryError::NotAnArray { .. })
    ));
}

#[test]
fn malformed_geometry_ring_too_short_is_rejected() {
    let mut feature = base_feature("urn:oid:test.malformed.3");
    set(
        &mut feature,
        "geometry",
        obj(vec![
            ("type", s("Polygon")),
            ("coordinates", arr(vec![arr(vec![pos(-97.5, 35.2), pos(-97.4, 35.2), pos(-97.4, 35.3)])])),
        ]),
    );
    let doc = feature_collection(vec![feature]);

    let parsed = parse_feature_collection_value(&doc).expect("top-level FeatureCollection is valid");
    assert!(parsed.alerts.is_empty());
    assert_eq!(parsed.skipped.len(), 1);
    assert!(matches!(
        parsed.skipped[0].error,
        FeatureParseError::Geometry(GeometryError::RingTooShort { len: 3, .. })
    ));
}

#[test]
fn malformed_geometry_unsupported_type_is_rejected() {
    let mut feature = base_feature("urn:oid:test.malformed.4");
    set(
        &mut feature,
        "geometry",
        obj(vec![("type", s("Point")), ("coordinates", pos(-97.5, 35.2))]),
    );
    let doc = feature_collection(vec![feature]);

    let parsed = parse_feature_collection_value(&doc).expect("top-level FeatureCollection is valid");
    assert!(parsed.alerts.is_empty());
    assert_eq!(parsed.skipped.len(), 1);
    assert!(matches!(
        parsed.skipped[0].error,
        FeatureParseError::Geometry(GeometryError::UnsupportedType(ref t)) if t == "Point"
    ));
}

/// One bad alert in a `FeatureCollection` does not lose the good ones.
#[test]
fn malformed_geometry_in_one_feature_does_not_lose_other_valid_features() {
    let good_1 = base_feature("urn:oid:test.batch.good1");
    let mut bad = base_feature("urn:oid:test.batch.bad");
    set(&mut bad, "geometry", obj(vec![("type", s("Polygon")), ("coordinates", s("garbage"))]));
    let good_2 = base_feature("urn:oid:test.batch.good2");

    let doc = feature_collection(vec![good_1, bad, good_2]);
    let parsed = parse_feature_collection_value(&doc).expect("top-level FeatureCollection is valid");

    assert_eq!(parsed.alerts.len(), 2, "both good features must still parse");
    assert_eq!(
        parsed.alerts.iter().map(|a| a.id.as_str()).collect::<Vec<_>>(),
        vec!["urn:oid:test.batch.good1", "urn:oid:test.batch.good2"]
    );
    assert_eq!(parsed.skipped.len(), 1);
    assert_eq!(parsed.skipped[0].index, 1);
    assert_eq!(parsed.skipped[0].id.as_deref(), Some("urn:oid:test.batch.bad"));
}

#[test]
fn non_actual_status_is_filtered_not_errored() {
    let mut test_msg = base_feature("urn:oid:test.status.test");
    set_property(&mut test_msg, "status", s("Test"));
    set_property(&mut test_msg, "severity", s("Unknown"));
    set_property(&mut test_msg, "certainty", s("Unknown"));
    set_property(&mut test_msg, "urgency", s("Unknown"));
    set_property(&mut test_msg, "headline", JsonValue::Null);

    let actual_msg = base_feature("urn:oid:test.status.actual");

    let doc = feature_collection(vec![test_msg, actual_msg]);
    let parsed = parse_feature_collection_value(&doc).expect("valid FeatureCollection");

    assert_eq!(parsed.alerts.len(), 1);
    assert_eq!(parsed.alerts[0].id, "urn:oid:test.status.actual");
    assert_eq!(parsed.filtered_non_actual, 1);
    assert!(parsed.skipped.is_empty(), "filtering is not an error");
}

#[test]
fn unknown_severity_certainty_urgency_are_valid_not_errors() {
    let mut feature = base_feature("urn:oid:test.unknown-enums");
    set_property(&mut feature, "severity", s("Unknown"));
    set_property(&mut feature, "certainty", s("Unknown"));
    set_property(&mut feature, "urgency", s("Unknown"));

    let doc = feature_collection(vec![feature]);
    let parsed = parse_feature_collection_value(&doc).expect("valid FeatureCollection");

    assert_eq!(parsed.alerts.len(), 1);
    assert_eq!(parsed.alerts[0].severity, Severity::Unknown);
    assert_eq!(parsed.alerts[0].certainty, Certainty::Unknown);
    assert_eq!(parsed.alerts[0].urgency, Urgency::Unknown);
}

#[test]
fn null_headline_description_instruction_are_valid_not_errors() {
    let mut feature = base_feature("urn:oid:test.nulls");
    set_property(&mut feature, "headline", JsonValue::Null);
    set_property(&mut feature, "description", JsonValue::Null);
    set_property(&mut feature, "instruction", JsonValue::Null);

    let doc = feature_collection(vec![feature]);
    let parsed = parse_feature_collection_value(&doc).expect("valid FeatureCollection");

    assert_eq!(parsed.alerts.len(), 1);
    assert_eq!(parsed.alerts[0].headline, None);
    assert_eq!(parsed.alerts[0].description, None);
    assert_eq!(parsed.alerts[0].instruction, None);
}

#[test]
fn area_desc_splits_on_semicolon_not_comma() {
    let mut feature = base_feature("urn:oid:test.areadesc");
    set_property(&mut feature, "areaDesc", s("Lipscomb, TX; Ochiltree, TX"));

    let doc = feature_collection(vec![feature]);
    let parsed = parse_feature_collection_value(&doc).expect("valid FeatureCollection");

    assert_eq!(
        parsed.alerts[0].affected_areas,
        vec!["Lipscomb, TX".to_string(), "Ochiltree, TX".to_string()]
    );
}

#[test]
fn non_feature_collection_type_is_a_hard_error() {
    let doc = obj(vec![("type", s("Feature")), ("features", arr(vec![]))]);
    let result = parse_feature_collection_value(&doc);
    assert!(matches!(result, Err(AlertParseError::WrongTopLevelType { .. })));
}

#[test]
fn missing_features_array_is_a_hard_error() {
    let doc = obj(vec![("type", s("FeatureCollection"))]);
    let result = parse_feature_collection_value(&doc);
    assert!(matches!(result, Err(AlertParseError::MissingFeatures)));
}

// -- further cases ----------------------------------------------------------

#[test]
fn missing_type_is_not_a_feature_collection() {
    let doc = obj(vec![("features", arr(vec![]))]);
    assert!(matches!(
        parse_feature_collection_value(&doc),
        Err(AlertParseError::NotFeatureCollection)
    ));
    assert!(matches!(
        parse_feature_collection_value(&arr(vec![])),
        Err(AlertParseError::NotFeatureCollection)
    ));
}

#[test]
fn area_desc_drops_empty_pieces_and_trims_unicode_space() {
    let mut feature = base_feature("urn:oid:test.areas2");
    set_property(&mut feature, "areaDesc", s(" A ;; \u{a0}B\t;  "));
    let doc = feature_collection(vec![feature]);
    let parsed = parse_feature_collection_value(&doc).unwrap();
    assert_eq!(parsed.alerts[0].affected_areas, vec!["A".to_string(), "B".to_string()]);
}

#[test]
fn every_feature_error_variant_is_reported() {
    let mut cases: Vec<(JsonValue, fn(&FeatureParseError) -> bool)> = Vec::new();
    cases.push((s("not an object"), |e| matches!(e, FeatureParseError::NotAnObject)));
    cases.push((obj(vec![("type", s("Feature"))]), |e| {
        matches!(e, FeatureParseError::MissingField("properties"))
    }));
    let mut f = base_feature("x");
    set(&mut f, "properties", s("oops"));
    cases.push((f, |e| {
        matches!(e, FeatureParseError::WrongFieldType { field: "properties", expected: "object" })
    }));
    let mut f = base_feature("x");
    set_property(&mut f, "messageType", s("Bogus"));
    cases.push((f, |e| matches!(e, FeatureParseError::UnknownMessageType(t) if t == "Bogus")));
    let mut f = base_feature("x");
    set_property(&mut f, "severity", s("Huge"));
    cases.push((f, |e| matches!(e, FeatureParseError::UnknownSeverity(t) if t == "Huge")));
    let mut f = base_feature("x");
    set_property(&mut f, "certainty", s("Sure"));
    cases.push((f, |e| matches!(e, FeatureParseError::UnknownCertainty(t) if t == "Sure")));
    let mut f = base_feature("x");
    set_property(&mut f, "urgency", s("Now"));
    cases.push((f, |e| matches!(e, FeatureParseError::UnknownUrgency(t) if t == "Now")));
    let mut f = base_feature("x");
    set_property(&mut f, "expires", s("tomorrow"));
    cases.push((f, |e| {
        matches!(e, FeatureParseError::InvalidTimestamp { field: "expires", value, .. } if value == "tomorrow")
    }));
    let mut f = base_feature("x");
    set_property(&mut f, "headline", num(1.0));
    cases.push((f, |e| {
        matches!(e, FeatureParseError::WrongFieldType { field: "headline", expected: "string or null" })
    }));
    let mut f = base_feature("x");
    set_property(&mut f, "references", obj(vec![]));
    cases.push((f, |e| {
        matches!(e, FeatureParseError::WrongFieldType { field: "references", expected: "array" })
    }));
    let mut f = base_feature("x");
    set_property(&mut f, "references", arr(vec![obj(vec![("identifier", s("a")), ("sender", s("b"))])]));
    cases.push((f, |e| {
        matches!(e, FeatureParseError::InvalidReference { index: 0, reason } if reason == "missing string \"sent\"")
    }));
    for (i, (feature, check)) in cases.into_iter().enumerate() {
        let parsed = parse_feature_collection_value(&feature_collection(vec![feature])).unwrap();
        assert_eq!(parsed.skipped.len(), 1, "case {i}");
        assert!(check(&parsed.skipped[0].error), "case {i}: {:?}", parsed.skipped[0].error);
    }
}

#[test]
fn invalid_reference_timestamp_reason_quotes_the_value() {
    let mut f = base_feature("x");
    set_property(
        &mut f,
        "references",
        arr(vec![obj(vec![("identifier", s("a")), ("sender", s("b")), ("sent", s("2026"))])]),
    );
    let parsed = parse_feature_collection_value(&feature_collection(vec![f])).unwrap();
    match &parsed.skipped[0].error {
        FeatureParseError::InvalidReference { index, reason } => {
            assert_eq!(*index, 0);
            assert_eq!(
                reason,
                "invalid \"sent\" timestamp \"2026\": timestamp \"2026\" is too short to be a valid RFC 3339 timestamp"
            );
        }
        other => panic!("unexpected {other:?}"),
    }
}

#[test]
fn references_and_timestamps_are_read() {
    let mut f = base_feature("urn:oid:b");
    set_property(&mut f, "messageType", s("Update"));
    set_property(
        &mut f,
        "references",
        arr(vec![obj(vec![
            ("identifier", s("urn:oid:a")),
            ("sender", s("w-nws.webmaster@noaa.gov")),
            ("sent", s("2026-09-12T17:00:00-05:00")),
        ])]),
    );
    set_property(&mut f, "ends", s("2026-09-12T20:00:00Z"));
    let parsed = parse_feature_collection_value(&feature_collection(vec![f])).unwrap();
    let a = &parsed.alerts[0];
    assert_eq!(a.message_type, MessageType::Update);
    assert_eq!(a.references.len(), 1);
    assert_eq!(a.references[0].identifier, "urn:oid:a");
    assert_eq!(a.references[0].sent.epoch_millis(), 1_789_250_400_000);
    assert_eq!(a.issued.epoch_millis(), 1_789_254_000_000);
    assert_eq!(a.expires.epoch_millis(), 1_789_257_600_000);
    assert_eq!(a.ends.map(|t| t.epoch_millis()), Some(1_789_243_200_000));
}
