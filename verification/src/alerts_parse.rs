//! Reading an `/alerts/active` GeoJSON `FeatureCollection` document into
//! [`Alert`] values.
//!
//! The document is untrusted: every field is looked up with its presence,
//! type and range checked, and nothing here can panic. A document that is
//! not a `FeatureCollection` at all is a hard [`AlertParseError`]; one
//! malformed feature is reported in [`ParsedAlerts::skipped`] without losing
//! the others. Only `status == "Actual"` features become alerts; the others
//! are counted in [`ParsedAlerts::filtered_non_actual`].

use vstd::prelude::*;
use crate::alerts_model::{
    Alert, AlertGeometry, AlertReference, AlertReferenceView, AlertView, Certainty, GeometryView, LonLat,
    MessageType, Ring, Severity, Urgency, opt_string_view, opt_time_view, opt_geometry_view,
    rings_view, polygons_view, certainty_name, message_type_name, severity_name, urgency_name,
};
use crate::alerts_time::{
    byte_chars, debug_str, parse_rfc3339, reports, rfc3339, str_debug, time_error_view, time_message,
    TimeOutcome, TimeParseError,
};
use crate::radar_types::Timestamp;
use crate::json_value::{get_str, json_get, json_get_str, json_str, JsonValue};
use crate::text::{split_trimmed, split_trimmed_pieces, str_eq, strings_view};

verus! {

/// A failure that makes the whole document unusable.
#[derive(Debug, Clone, PartialEq, Eq)]
pub enum AlertParseError {
    /// The body is not valid JSON (the message says why).
    InvalidJson(String),
    /// The top level has no string `"type"`.
    NotFeatureCollection,
    /// The top-level `"type"` is another string.
    WrongTopLevelType { found: String },
    /// The top level has no `"features"` array.
    MissingFeatures,
}

/// A failure to read one feature; the rest of the batch is kept.
#[derive(Debug, Clone, PartialEq, Eq)]
pub enum FeatureParseError {
    NotAnObject,
    MissingField(&'static str),
    WrongFieldType { field: &'static str, expected: &'static str },
    UnknownMessageType(String),
    UnknownSeverity(String),
    UnknownCertainty(String),
    UnknownUrgency(String),
    InvalidTimestamp { field: &'static str, value: String, source: TimeParseError },
    Geometry(GeometryError),
    InvalidReference { index: usize, reason: String },
}

/// A failure to read a feature's `geometry`.
#[derive(Debug, Clone, PartialEq, Eq)]
pub enum GeometryError {
    NotAnObject,
    MissingType,
    UnsupportedType(String),
    MissingCoordinates,
    NotAnArray { context: &'static str },
    WrongPositionArity { context: &'static str, len: usize },
    NonNumericCoordinate { context: &'static str },
    RingTooShort { ring_index: usize, len: usize },
}

/// One feature that could not be read.
#[derive(Debug)]
pub struct SkippedFeature {
    /// Its index in the document's `features` array.
    pub index: usize,
    /// Its `properties.id`, when that much could be read.
    pub id: Option<String>,
    pub error: FeatureParseError,
}

/// What one document yields.
#[derive(Debug)]
pub struct ParsedAlerts {
    /// The `status == "Actual"` alerts, in document order.
    pub alerts: Vec<Alert>,
    /// The features that could not be read, with why.
    pub skipped: Vec<SkippedFeature>,
    /// How many well-formed features were dropped for their `status`.
    pub filtered_non_actual: usize,
}

// ---------------------------------------------------------------------------
// Views

pub ghost enum GeometryErrorView {
    NotAnObject,
    MissingType,
    UnsupportedType(Seq<char>),
    MissingCoordinates,
    NotAnArray { context: Seq<char> },
    WrongPositionArity { context: Seq<char>, len: int },
    NonNumericCoordinate { context: Seq<char> },
    RingTooShort { ring_index: int, len: int },
}

impl View for GeometryError {
    type V = GeometryErrorView;

    open spec fn view(&self) -> GeometryErrorView {
        match self {
            GeometryError::NotAnObject => GeometryErrorView::NotAnObject,
            GeometryError::MissingType => GeometryErrorView::MissingType,
            GeometryError::UnsupportedType(t) => GeometryErrorView::UnsupportedType(t@),
            GeometryError::MissingCoordinates => GeometryErrorView::MissingCoordinates,
            GeometryError::NotAnArray { context } => GeometryErrorView::NotAnArray { context: context@ },
            GeometryError::WrongPositionArity { context, len } => GeometryErrorView::WrongPositionArity {
                context: context@,
                len: *len as int,
            },
            GeometryError::NonNumericCoordinate { context } => GeometryErrorView::NonNumericCoordinate {
                context: context@,
            },
            GeometryError::RingTooShort { ring_index, len } => GeometryErrorView::RingTooShort {
                ring_index: *ring_index as int,
                len: *len as int,
            },
        }
    }
}

pub ghost enum FeatureErrorView {
    NotAnObject,
    MissingField(Seq<char>),
    WrongFieldType { field: Seq<char>, expected: Seq<char> },
    UnknownMessageType(Seq<char>),
    UnknownSeverity(Seq<char>),
    UnknownCertainty(Seq<char>),
    UnknownUrgency(Seq<char>),
    /// The source is the time outcome reported, with the input it echoes.
    InvalidTimestamp { field: Seq<char>, value: Seq<char>, source: (TimeOutcome, Seq<char>) },
    Geometry(GeometryErrorView),
    InvalidReference { index: int, reason: Seq<char> },
}

impl View for FeatureParseError {
    type V = FeatureErrorView;

    open spec fn view(&self) -> FeatureErrorView {
        match self {
            FeatureParseError::NotAnObject => FeatureErrorView::NotAnObject,
            FeatureParseError::MissingField(f) => FeatureErrorView::MissingField(f@),
            FeatureParseError::WrongFieldType { field, expected } => FeatureErrorView::WrongFieldType {
                field: field@,
                expected: expected@,
            },
            FeatureParseError::UnknownMessageType(s) => FeatureErrorView::UnknownMessageType(s@),
            FeatureParseError::UnknownSeverity(s) => FeatureErrorView::UnknownSeverity(s@),
            FeatureParseError::UnknownCertainty(s) => FeatureErrorView::UnknownCertainty(s@),
            FeatureParseError::UnknownUrgency(s) => FeatureErrorView::UnknownUrgency(s@),
            FeatureParseError::InvalidTimestamp { field, value, source } => FeatureErrorView::InvalidTimestamp {
                field: field@,
                value: value@,
                source: time_error_view(*source),
            },
            FeatureParseError::Geometry(g) => FeatureErrorView::Geometry(g@),
            FeatureParseError::InvalidReference { index, reason } => FeatureErrorView::InvalidReference {
                index: *index as int,
                reason: reason@,
            },
        }
    }
}

pub ghost enum AlertParseErrorView {
    InvalidJson(Seq<char>),
    NotFeatureCollection,
    WrongTopLevelType(Seq<char>),
    MissingFeatures,
}

impl View for AlertParseError {
    type V = AlertParseErrorView;

    open spec fn view(&self) -> AlertParseErrorView {
        match self {
            AlertParseError::InvalidJson(m) => AlertParseErrorView::InvalidJson(m@),
            AlertParseError::NotFeatureCollection => AlertParseErrorView::NotFeatureCollection,
            AlertParseError::WrongTopLevelType { found } => AlertParseErrorView::WrongTopLevelType(found@),
            AlertParseError::MissingFeatures => AlertParseErrorView::MissingFeatures,
        }
    }
}

pub ghost struct SkippedView {
    pub index: int,
    pub id: Option<Seq<char>>,
    pub error: FeatureErrorView,
}

impl View for SkippedFeature {
    type V = SkippedView;

    open spec fn view(&self) -> SkippedView {
        SkippedView { index: self.index as int, id: opt_string_view(self.id), error: self.error@ }
    }
}

pub ghost struct ParsedView {
    pub alerts: Seq<AlertView>,
    pub skipped: Seq<SkippedView>,
    pub filtered_non_actual: int,
}

impl View for ParsedAlerts {
    type V = ParsedView;

    open spec fn view(&self) -> ParsedView {
        ParsedView {
            alerts: self.alerts@.map_values(|a: Alert| a@),
            skipped: self.skipped@.map_values(|s: SkippedFeature| s@),
            filtered_non_actual: self.filtered_non_actual as int,
        }
    }
}

// ---------------------------------------------------------------------------
// The model

/// An `f64` bit pattern whose value is finite (exponent not all ones).
pub open spec fn is_finite_bits(b: u64) -> bool {
    (b >> 52u64) & 0x7ffu64 != 0x7ffu64
}

/// One `[lon, lat]` position.
pub open spec fn position_of(v: JsonValue, context: Seq<char>) -> Result<LonLat, GeometryErrorView> {
    match v {
        JsonValue::Array(items) => {
            if items@.len() != 2 {
                Err(GeometryErrorView::WrongPositionArity { context, len: items@.len() as int })
            } else {
                match (items@[0], items@[1]) {
                    (JsonValue::Number(lon), JsonValue::Number(lat)) => {
                        if is_finite_bits(lon) && is_finite_bits(lat) {
                            Ok([lon, lat])
                        } else {
                            Err(GeometryErrorView::NonNumericCoordinate { context })
                        }
                    },
                    _ => Err(GeometryErrorView::NonNumericCoordinate { context }),
                }
            }
        },
        _ => Err(GeometryErrorView::NotAnArray { context }),
    }
}

/// The positions of a ring, stopping at the first bad one.
pub open spec fn positions_of(items: Seq<JsonValue>, context: Seq<char>) -> Result<Seq<LonLat>, GeometryErrorView>
    decreases items.len(),
{
    if items.len() == 0 {
        Ok(Seq::empty())
    } else {
        match positions_of(items.drop_last(), context) {
            Err(e) => Err(e),
            Ok(ps) => match position_of(items.last(), context) {
                Err(e) => Err(e),
                Ok(p) => Ok(ps.push(p)),
            },
        }
    }
}

/// One linear ring.
pub open spec fn ring_of(v: JsonValue, context: Seq<char>) -> Result<Seq<LonLat>, GeometryErrorView> {
    match v {
        JsonValue::Array(items) => positions_of(items@, context),
        _ => Err(GeometryErrorView::NotAnArray { context }),
    }
}

/// The rings of one polygon, each at least 4 positions long.
pub open spec fn rings_of(items: Seq<JsonValue>, context: Seq<char>) -> Result<Seq<Seq<LonLat>>, GeometryErrorView>
    decreases items.len(),
{
    if items.len() == 0 {
        Ok(Seq::empty())
    } else {
        match rings_of(items.drop_last(), context) {
            Err(e) => Err(e),
            Ok(rs) => match ring_of(items.last(), context) {
                Err(e) => Err(e),
                Ok(r) => if r.len() < 4 {
                    Err(GeometryErrorView::RingTooShort { ring_index: items.len() - 1, len: r.len() as int })
                } else {
                    Ok(rs.push(r))
                },
            },
        }
    }
}

/// One polygon's coordinates: a list of rings.
pub open spec fn polygon_of(v: JsonValue, context: Seq<char>) -> Result<Seq<Seq<LonLat>>, GeometryErrorView> {
    match v {
        JsonValue::Array(items) => rings_of(items@, context),
        _ => Err(GeometryErrorView::NotAnArray { context }),
    }
}

/// The polygons of a `MultiPolygon`.
pub open spec fn polygons_of(items: Seq<JsonValue>) -> Result<Seq<Seq<Seq<LonLat>>>, GeometryErrorView>
    decreases items.len(),
{
    if items.len() == 0 {
        Ok(Seq::empty())
    } else {
        match polygons_of(items.drop_last()) {
            Err(e) => Err(e),
            Ok(ps) => match polygon_of(items.last(), "MultiPolygon.coordinates[*]"@) {
                Err(e) => Err(e),
                Ok(p) => Ok(ps.push(p)),
            },
        }
    }
}

/// A feature's `geometry`: `null` is no geometry.
pub open spec fn geometry_of(v: JsonValue) -> Result<Option<GeometryView>, GeometryErrorView> {
    match v {
        JsonValue::Null => Ok(None),
        JsonValue::Object(_) => match json_get_str(v, "type"@) {
            None => Err(GeometryErrorView::MissingType),
            Some(t) => match json_get(v, "coordinates"@) {
                None => Err(GeometryErrorView::MissingCoordinates),
                Some(coords) => if t == "Polygon"@ {
                    match polygon_of(coords, "Polygon.coordinates"@) {
                        Err(e) => Err(e),
                        Ok(rings) => Ok(Some(GeometryView::Polygon(rings))),
                    }
                } else if t == "MultiPolygon"@ {
                    match coords {
                        JsonValue::Array(items) => match polygons_of(items@) {
                            Err(e) => Err(e),
                            Ok(ps) => Ok(Some(GeometryView::MultiPolygon(ps))),
                        },
                        _ => Err(GeometryErrorView::NotAnArray { context: "MultiPolygon.coordinates"@ }),
                    }
                } else {
                    Err(GeometryErrorView::UnsupportedType(t))
                },
            },
        },
        _ => Err(GeometryErrorView::NotAnObject),
    }
}

/// The time outcome of the text `s` (parsed from its UTF-8 bytes).
pub open spec fn time_of(s: Seq<char>) -> TimeOutcome {
    rfc3339(byte_chars(vstd::utf8::encode_utf8(s)))
}

pub open spec fn field_object_of(v: JsonValue, field: Seq<char>) -> Result<JsonValue, FeatureErrorView> {
    match json_get(v, field) {
        None => Err(FeatureErrorView::MissingField(field)),
        Some(x) => if x is Object {
            Ok(x)
        } else {
            Err(FeatureErrorView::WrongFieldType { field, expected: "object"@ })
        },
    }
}

pub open spec fn string_field_of(v: JsonValue, field: Seq<char>) -> Result<Seq<char>, FeatureErrorView> {
    match json_get(v, field) {
        None => Err(FeatureErrorView::MissingField(field)),
        Some(x) => match json_str(x) {
            Some(s) => Ok(s),
            None => Err(FeatureErrorView::WrongFieldType { field, expected: "string"@ }),
        },
    }
}

pub open spec fn optional_string_field_of(v: JsonValue, field: Seq<char>) -> Result<Option<Seq<char>>, FeatureErrorView> {
    match json_get(v, field) {
        None => Ok(None),
        Some(JsonValue::Null) => Ok(None),
        Some(JsonValue::String(s)) => Ok(Some(s@)),
        Some(_) => Err(FeatureErrorView::WrongFieldType { field, expected: "string or null"@ }),
    }
}

pub open spec fn timestamp_of(field: Seq<char>, raw: Seq<char>) -> Result<int, FeatureErrorView> {
    match time_of(raw) {
        TimeOutcome::Millis(m) => Ok(m),
        o => Err(FeatureErrorView::InvalidTimestamp { field, value: raw, source: (o, raw) }),
    }
}

pub open spec fn timestamp_field_of(v: JsonValue, field: Seq<char>) -> Result<int, FeatureErrorView> {
    match string_field_of(v, field) {
        Err(e) => Err(e),
        Ok(raw) => timestamp_of(field, raw),
    }
}

pub open spec fn optional_timestamp_field_of(v: JsonValue, field: Seq<char>) -> Result<Option<int>, FeatureErrorView> {
    match json_get(v, field) {
        None => Ok(None),
        Some(JsonValue::Null) => Ok(None),
        Some(JsonValue::String(s)) => match timestamp_of(field, s@) {
            Err(e) => Err(e),
            Ok(m) => Ok(Some(m)),
        },
        Some(_) => Err(FeatureErrorView::WrongFieldType { field, expected: "string or null"@ }),
    }
}

pub open spec fn message_type_of(s: Seq<char>) -> Result<MessageType, FeatureErrorView> {
    if s == "Alert"@ {
        Ok(MessageType::Alert)
    } else if s == "Update"@ {
        Ok(MessageType::Update)
    } else if s == "Cancel"@ {
        Ok(MessageType::Cancel)
    } else {
        Err(FeatureErrorView::UnknownMessageType(s))
    }
}

pub open spec fn severity_of(s: Seq<char>) -> Result<Severity, FeatureErrorView> {
    if s == "Unknown"@ {
        Ok(Severity::Unknown)
    } else if s == "Minor"@ {
        Ok(Severity::Minor)
    } else if s == "Moderate"@ {
        Ok(Severity::Moderate)
    } else if s == "Severe"@ {
        Ok(Severity::Severe)
    } else if s == "Extreme"@ {
        Ok(Severity::Extreme)
    } else {
        Err(FeatureErrorView::UnknownSeverity(s))
    }
}

pub open spec fn certainty_of(s: Seq<char>) -> Result<Certainty, FeatureErrorView> {
    if s == "Unknown"@ {
        Ok(Certainty::Unknown)
    } else if s == "Unlikely"@ {
        Ok(Certainty::Unlikely)
    } else if s == "Possible"@ {
        Ok(Certainty::Possible)
    } else if s == "Likely"@ {
        Ok(Certainty::Likely)
    } else if s == "Observed"@ {
        Ok(Certainty::Observed)
    } else {
        Err(FeatureErrorView::UnknownCertainty(s))
    }
}

pub open spec fn urgency_of(s: Seq<char>) -> Result<Urgency, FeatureErrorView> {
    if s == "Unknown"@ {
        Ok(Urgency::Unknown)
    } else if s == "Past"@ {
        Ok(Urgency::Past)
    } else if s == "Future"@ {
        Ok(Urgency::Future)
    } else if s == "Expected"@ {
        Ok(Urgency::Expected)
    } else if s == "Immediate"@ {
        Ok(Urgency::Immediate)
    } else {
        Err(FeatureErrorView::UnknownUrgency(s))
    }
}

/// Entry `index` of `references`.
#[verifier::opaque]
pub open spec fn reference_of(entry: JsonValue, index: int) -> Result<AlertReferenceView, FeatureErrorView> {
    match json_get_str(entry, "identifier"@) {
        None => Err(FeatureErrorView::InvalidReference { index, reason: "missing string \"identifier\""@ }),
        Some(identifier) => match json_get_str(entry, "sender"@) {
            None => Err(FeatureErrorView::InvalidReference { index, reason: "missing string \"sender\""@ }),
            Some(sender) => match json_get_str(entry, "sent"@) {
                None => Err(FeatureErrorView::InvalidReference { index, reason: "missing string \"sent\""@ }),
                Some(raw) => match time_of(raw) {
                    TimeOutcome::Millis(m) => Ok(AlertReferenceView { identifier, sender, sent: m }),
                    o => Err(FeatureErrorView::InvalidReference {
                        index,
                        reason: "invalid \"sent\" timestamp "@ + str_debug(raw) + ": "@ + time_message(o, raw),
                    }),
                },
            },
        },
    }
}

pub open spec fn references_list(items: Seq<JsonValue>) -> Result<Seq<AlertReferenceView>, FeatureErrorView>
    decreases items.len(),
{
    if items.len() == 0 {
        Ok(Seq::empty())
    } else {
        match references_list(items.drop_last()) {
            Err(e) => Err(e),
            Ok(rs) => match reference_of(items.last(), items.len() - 1) {
                Err(e) => Err(e),
                Ok(r) => Ok(rs.push(r)),
            },
        }
    }
}

/// `properties.references`: absent is none.
pub open spec fn references_of(props: JsonValue) -> Result<Seq<AlertReferenceView>, FeatureErrorView> {
    match json_get(props, "references"@) {
        None => Ok(Seq::empty()),
        Some(JsonValue::Array(items)) => references_list(items@),
        Some(_) => Err(FeatureErrorView::WrongFieldType { field: "references"@, expected: "array"@ }),
    }
}

/// The alert of an `Actual` feature whose properties are `p`.
pub open spec fn alert_of(f: JsonValue, p: JsonValue) -> Result<AlertView, FeatureErrorView> {
    match string_field_of(p, "id"@) { Err(e) => Err(e), Ok(id) =>
    match string_field_of(p, "messageType"@) { Err(e) => Err(e), Ok(mt_raw) =>
    match message_type_of(mt_raw) { Err(e) => Err(e), Ok(message_type) =>
    match references_of(p) { Err(e) => Err(e), Ok(references) =>
    match string_field_of(p, "event"@) { Err(e) => Err(e), Ok(event) =>
    match string_field_of(p, "severity"@) { Err(e) => Err(e), Ok(sev_raw) =>
    match severity_of(sev_raw) { Err(e) => Err(e), Ok(severity) =>
    match string_field_of(p, "certainty"@) { Err(e) => Err(e), Ok(cer_raw) =>
    match certainty_of(cer_raw) { Err(e) => Err(e), Ok(certainty) =>
    match string_field_of(p, "urgency"@) { Err(e) => Err(e), Ok(urg_raw) =>
    match urgency_of(urg_raw) { Err(e) => Err(e), Ok(urgency) =>
    match string_field_of(p, "senderName"@) { Err(e) => Err(e), Ok(sender) =>
    match string_field_of(p, "sender"@) { Err(e) => Err(e), Ok(sender_id) =>
    match timestamp_field_of(p, "sent"@) { Err(e) => Err(e), Ok(issued) =>
    match timestamp_field_of(p, "effective"@) { Err(e) => Err(e), Ok(effective) =>
    match timestamp_field_of(p, "expires"@) { Err(e) => Err(e), Ok(expires) =>
    match optional_timestamp_field_of(p, "ends"@) { Err(e) => Err(e), Ok(ends) =>
    match optional_string_field_of(p, "headline"@) { Err(e) => Err(e), Ok(headline) =>
    match optional_string_field_of(p, "description"@) { Err(e) => Err(e), Ok(description) =>
    match optional_string_field_of(p, "instruction"@) { Err(e) => Err(e), Ok(instruction) =>
    match string_field_of(p, "areaDesc"@) { Err(e) => Err(e), Ok(area_desc) =>
    match geometry_of(match json_get(f, "geometry"@) { Some(g) => g, None => JsonValue::Null }) {
        Err(e) => Err(FeatureErrorView::Geometry(e)),
        Ok(geometry) => Ok(AlertView {
            id,
            message_type,
            references,
            event,
            severity,
            certainty,
            urgency,
            sender,
            sender_id,
            issued,
            effective,
            expires,
            ends,
            headline,
            description,
            instruction,
            affected_areas: split_trimmed(area_desc, ';'),
            geometry,
        }),
    }}}}}}}}}}}}}}}}}}}}}}
}

/// One feature: `Ok(None)` when it is well formed but not `Actual`.
pub open spec fn feature_of(f: JsonValue) -> Result<Option<AlertView>, FeatureErrorView> {
    if !(f is Object) {
        Err(FeatureErrorView::NotAnObject)
    } else {
        match field_object_of(f, "properties"@) {
            Err(e) => Err(e),
            Ok(p) => match string_field_of(p, "status"@) {
                Err(e) => Err(e),
                Ok(status) => if status != "Actual"@ {
                    Ok(None)
                } else {
                    match alert_of(f, p) {
                        Err(e) => Err(e),
                        Ok(a) => Ok(Some(a)),
                    }
                },
            },
        }
    }
}

/// `properties.id` of a feature, when it is a string.
pub open spec fn feature_id(f: JsonValue) -> Option<Seq<char>> {
    match json_get(f, "properties"@) {
        Some(p) => json_get_str(p, "id"@),
        None => None,
    }
}

/// The outcome of a list of features, in order.
pub open spec fn features_outcome(features: Seq<JsonValue>) -> ParsedView
    decreases features.len(),
{
    if features.len() == 0 {
        ParsedView { alerts: Seq::empty(), skipped: Seq::empty(), filtered_non_actual: 0 }
    } else {
        let acc = features_outcome(features.drop_last());
        let f = features.last();
        match feature_of(f) {
            Ok(Some(a)) => ParsedView { alerts: acc.alerts.push(a), ..acc },
            Ok(None) => ParsedView { filtered_non_actual: acc.filtered_non_actual + 1, ..acc },
            Err(e) => ParsedView {
                skipped: acc.skipped.push(SkippedView { index: features.len() - 1, id: feature_id(f), error: e }),
                ..acc
            },
        }
    }
}

/// The outcome of a whole document.
pub open spec fn collection_outcome(root: JsonValue) -> Result<ParsedView, AlertParseErrorView> {
    match json_get_str(root, "type"@) {
        None => Err(AlertParseErrorView::NotFeatureCollection),
        Some(t) => if t != "FeatureCollection"@ {
            Err(AlertParseErrorView::WrongTopLevelType(t))
        } else {
            match json_get(root, "features"@) {
                Some(JsonValue::Array(items)) => Ok(features_outcome(items@)),
                _ => Err(AlertParseErrorView::MissingFeatures),
            }
        },
    }
}


// ---------------------------------------------------------------------------
// Geometry

fn finite_bits(b: u64) -> (r: bool)
    ensures
        r == is_finite_bits(b),
{
    (b >> 52u64) & 0x7ffu64 != 0x7ffu64
}

fn parse_position(value: &JsonValue, context: &'static str) -> (r: Result<LonLat, GeometryError>)
    ensures
        match r {
            Ok(p) => position_of(*value, context@) == Ok::<LonLat, GeometryErrorView>(p),
            Err(e) => position_of(*value, context@) == Err::<LonLat, GeometryErrorView>(e@),
        },
{
    let raw = match value.as_array() {
        Some(a) => a,
        None => {
            return Err(GeometryError::NotAnArray { context });
        },
    };
    if raw.len() != 2 {
        return Err(GeometryError::WrongPositionArity { context, len: raw.len() });
    }
    let lon = match &raw[0] {
        JsonValue::Number(b) => *b,
        _ => {
            return Err(GeometryError::NonNumericCoordinate { context });
        },
    };
    let lat = match &raw[1] {
        JsonValue::Number(b) => *b,
        _ => {
            return Err(GeometryError::NonNumericCoordinate { context });
        },
    };
    if !finite_bits(lon) || !finite_bits(lat) {
        return Err(GeometryError::NonNumericCoordinate { context });
    }
    Ok([lon, lat])
}

fn parse_ring(value: &JsonValue, context: &'static str) -> (r: Result<Ring, GeometryError>)
    ensures
        match r {
            Ok(ring) => ring_of(*value, context@) == Ok::<Seq<LonLat>, GeometryErrorView>(ring@),
            Err(e) => ring_of(*value, context@) == Err::<Seq<LonLat>, GeometryErrorView>(e@),
        },
{
    let raw = match value.as_array() {
        Some(a) => a,
        None => {
            return Err(GeometryError::NotAnArray { context });
        },
    };
    let mut ring: Ring = Vec::new();
    let n = raw.len();
    let mut i: usize = 0;
    assert(raw@.take(0) =~= Seq::<JsonValue>::empty());
    while i < n
        invariant
            n == raw@.len(),
            i <= n,
            ring_of(*value, context@) == positions_of(raw@, context@),
            positions_of(raw@.take(i as int), context@) == Ok::<Seq<LonLat>, GeometryErrorView>(ring@),
        decreases n - i,
    {
        assert(raw@.take(i as int + 1).drop_last() =~= raw@.take(i as int));
        assert(raw@.take(i as int + 1).last() == raw@[i as int]);
        let p = parse_position(&raw[i], context);
        match p {
            Ok(pos) => {
                ring.push(pos);
            },
            Err(e) => {
                proof {
                    lemma_positions_stop(raw@, context@, i as int + 1);
                }
                return Err(e);
            },
        }
        i = i + 1;
    }
    assert(raw@.take(n as int) =~= raw@);
    Ok(ring)
}

/// A failure on a prefix of the positions is the failure of the whole list.
proof fn lemma_positions_stop(items: Seq<JsonValue>, context: Seq<char>, k: int)
    requires
        0 <= k <= items.len(),
        positions_of(items.take(k), context) is Err,
    ensures
        positions_of(items, context) == positions_of(items.take(k), context),
    decreases items.len() - k,
{
    if k < items.len() {
        assert(items.take(k + 1).drop_last() =~= items.take(k));
        lemma_positions_stop(items, context, k + 1);
    } else {
        assert(items.take(k) =~= items);
    }
}

proof fn lemma_rings_stop(items: Seq<JsonValue>, context: Seq<char>, k: int)
    requires
        0 <= k <= items.len(),
        rings_of(items.take(k), context) is Err,
    ensures
        rings_of(items, context) == rings_of(items.take(k), context),
    decreases items.len() - k,
{
    if k < items.len() {
        assert(items.take(k + 1).drop_last() =~= items.take(k));
        lemma_rings_stop(items, context, k + 1);
    } else {
        assert(items.take(k) =~= items);
    }
}

proof fn lemma_polygons_stop(items: Seq<JsonValue>, k: int)
    requires
        0 <= k <= items.len(),
        polygons_of(items.take(k)) is Err,
    ensures
        polygons_of(items) == polygons_of(items.take(k)),
    decreases items.len() - k,
{
    if k < items.len() {
        assert(items.take(k + 1).drop_last() =~= items.take(k));
        lemma_polygons_stop(items, k + 1);
    } else {
        assert(items.take(k) =~= items);
    }
}

fn parse_polygon_coordinates(value: &JsonValue, context: &'static str) -> (r: Result<Vec<Ring>, GeometryError>)
    ensures
        match r {
            Ok(rings) => polygon_of(*value, context@) == Ok::<Seq<Seq<LonLat>>, GeometryErrorView>(
                rings_view(rings@),
            ),
            Err(e) => polygon_of(*value, context@) == Err::<Seq<Seq<LonLat>>, GeometryErrorView>(e@),
        },
{
    let raw = match value.as_array() {
        Some(a) => a,
        None => {
            return Err(GeometryError::NotAnArray { context });
        },
    };
    let mut rings: Vec<Ring> = Vec::new();
    let n = raw.len();
    let mut i: usize = 0;
    assert(raw@.take(0) =~= Seq::<JsonValue>::empty());
    assert(rings_view(rings@) =~= Seq::<Seq<LonLat>>::empty());
    while i < n
        invariant
            n == raw@.len(),
            i <= n,
            polygon_of(*value, context@) == rings_of(raw@, context@),
            rings_of(raw@.take(i as int), context@) == Ok::<Seq<Seq<LonLat>>, GeometryErrorView>(
                rings_view(rings@),
            ),
        decreases n - i,
    {
        assert(raw@.take(i as int + 1).drop_last() =~= raw@.take(i as int));
        assert(raw@.take(i as int + 1).last() == raw@[i as int]);
        let ring = parse_ring(&raw[i], context);
        match ring {
            Ok(ring) => {
                if ring.len() < 4 {
                    proof {
                        lemma_rings_stop(raw@, context@, i as int + 1);
                    }
                    return Err(GeometryError::RingTooShort { ring_index: i, len: ring.len() });
                }
                let ghost r0 = rings_view(rings@);
                let ghost rv = ring@;
                rings.push(ring);
                assert(rings_view(rings@) =~= r0.push(rv));
            },
            Err(e) => {
                proof {
                    lemma_rings_stop(raw@, context@, i as int + 1);
                }
                return Err(e);
            },
        }
        i = i + 1;
    }
    assert(raw@.take(n as int) =~= raw@);
    Ok(rings)
}

fn parse_geometry(value: &JsonValue) -> (r: Result<Option<AlertGeometry>, GeometryError>)
    ensures
        match r {
            Ok(g) => geometry_of(*value) == Ok::<Option<GeometryView>, GeometryErrorView>(opt_geometry_view(g)),
            Err(e) => geometry_of(*value) == Err::<Option<GeometryView>, GeometryErrorView>(e@),
        },
{
    if value.is_null() {
        return Ok(None);
    }
    if !value.is_object() {
        return Err(GeometryError::NotAnObject);
    }
    let geometry_type = match get_str(value, "type") {
        Some(t) => t,
        None => {
            return Err(GeometryError::MissingType);
        },
    };
    let coordinates = match value.get("coordinates") {
        Some(c) => c,
        None => {
            return Err(GeometryError::MissingCoordinates);
        },
    };
    if str_eq(geometry_type, "Polygon") {
        let rings = parse_polygon_coordinates(coordinates, "Polygon.coordinates");
        match rings {
            Ok(rings) => Ok(Some(AlertGeometry::Polygon(rings))),
            Err(e) => Err(e),
        }
    } else if str_eq(geometry_type, "MultiPolygon") {
        let raw_polygons = match coordinates.as_array() {
            Some(a) => a,
            None => {
                return Err(GeometryError::NotAnArray { context: "MultiPolygon.coordinates" });
            },
        };
        let mut polygons: Vec<Vec<Ring>> = Vec::new();
        let n = raw_polygons.len();
        let mut i: usize = 0;
        assert(raw_polygons@.take(0) =~= Seq::<JsonValue>::empty());
        assert(polygons_view(polygons@) =~= Seq::<Seq<Seq<LonLat>>>::empty());
        while i < n
            invariant
                n == raw_polygons@.len(),
                i <= n,
                *coordinates == JsonValue::Array(*raw_polygons),
                geometry_of(*value) == (match polygons_of(raw_polygons@) {
                    Err(e) => Err(e),
                    Ok(ps) => Ok(Some(GeometryView::MultiPolygon(ps))),
                }),
                polygons_of(raw_polygons@.take(i as int)) == Ok::<Seq<Seq<Seq<LonLat>>>, GeometryErrorView>(
                    polygons_view(polygons@),
                ),
            decreases n - i,
        {
            assert(raw_polygons@.take(i as int + 1).drop_last() =~= raw_polygons@.take(i as int));
            assert(raw_polygons@.take(i as int + 1).last() == raw_polygons@[i as int]);
            let polygon = parse_polygon_coordinates(&raw_polygons[i], "MultiPolygon.coordinates[*]");
            match polygon {
                Ok(polygon) => {
                    let ghost p0 = polygons_view(polygons@);
                    let ghost pv = rings_view(polygon@);
                    polygons.push(polygon);
                    assert(polygons_view(polygons@) =~= p0.push(pv));
                },
                Err(e) => {
                    proof {
                        lemma_polygons_stop(raw_polygons@, i as int + 1);
                    }
                    return Err(e);
                },
            }
            i = i + 1;
        }
        assert(raw_polygons@.take(n as int) =~= raw_polygons@);
        Ok(Some(AlertGeometry::MultiPolygon(polygons)))
    } else {
        Err(GeometryError::UnsupportedType(String::from_str(geometry_type)))
    }
}


// ---------------------------------------------------------------------------
// Fields

/// The error's report of `o` for `v`, as a view.
proof fn lemma_reports_view(e: TimeParseError, o: TimeOutcome, v: Seq<char>)
    requires
        reports(e, o, v),
    ensures
        time_error_view(e) == (o, v),
{
}

fn field_object<'a>(value: &'a JsonValue, field: &'static str) -> (r: Result<&'a JsonValue, FeatureParseError>)
    ensures
        match r {
            Ok(x) => field_object_of(*value, field@) == Ok::<JsonValue, FeatureErrorView>(*x),
            Err(e) => field_object_of(*value, field@) == Err::<JsonValue, FeatureErrorView>(e@),
        },
{
    match value.get(field) {
        None => Err(FeatureParseError::MissingField(field)),
        Some(inner) => if inner.is_object() {
            Ok(inner)
        } else {
            Err(FeatureParseError::WrongFieldType { field, expected: "object" })
        },
    }
}

fn string_field<'a>(value: &'a JsonValue, field: &'static str) -> (r: Result<&'a str, FeatureParseError>)
    ensures
        match r {
            Ok(s) => string_field_of(*value, field@) == Ok::<Seq<char>, FeatureErrorView>(s@),
            Err(e) => string_field_of(*value, field@) == Err::<Seq<char>, FeatureErrorView>(e@),
        },
{
    match value.get(field) {
        None => Err(FeatureParseError::MissingField(field)),
        Some(inner) => match inner.as_str() {
            Some(s) => Ok(s),
            None => Err(FeatureParseError::WrongFieldType { field, expected: "string" }),
        },
    }
}

fn optional_string_field(value: &JsonValue, field: &'static str) -> (r: Result<Option<String>, FeatureParseError>)
    ensures
        match r {
            Ok(o) => optional_string_field_of(*value, field@) == Ok::<Option<Seq<char>>, FeatureErrorView>(
                opt_string_view(o),
            ),
            Err(e) => optional_string_field_of(*value, field@) == Err::<Option<Seq<char>>, FeatureErrorView>(
                e@,
            ),
        },
{
    match value.get(field) {
        None => Ok(None),
        Some(JsonValue::Null) => Ok(None),
        Some(JsonValue::String(s)) => Ok(Some(s.clone())),
        Some(_) => Err(FeatureParseError::WrongFieldType { field, expected: "string or null" }),
    }
}

fn timestamp_from(field: &'static str, raw: &str) -> (r: Result<Timestamp, FeatureParseError>)
    ensures
        match r {
            Ok(t) => timestamp_of(field@, raw@) == Ok::<int, FeatureErrorView>(t@),
            Err(e) => timestamp_of(field@, raw@) == Err::<int, FeatureErrorView>(e@),
        },
{
    match parse_rfc3339(raw) {
        Ok(t) => Ok(t),
        Err(source) => {
            proof {
                lemma_reports_view(source, time_of(raw@), raw@);
            }
            Err(FeatureParseError::InvalidTimestamp { field, value: String::from_str(raw), source })
        },
    }
}

fn timestamp_field(value: &JsonValue, field: &'static str) -> (r: Result<Timestamp, FeatureParseError>)
    ensures
        match r {
            Ok(t) => timestamp_field_of(*value, field@) == Ok::<int, FeatureErrorView>(t@),
            Err(e) => timestamp_field_of(*value, field@) == Err::<int, FeatureErrorView>(e@),
        },
{
    match string_field(value, field) {
        Err(e) => Err(e),
        Ok(raw) => timestamp_from(field, raw),
    }
}

fn optional_timestamp_field(value: &JsonValue, field: &'static str) -> (r: Result<Option<Timestamp>, FeatureParseError>)
    ensures
        match r {
            Ok(o) => optional_timestamp_field_of(*value, field@) == Ok::<Option<int>, FeatureErrorView>(
                opt_time_view(o),
            ),
            Err(e) => optional_timestamp_field_of(*value, field@) == Err::<Option<int>, FeatureErrorView>(e@),
        },
{
    match value.get(field) {
        None => Ok(None),
        Some(JsonValue::Null) => Ok(None),
        Some(JsonValue::String(s)) => match timestamp_from(field, s.as_str()) {
            Err(e) => Err(e),
            Ok(t) => Ok(Some(t)),
        },
        Some(_) => Err(FeatureParseError::WrongFieldType { field, expected: "string or null" }),
    }
}

fn parse_message_type(raw: &str) -> (r: Result<MessageType, FeatureParseError>)
    ensures
        match r {
            Ok(t) => message_type_of(raw@) == Ok::<MessageType, FeatureErrorView>(t),
            Err(e) => message_type_of(raw@) == Err::<MessageType, FeatureErrorView>(e@),
        },
{
    if str_eq(raw, "Alert") {
        Ok(MessageType::Alert)
    } else if str_eq(raw, "Update") {
        Ok(MessageType::Update)
    } else if str_eq(raw, "Cancel") {
        Ok(MessageType::Cancel)
    } else {
        Err(FeatureParseError::UnknownMessageType(String::from_str(raw)))
    }
}

fn parse_severity(raw: &str) -> (r: Result<Severity, FeatureParseError>)
    ensures
        match r {
            Ok(t) => severity_of(raw@) == Ok::<Severity, FeatureErrorView>(t),
            Err(e) => severity_of(raw@) == Err::<Severity, FeatureErrorView>(e@),
        },
{
    if str_eq(raw, "Unknown") {
        Ok(Severity::Unknown)
    } else if str_eq(raw, "Minor") {
        Ok(Severity::Minor)
    } else if str_eq(raw, "Moderate") {
        Ok(Severity::Moderate)
    } else if str_eq(raw, "Severe") {
        Ok(Severity::Severe)
    } else if str_eq(raw, "Extreme") {
        Ok(Severity::Extreme)
    } else {
        Err(FeatureParseError::UnknownSeverity(String::from_str(raw)))
    }
}

fn parse_certainty(raw: &str) -> (r: Result<Certainty, FeatureParseError>)
    ensures
        match r {
            Ok(t) => certainty_of(raw@) == Ok::<Certainty, FeatureErrorView>(t),
            Err(e) => certainty_of(raw@) == Err::<Certainty, FeatureErrorView>(e@),
        },
{
    if str_eq(raw, "Unknown") {
        Ok(Certainty::Unknown)
    } else if str_eq(raw, "Unlikely") {
        Ok(Certainty::Unlikely)
    } else if str_eq(raw, "Possible") {
        Ok(Certainty::Possible)
    } else if str_eq(raw, "Likely") {
        Ok(Certainty::Likely)
    } else if str_eq(raw, "Observed") {
        Ok(Certainty::Observed)
    } else {
        Err(FeatureParseError::UnknownCertainty(String::from_str(raw)))
    }
}

fn parse_urgency(raw: &str) -> (r: Result<Urgency, FeatureParseError>)
    ensures
        match r {
            Ok(t) => urgency_of(raw@) == Ok::<Urgency, FeatureErrorView>(t),
            Err(e) => urgency_of(raw@) == Err::<Urgency, FeatureErrorView>(e@),
        },
{
    if str_eq(raw, "Unknown") {
        Ok(Urgency::Unknown)
    } else if str_eq(raw, "Past") {
        Ok(Urgency::Past)
    } else if str_eq(raw, "Future") {
        Ok(Urgency::Future)
    } else if str_eq(raw, "Expected") {
        Ok(Urgency::Expected)
    } else if str_eq(raw, "Immediate") {
        Ok(Urgency::Immediate)
    } else {
        Err(FeatureParseError::UnknownUrgency(String::from_str(raw)))
    }
}

fn invalid_reference(index: usize, reason: &str) -> (e: FeatureParseError)
    ensures
        e@ == (FeatureErrorView::InvalidReference { index: index as int, reason: reason@ }),
{
    FeatureParseError::InvalidReference { index, reason: String::from_str(reason) }
}

fn parse_reference(entry: &JsonValue, index: usize) -> (r: Result<AlertReference, FeatureParseError>)
    ensures
        match r {
            Ok(x) => reference_of(*entry, index as int) == Ok::<AlertReferenceView, FeatureErrorView>(x@),
            Err(e) => reference_of(*entry, index as int) == Err::<AlertReferenceView, FeatureErrorView>(e@),
        },
{
    reveal(reference_of);
    let identifier = match get_str(entry, "identifier") {
        Some(s) => String::from_str(s),
        None => {
            return Err(invalid_reference(index, "missing string \"identifier\""));
        },
    };
    let sender = match get_str(entry, "sender") {
        Some(s) => String::from_str(s),
        None => {
            return Err(invalid_reference(index, "missing string \"sender\""));
        },
    };
    let sent_raw = match get_str(entry, "sent") {
        Some(s) => s,
        None => {
            return Err(invalid_reference(index, "missing string \"sent\""));
        },
    };
    match parse_rfc3339(sent_raw) {
        Ok(sent) => Ok(AlertReference { identifier, sender, sent }),
        Err(e) => {
            proof {
                lemma_reports_view(e, time_of(sent_raw@), sent_raw@);
            }
            let mut reason = String::from_str("invalid \"sent\" timestamp ");
            let quoted = debug_str(sent_raw);
            reason.append(quoted.as_str());
            reason.append(": ");
            let message = e.to_string();
            reason.append(message.as_str());
            proof {
                reveal_strlit("invalid \"sent\" timestamp ");
                reveal_strlit(": ");
            }
            assert(reason@ =~= "invalid \"sent\" timestamp "@ + str_debug(sent_raw@) + ": "@ + time_message(
                time_of(sent_raw@),
                sent_raw@,
            ));
            Err(FeatureParseError::InvalidReference { index, reason })
        },
    }
}

proof fn lemma_references_stop(items: Seq<JsonValue>, k: int)
    requires
        0 <= k <= items.len(),
        references_list(items.take(k)) is Err,
    ensures
        references_list(items) == references_list(items.take(k)),
    decreases items.len() - k,
{
    if k < items.len() {
        assert(items.take(k + 1).drop_last() =~= items.take(k));
        lemma_references_stop(items, k + 1);
    } else {
        assert(items.take(k) =~= items);
    }
}

fn parse_references(properties: &JsonValue) -> (r: Result<Vec<AlertReference>, FeatureParseError>)
    ensures
        match r {
            Ok(v) => references_of(*properties) == Ok::<Seq<AlertReferenceView>, FeatureErrorView>(
                v@.map_values(|x: AlertReference| x@),
            ),
            Err(e) => references_of(*properties) == Err::<Seq<AlertReferenceView>, FeatureErrorView>(e@),
        },
{
    let raw = match properties.get("references") {
        None => {
            let v: Vec<AlertReference> = Vec::new();
            assert(v@.map_values(|x: AlertReference| x@) =~= Seq::<AlertReferenceView>::empty());
            return Ok(v);
        },
        Some(raw) => raw,
    };
    let array = match raw.as_array() {
        Some(a) => a,
        None => {
            return Err(FeatureParseError::WrongFieldType { field: "references", expected: "array" });
        },
    };
    let mut references: Vec<AlertReference> = Vec::new();
    let n = array.len();
    let mut i: usize = 0;
    assert(array@.take(0) =~= Seq::<JsonValue>::empty());
    assert(references@.map_values(|x: AlertReference| x@) =~= Seq::<AlertReferenceView>::empty());
    while i < n
        invariant
            n == array@.len(),
            i <= n,
            references_of(*properties) == references_list(array@),
            references_list(array@.take(i as int)) == Ok::<Seq<AlertReferenceView>, FeatureErrorView>(
                references@.map_values(|x: AlertReference| x@),
            ),
        decreases n - i,
    {
        assert(array@.take(i as int + 1).drop_last() =~= array@.take(i as int));
        assert(array@.take(i as int + 1).last() == array@[i as int]);
        match parse_reference(&array[i], i) {
            Ok(x) => {
                let ghost r0 = references@.map_values(|x: AlertReference| x@);
                let ghost xv = x@;
                references.push(x);
                assert(references@.map_values(|x: AlertReference| x@) =~= r0.push(xv));
            },
            Err(e) => {
                proof {
                    lemma_references_stop(array@, i as int + 1);
                }
                return Err(e);
            },
        }
        i = i + 1;
    }
    assert(array@.take(n as int) =~= array@);
    Ok(references)
}


// ---------------------------------------------------------------------------
// Features and documents

pub open spec fn opt_alert_view(a: Option<Alert>) -> Option<AlertView> {
    match a {
        Some(x) => Some(x@),
        None => None,
    }
}

/// The alert of an `Actual` feature whose properties are `properties`.
#[verifier::rlimit(40)]
fn parse_alert(feature: &JsonValue, properties: &JsonValue) -> (r: Result<Alert, FeatureParseError>)
    ensures
        match r {
            Ok(a) => alert_of(*feature, *properties) == Ok::<AlertView, FeatureErrorView>(a@),
            Err(e) => alert_of(*feature, *properties) == Err::<AlertView, FeatureErrorView>(e@),
        },
{
    let p = properties;
    let id = match string_field(p, "id") { Ok(s) => String::from_str(s), Err(e) => { return Err(e); } };
    let mt_raw = match string_field(p, "messageType") { Ok(s) => s, Err(e) => { return Err(e); } };
    let message_type = match parse_message_type(mt_raw) { Ok(t) => t, Err(e) => { return Err(e); } };
    let references = match parse_references(p) { Ok(v) => v, Err(e) => { return Err(e); } };
    let event = match string_field(p, "event") { Ok(s) => String::from_str(s), Err(e) => { return Err(e); } };
    let sev_raw = match string_field(p, "severity") { Ok(s) => s, Err(e) => { return Err(e); } };
    let severity = match parse_severity(sev_raw) { Ok(t) => t, Err(e) => { return Err(e); } };
    let cer_raw = match string_field(p, "certainty") { Ok(s) => s, Err(e) => { return Err(e); } };
    let certainty = match parse_certainty(cer_raw) { Ok(t) => t, Err(e) => { return Err(e); } };
    let urg_raw = match string_field(p, "urgency") { Ok(s) => s, Err(e) => { return Err(e); } };
    let urgency = match parse_urgency(urg_raw) { Ok(t) => t, Err(e) => { return Err(e); } };
    let sender = match string_field(p, "senderName") { Ok(s) => String::from_str(s), Err(e) => { return Err(e); } };
    let sender_id = match string_field(p, "sender") { Ok(s) => String::from_str(s), Err(e) => { return Err(e); } };
    let issued = match timestamp_field(p, "sent") { Ok(t) => t, Err(e) => { return Err(e); } };
    let effective = match timestamp_field(p, "effective") { Ok(t) => t, Err(e) => { return Err(e); } };
    let expires = match timestamp_field(p, "expires") { Ok(t) => t, Err(e) => { return Err(e); } };
    let ends = match optional_timestamp_field(p, "ends") { Ok(t) => t, Err(e) => { return Err(e); } };
    let headline = match optional_string_field(p, "headline") { Ok(t) => t, Err(e) => { return Err(e); } };
    let description = match optional_string_field(p, "description") { Ok(t) => t, Err(e) => { return Err(e); } };
    let instruction = match optional_string_field(p, "instruction") { Ok(t) => t, Err(e) => { return Err(e); } };
    let area_desc = match string_field(p, "areaDesc") { Ok(s) => s, Err(e) => { return Err(e); } };
    let affected_areas = split_trimmed_pieces(area_desc, ';');
    let null = JsonValue::Null;
    let raw_geometry = match feature.get("geometry") {
        Some(g) => g,
        None => &null,
    };
    let geometry = match parse_geometry(raw_geometry) {
        Ok(g) => g,
        Err(e) => {
            return Err(FeatureParseError::Geometry(e));
        },
    };
    let alert = Alert {
        id,
        message_type,
        references,
        event,
        severity,
        certainty,
        urgency,
        sender,
        sender_id,
        issued,
        effective,
        expires,
        ends,
        headline,
        description,
        instruction,
        affected_areas,
        geometry,
    };
    assert(alert@.affected_areas == strings_view(alert.affected_areas@));
    Ok(alert)
}

/// One feature: `Ok(None)` when it is well formed but not `Actual`.
fn parse_feature(feature: &JsonValue) -> (r: Result<Option<Alert>, FeatureParseError>)
    ensures
        match r {
            Ok(a) => feature_of(*feature) == Ok::<Option<AlertView>, FeatureErrorView>(opt_alert_view(a)),
            Err(e) => feature_of(*feature) == Err::<Option<AlertView>, FeatureErrorView>(e@),
        },
{
    if !feature.is_object() {
        return Err(FeatureParseError::NotAnObject);
    }
    let properties = match field_object(feature, "properties") {
        Ok(p) => p,
        Err(e) => {
            return Err(e);
        },
    };
    let status = match string_field(properties, "status") {
        Ok(s) => s,
        Err(e) => {
            return Err(e);
        },
    };
    if !str_eq(status, "Actual") {
        return Ok(None);
    }
    match parse_alert(feature, properties) {
        Ok(a) => Ok(Some(a)),
        Err(e) => Err(e),
    }
}

/// Read a whole `/alerts/active` document. Only a document that is not a
/// `FeatureCollection` with a `features` array fails as a whole; a feature
/// that cannot be read is listed in `skipped` and the others are kept.
pub fn parse_feature_collection_value(root: &JsonValue) -> (r: Result<ParsedAlerts, AlertParseError>)
    ensures
        match r {
            Ok(p) => collection_outcome(*root) == Ok::<ParsedView, AlertParseErrorView>(p@),
            Err(e) => collection_outcome(*root) == Err::<ParsedView, AlertParseErrorView>(e@),
        },
{
    let root_type = match get_str(root, "type") {
        Some(t) => t,
        None => {
            return Err(AlertParseError::NotFeatureCollection);
        },
    };
    if !str_eq(root_type, "FeatureCollection") {
        return Err(AlertParseError::WrongTopLevelType { found: String::from_str(root_type) });
    }
    let features = match root.get("features") {
        Some(f) => match f.as_array() {
            Some(a) => a,
            None => {
                return Err(AlertParseError::MissingFeatures);
            },
        },
        None => {
            return Err(AlertParseError::MissingFeatures);
        },
    };
    let mut result = ParsedAlerts { alerts: Vec::new(), skipped: Vec::new(), filtered_non_actual: 0 };
    let n = features.len();
    let mut index: usize = 0;
    assert(features@.take(0) =~= Seq::<JsonValue>::empty());
    assert(result@.alerts =~= Seq::<AlertView>::empty());
    assert(result@.skipped =~= Seq::<SkippedView>::empty());
    assert(result@ == features_outcome(features@.take(0)));
    while index < n
        invariant
            n == features@.len(),
            index <= n,
            collection_outcome(*root) == Ok::<ParsedView, AlertParseErrorView>(features_outcome(features@)),
            result@ == features_outcome(features@.take(index as int)),
            result.filtered_non_actual <= index,
        decreases n - index,
    {
        let ghost acc = result@;
        let ghost f = features@[index as int];
        assert(features@.take(index as int + 1).drop_last() =~= features@.take(index as int));
        assert(features@.take(index as int + 1).last() == f);
        let feature = &features[index];
        match parse_feature(feature) {
            Ok(Some(alert)) => {
                let ghost av = alert@;
                result.alerts.push(alert);
                assert(result@.alerts =~= acc.alerts.push(av));
            },
            Ok(None) => {
                result.filtered_non_actual = result.filtered_non_actual + 1;
            },
            Err(error) => {
                let id = match feature.get("properties") {
                    Some(p) => match get_str(p, "id") {
                        Some(s) => Some(String::from_str(s)),
                        None => None,
                    },
                    None => None,
                };
                let skipped = SkippedFeature { index, id, error };
                let ghost sv = skipped@;
                result.skipped.push(skipped);
                assert(result@.skipped =~= acc.skipped.push(sv));
            },
        }
        assert(result@ == features_outcome(features@.take(index as int + 1)));
        index = index + 1;
    }
    assert(features@.take(n as int) =~= features@);
    Ok(result)
}


// ---------------------------------------------------------------------------
// Laws

/// Every ring of a parsed polygon has at least four positions.
pub proof fn lemma_parsed_rings_are_closed_shapes(items: Seq<JsonValue>, context: Seq<char>)
    ensures
        rings_of(items, context) matches Ok(rs) ==> forall|i: int| 0 <= i < rs.len() ==> #[trigger] rs[i].len() >= 4,
    decreases items.len(),
{
    if items.len() > 0 {
        lemma_parsed_rings_are_closed_shapes(items.drop_last(), context);
    }
}

/// Features are read independently: a document made of two runs of
/// features yields the alerts and the filtered count of each run, and as
/// many skipped features as both runs together.
pub proof fn lemma_features_independent(a: Seq<JsonValue>, b: Seq<JsonValue>)
    ensures
        features_outcome(a + b).alerts == features_outcome(a).alerts + features_outcome(b).alerts,
        features_outcome(a + b).filtered_non_actual == features_outcome(a).filtered_non_actual
            + features_outcome(b).filtered_non_actual,
        features_outcome(a + b).skipped.len() == features_outcome(a).skipped.len() + features_outcome(b).skipped.len(),
    decreases b.len(),
{
    if b.len() == 0 {
        assert(a + b =~= a);
        assert(features_outcome(a).alerts + Seq::<AlertView>::empty() =~= features_outcome(a).alerts);
    } else {
        lemma_features_independent(a, b.drop_last());
        assert((a + b).drop_last() =~= a + b.drop_last());
        assert((a + b).last() == b.last());
        let x = features_outcome(a).alerts;
        let y = features_outcome(b.drop_last()).alerts;
        match feature_of(b.last()) {
            Ok(Some(al)) => {
                assert((x + y).push(al) =~= x + y.push(al));
            },
            _ => {},
        }
    }
}

/// Every feature is accounted for exactly once: as an alert, as a
/// filtered non-`Actual` feature, or as a skipped one.
pub proof fn lemma_every_feature_accounted(features: Seq<JsonValue>)
    ensures
        features_outcome(features).alerts.len() + features_outcome(features).skipped.len()
            + features_outcome(features).filtered_non_actual == features.len(),
    decreases features.len(),
{
    if features.len() > 0 {
        lemma_every_feature_accounted(features.drop_last());
    }
}

/// The alert a feature yields, if it yields one.
#[verifier::opaque]
pub open spec fn alert_if_actual(f: JsonValue) -> Option<AlertView> {
    match feature_of(f) {
        Ok(Some(a)) => Some(a),
        _ => None,
    }
}

/// A well-formed feature whose status is not `Actual`.
#[verifier::opaque]
pub open spec fn is_filtered(f: JsonValue) -> bool {
    feature_of(f) matches Ok(None)
}

/// The skipped entry for feature `k` of `features`, when it fails to parse.
#[verifier::opaque]
pub open spec fn skipped_at(features: Seq<JsonValue>, k: int) -> Option<SkippedView> {
    match feature_of(features[k]) {
        Err(e) => Some(SkippedView { index: k, id: feature_id(features[k]), error: e }),
        _ => None,
    }
}

/// One step of [`features_outcome`]: the outcome of `t` from that of its
/// prefix and the outcome `r` of its last feature.
proof fn lemma_features_outcome_step(t: Seq<JsonValue>, r: Result<Option<AlertView>, FeatureErrorView>)
    requires
        t.len() > 0,
        r == feature_of(t.last()),
    ensures
        ({
            let acc = features_outcome(t.drop_last());
            features_outcome(t) == match r {
                Ok(Some(a)) => ParsedView { alerts: acc.alerts.push(a), ..acc },
                Ok(None) => ParsedView { filtered_non_actual: acc.filtered_non_actual + 1, ..acc },
                Err(e) => ParsedView {
                    skipped: acc.skipped.push(SkippedView { index: t.len() - 1, id: feature_id(t.last()), error: e }),
                    ..acc
                },
            }
        }),
        alert_if_actual(t.last()) == match r {
            Ok(Some(a)) => Some(a),
            _ => None::<AlertView>,
        },
        is_filtered(t.last()) == (r matches Ok(None)),
{
    reveal(alert_if_actual);
    reveal(is_filtered);
}

proof fn lemma_skipped_at_step(features: Seq<JsonValue>, k: int, r: Result<Option<AlertView>, FeatureErrorView>)
    requires
        0 <= k < features.len(),
        r == feature_of(features[k]),
    ensures
        skipped_at(features, k) == match r {
            Err(e) => Some(SkippedView { index: k, id: feature_id(features[k]), error: e }),
            _ => None::<SkippedView>,
        },
{
    reveal(skipped_at);
}

#[verifier::spinoff_prover]
proof fn lemma_features_outcome_prefix(features: Seq<JsonValue>, m: int)
    requires
        0 <= m <= features.len(),
    ensures
        features_outcome(features.take(m)).alerts == features.take(m).filter_map(|f: JsonValue| alert_if_actual(f)),
        features_outcome(features.take(m)).filtered_non_actual == features.take(m).filter(|f: JsonValue| is_filtered(f)).len(),
        features_outcome(features.take(m)).skipped == Seq::new(m as nat, |k: int| k).filter_map(
            |k: int| skipped_at(features, k),
        ),
    decreases m,
{
    let fm = |f: JsonValue| alert_if_actual(f);
    let pf = |f: JsonValue| is_filtered(f);
    let sk = |k: int| skipped_at(features, k);
    if m == 0 {
        assert(features.take(0) =~= Seq::<JsonValue>::empty());
        assert(Seq::new(0, |k: int| k) =~= Seq::<int>::empty());
    } else {
        lemma_features_outcome_prefix(features, m - 1);
        let t = features.take(m);
        assert(t.drop_last() =~= features.take(m - 1));
        let last = features[m - 1];
        assert(t.last() == last);
        let r = feature_of(last);
        lemma_features_outcome_step(t, r);
        lemma_skipped_at_step(features, m - 1, r);
        let ks = Seq::new(m as nat, |k: int| k);
        assert(ks.drop_last() =~= Seq::new((m - 1) as nat, |k: int| k));
        assert(ks.last() == m - 1);
        let acc = features_outcome(features.take(m - 1));
        assert(t.filter_map(fm) == match fm(t.last()) {
            Some(x) => t.drop_last().filter_map(fm) + seq![x],
            None => t.drop_last().filter_map(fm),
        });
        reveal(Seq::filter);
        assert(t.filter(pf) == if pf(t.last()) { t.drop_last().filter(pf).push(t.last()) } else { t.drop_last().filter(pf) });
        assert(ks.filter_map(sk) == match sk(ks.last()) {
            Some(x) => ks.drop_last().filter_map(sk) + seq![x],
            None => ks.drop_last().filter_map(sk),
        });
        match r {
            Ok(Some(a)) => {
                assert(acc.alerts.push(a) =~= acc.alerts + seq![a]);
            },
            Ok(None) => {},
            Err(e) => {
                let sv = SkippedView { index: m - 1, id: feature_id(last), error: e };
                assert(acc.skipped.push(sv) =~= acc.skipped + seq![sv]);
            },
        }
    }
}

/// What a list of features yields, feature by feature: the alerts are the
/// `Actual` features' alerts in document order; the filtered count is the
/// number of well-formed features whose status is not `Actual`; the
/// skipped entries are, in increasing index order, exactly the features
/// that fail to parse, each with its index, its `properties.id` and why.
pub proof fn lemma_features_outcome_parts(features: Seq<JsonValue>)
    ensures
        features_outcome(features).alerts == features.filter_map(|f: JsonValue| alert_if_actual(f)),
        features_outcome(features).filtered_non_actual == features.filter(|f: JsonValue| is_filtered(f)).len(),
        features_outcome(features).skipped == Seq::new(features.len(), |k: int| k).filter_map(
            |k: int| skipped_at(features, k),
        ),
{
    lemma_features_outcome_prefix(features, features.len() as int);
    assert(features.take(features.len() as int) =~= features);
}

/// Each CAP code word reads back as itself: the name of every message
/// type, severity, certainty and urgency parses to that same value (and
/// any other text is the matching "unrecognized" error, by definition).
pub proof fn lemma_code_words_round_trip(m: MessageType, s: Severity, c: Certainty, u: Urgency)
    ensures
        message_type_of(message_type_name(m)) == Ok::<MessageType, FeatureErrorView>(m),
        severity_of(severity_name(s)) == Ok::<Severity, FeatureErrorView>(s),
        certainty_of(certainty_name(c)) == Ok::<Certainty, FeatureErrorView>(c),
        urgency_of(urgency_name(u)) == Ok::<Urgency, FeatureErrorView>(u),
{
    reveal_strlit("Alert");
    assert("Alert"@.len() == 5 && "Alert"@[0] == 'A');
    reveal_strlit("Update");
    assert("Update"@.len() == 6 && "Update"@[0] == 'U');
    reveal_strlit("Cancel");
    assert("Cancel"@.len() == 6 && "Cancel"@[0] == 'C');
    reveal_strlit("Unknown");
    assert("Unknown"@.len() == 7 && "Unknown"@[0] == 'U');
    reveal_strlit("Minor");
    assert("Minor"@.len() == 5 && "Minor"@[0] == 'M');
    reveal_strlit("Moderate");
    assert("Moderate"@.len() == 8 && "Moderate"@[0] == 'M');
    reveal_strlit("Severe");
    assert("Severe"@.len() == 6 && "Severe"@[0] == 'S');
    reveal_strlit("Extreme");
    assert("Extreme"@.len() == 7 && "Extreme"@[0] == 'E');
    reveal_strlit("Unlikely");
    assert("Unlikely"@.len() == 8 && "Unlikely"@[0] == 'U');
    reveal_strlit("Possible");
    assert("Possible"@.len() == 8 && "Possible"@[0] == 'P');
    reveal_strlit("Likely");
    assert("Likely"@.len() == 6 && "Likely"@[0] == 'L');
    reveal_strlit("Observed");
    assert("Observed"@.len() == 8 && "Observed"@[0] == 'O');
    reveal_strlit("Past");
    assert("Past"@.len() == 4 && "Past"@[0] == 'P');
    reveal_strlit("Future");
    assert("Future"@.len() == 6 && "Future"@[0] == 'F');
    reveal_strlit("Expected");
    assert("Expected"@.len() == 8 && "Expected"@[0] == 'E');
    reveal_strlit("Immediate");
    assert("Immediate"@.len() == 9 && "Immediate"@[0] == 'I');
}

/// A feature's affected areas are its `areaDesc` split at `';'` (never at
/// `','`), each part trimmed, empty parts dropped.
pub proof fn lemma_areas_split_on_semicolons(f: JsonValue, p: JsonValue)
    ensures
        alert_of(f, p) matches Ok(a) ==> string_field_of(p, "areaDesc"@) matches Ok(area_desc)
            && a.affected_areas == split_trimmed(area_desc, ';'),
{
}

/// `properties.references` entry by entry: when every entry reads, the
/// references are those entries in order, one per entry; otherwise the
/// error is that of the first entry that does not read.
pub proof fn lemma_references_list_law(items: Seq<JsonValue>)
    ensures
        (forall|i: int| 0 <= i < items.len() ==> (#[trigger] reference_of(items[i], i)) is Ok) ==> (references_list(
            items,
        ) matches Ok(rs) && rs.len() == items.len() && forall|i: int|
            0 <= i < items.len() ==> Ok::<AlertReferenceView, FeatureErrorView>(#[trigger] rs[i]) == reference_of(
                items[i],
                i,
            )),
        forall|k: int|
            0 <= k < items.len() && (#[trigger] reference_of(items[k], k)) is Err && (forall|j: int|
                0 <= j < k ==> (#[trigger] reference_of(items[j], j)) is Ok) ==> references_list(items)
                == match reference_of(items[k], k) {
                Err(e) => Err::<Seq<AlertReferenceView>, FeatureErrorView>(e),
                Ok(_) => Ok(Seq::empty()),
            },
    decreases items.len(),
{
    if items.len() > 0 {
        let init = items.drop_last();
        let n = items.len() - 1;
        lemma_references_list_law(init);
        assert forall|i: int| 0 <= i < n implies init[i] == items[i] by {}
        if forall|i: int| 0 <= i < items.len() ==> (#[trigger] reference_of(items[i], i)) is Ok {
            assert forall|i: int| 0 <= i < init.len() implies (#[trigger] reference_of(init[i], i)) is Ok by {
                assert(reference_of(items[i], i) is Ok);
            }
            let rs0 = references_list(init)->Ok_0;
            assert(reference_of(items[n], n) is Ok);
            assert(items.last() == items[n]);
            let rs = references_list(items)->Ok_0;
            assert(rs == rs0.push(reference_of(items[n], n)->Ok_0));
            assert forall|i: int| 0 <= i < items.len() implies Ok::<AlertReferenceView, FeatureErrorView>(
                #[trigger] rs[i],
            ) == reference_of(items[i], i) by {
                if i < n {
                    assert(rs[i] == rs0[i]);
                    assert(Ok::<AlertReferenceView, FeatureErrorView>(rs0[i]) == reference_of(init[i], i));
                }
            }
        }
        assert forall|k: int|
            0 <= k < items.len() && (#[trigger] reference_of(items[k], k)) is Err && (forall|j: int|
                0 <= j < k ==> (#[trigger] reference_of(items[j], j)) is Ok) implies references_list(items)
                == match reference_of(items[k], k) {
                Err(e) => Err::<Seq<AlertReferenceView>, FeatureErrorView>(e),
                Ok(_) => Ok(Seq::empty()),
            } by {
            if k < n {
                assert(reference_of(init[k], k) is Err);
                assert forall|j: int| 0 <= j < k implies (#[trigger] reference_of(init[j], j)) is Ok by {
                    assert(reference_of(items[j], j) is Ok);
                }
            } else {
                assert forall|i: int| 0 <= i < init.len() implies (#[trigger] reference_of(init[i], i)) is Ok by {
                    assert(reference_of(items[i], i) is Ok);
                }
                assert(items.last() == items[n]);
            }
        }
    }
}

/// Each code word of an alert is the text of its own property.
proof fn lemma_code_word_fields(mt: Seq<char>, sev: Seq<char>, cer: Seq<char>, urg: Seq<char>)
    ensures
        message_type_of(mt) matches Ok(m) ==> mt == message_type_name(m),
        severity_of(sev) matches Ok(x) ==> sev == severity_name(x),
        certainty_of(cer) matches Ok(x) ==> cer == certainty_name(x),
        urgency_of(urg) matches Ok(x) ==> urg == urgency_name(x),
{
}

/// Every field of a parsed alert is read from its own property of
/// `properties`: `id`, `event`, `senderName` (the sender's name), `sender`
/// (the sender's id), `areaDesc` (split at `';'`), and `messageType`,
/// `severity`, `certainty`, `urgency` (each the text of its code word).
pub proof fn lemma_alert_fields_from_properties(f: JsonValue, p: JsonValue)
    ensures
        alert_of(f, p) matches Ok(a) ==> {
            &&& json_get_str(p, "id"@) == Some(a.id)
            &&& json_get_str(p, "event"@) == Some(a.event)
            &&& json_get_str(p, "senderName"@) == Some(a.sender)
            &&& json_get_str(p, "sender"@) == Some(a.sender_id)
            &&& json_get_str(p, "messageType"@) == Some(message_type_name(a.message_type))
            &&& json_get_str(p, "severity"@) == Some(severity_name(a.severity))
            &&& json_get_str(p, "certainty"@) == Some(certainty_name(a.certainty))
            &&& json_get_str(p, "urgency"@) == Some(urgency_name(a.urgency))
            &&& json_get_str(p, "areaDesc"@) matches Some(area) && a.affected_areas == split_trimmed(area, ';')
        },
{
    let ok = |f: Seq<char>| string_field_of(p, f);
    if alert_of(f, p) is Ok {
        lemma_code_word_fields(
            ok("messageType"@)->Ok_0,
            ok("severity"@)->Ok_0,
            ok("certainty"@)->Ok_0,
            ok("urgency"@)->Ok_0,
        );
    }
}

/// A feature that yields an alert has an object `properties`, and the
/// alert's fields are read from it as [`lemma_alert_fields_from_properties`]
/// states.
pub proof fn lemma_feature_alert_properties(f: JsonValue)
    ensures
        feature_of(f) matches Ok(Some(a)) ==> json_get(f, "properties"@) matches Some(p) && alert_of(f, p)
            == Ok::<AlertView, FeatureErrorView>(a),
{
}

/// Only `Actual` features become alerts.
pub proof fn lemma_only_actual_alerts(f: JsonValue)
    ensures
        feature_of(f) matches Ok(Some(_)) ==> (match json_get(f, "properties"@) {
            Some(p) => json_get_str(p, "status"@) == Some("Actual"@),
            None => false,
        }),
{
}

} // verus!
