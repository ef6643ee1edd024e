//! The normalized NWS alert domain model.
//!
//! Coordinates are carried as the IEEE-754 bit patterns of their `f64`
//! values (`f64::to_bits`), so positions travel through the library
//! unchanged without any floating-point arithmetic.

use vstd::prelude::*;
use crate::radar_types::Timestamp;

verus! {

/// A `[lon, lat]` position, each coordinate as the bit pattern of an `f64`.
pub type LonLat = [u64; 2];

/// A closed linear ring (at least 4 positions once parsed).
pub type Ring = Vec<LonLat>;

/// A parsed alert's geometry; `null` GeoJSON geometry is `Alert::geometry == None`.
#[derive(Debug, Clone, PartialEq)]
pub enum AlertGeometry {
    /// One exterior ring followed by zero or more holes.
    Polygon(Vec<Ring>),
    /// Several polygons, each exterior-plus-holes, kept separate.
    MultiPolygon(Vec<Vec<Ring>>),
}

/// CAP `messageType`.
#[derive(Debug, Clone, Copy, PartialEq, Eq)]
pub enum MessageType {
    Alert,
    Update,
    Cancel,
}

/// CAP `severity`.
#[derive(Debug, Clone, Copy, PartialEq, Eq)]
pub enum Severity {
    Unknown,
    Minor,
    Moderate,
    Severe,
    Extreme,
}

/// CAP `certainty`.
#[derive(Debug, Clone, Copy, PartialEq, Eq)]
pub enum Certainty {
    Unknown,
    Unlikely,
    Possible,
    Likely,
    Observed,
}

/// CAP `urgency`.
#[derive(Debug, Clone, Copy, PartialEq, Eq)]
pub enum Urgency {
    Unknown,
    Past,
    Future,
    Expected,
    Immediate,
}

pub open spec fn message_type_name(t: MessageType) -> Seq<char> {
    match t {
        MessageType::Alert => "Alert"@,
        MessageType::Update => "Update"@,
        MessageType::Cancel => "Cancel"@,
    }
}

pub open spec fn severity_name(s: Severity) -> Seq<char> {
    match s {
        Severity::Unknown => "Unknown"@,
        Severity::Minor => "Minor"@,
        Severity::Moderate => "Moderate"@,
        Severity::Severe => "Severe"@,
        Severity::Extreme => "Extreme"@,
    }
}

pub open spec fn certainty_name(c: Certainty) -> Seq<char> {
    match c {
        Certainty::Unknown => "Unknown"@,
        Certainty::Unlikely => "Unlikely"@,
        Certainty::Possible => "Possible"@,
        Certainty::Likely => "Likely"@,
        Certainty::Observed => "Observed"@,
    }
}

pub open spec fn urgency_name(u: Urgency) -> Seq<char> {
    match u {
        Urgency::Unknown => "Unknown"@,
        Urgency::Past => "Past"@,
        Urgency::Future => "Future"@,
        Urgency::Expected => "Expected"@,
        Urgency::Immediate => "Immediate"@,
    }
}

impl MessageType {
    /// The CAP wire string of this variant.
    pub fn as_str(self) -> (s: &'static str)
        ensures
            s@ == message_type_name(self),
    {
        match self {
            MessageType::Alert => "Alert",
            MessageType::Update => "Update",
            MessageType::Cancel => "Cancel",
        }
    }
}

impl Severity {
    /// The CAP wire string of this variant.
    pub fn as_str(self) -> (s: &'static str)
        ensures
            s@ == severity_name(self),
    {
        match self {
            Severity::Unknown => "Unknown",
            Severity::Minor => "Minor",
            Severity::Moderate => "Moderate",
            Severity::Severe => "Severe",
            Severity::Extreme => "Extreme",
        }
    }
}

impl Certainty {
    /// The CAP wire string of this variant.
    pub fn as_str(self) -> (s: &'static str)
        ensures
            s@ == certainty_name(self),
    {
        match self {
            Certainty::Unknown => "Unknown",
            Certainty::Unlikely => "Unlikely",
            Certainty::Possible => "Possible",
            Certainty::Likely => "Likely",
            Certainty::Observed => "Observed",
        }
    }
}

impl Urgency {
    /// The CAP wire string of this variant.
    pub fn as_str(self) -> (s: &'static str)
        ensures
            s@ == urgency_name(self),
    {
        match self {
            Urgency::Unknown => "Unknown",
            Urgency::Past => "Past",
            Urgency::Future => "Future",
            Urgency::Expected => "Expected",
            Urgency::Immediate => "Immediate",
        }
    }
}

/// One entry of CAP `references`: a previously-issued message this alert
/// updates, replaces or cancels.
#[derive(Debug, Clone, PartialEq)]
pub struct AlertReference {
    pub identifier: String,
    pub sender: String,
    pub sent: Timestamp,
}

/// A normalized NWS alert, parsed from one GeoJSON `Feature`.
#[derive(Debug, Clone, PartialEq)]
pub struct Alert {
    /// This message's own bare CAP identifier (`properties.id`).
    pub id: String,
    pub message_type: MessageType,
    /// Previously-issued messages this one updates, replaces or cancels.
    pub references: Vec<AlertReference>,
    pub event: String,
    pub severity: Severity,
    pub certainty: Certainty,
    pub urgency: Urgency,
    /// Human-readable issuing office (CAP `senderName`).
    pub sender: String,
    /// Stable sender identifier (CAP `sender`).
    pub sender_id: String,
    /// CAP `sent`.
    pub issued: Timestamp,
    /// CAP `effective`.
    pub effective: Timestamp,
    /// CAP `expires`: this message's own validity, authoritative for expiry.
    pub expires: Timestamp,
    /// CAP `ends`, if present: the hazard's expected end (display only).
    pub ends: Option<Timestamp>,
    pub headline: Option<String>,
    pub description: Option<String>,
    pub instruction: Option<String>,
    /// CAP `areaDesc`, split on `;` and trimmed, empty pieces dropped.
    pub affected_areas: Vec<String>,
    pub geometry: Option<AlertGeometry>,
}


/// The content of an [`AlertGeometry`].
pub ghost enum GeometryView {
    Polygon(Seq<Seq<LonLat>>),
    MultiPolygon(Seq<Seq<Seq<LonLat>>>),
}

pub open spec fn rings_view(rings: Seq<Ring>) -> Seq<Seq<LonLat>> {
    rings.map_values(|r: Ring| r@)
}

pub open spec fn polygons_view(polygons: Seq<Vec<Ring>>) -> Seq<Seq<Seq<LonLat>>> {
    polygons.map_values(|p: Vec<Ring>| rings_view(p@))
}

impl View for AlertGeometry {
    type V = GeometryView;

    open spec fn view(&self) -> GeometryView {
        match self {
            AlertGeometry::Polygon(rings) => GeometryView::Polygon(rings_view(rings@)),
            AlertGeometry::MultiPolygon(polygons) => GeometryView::MultiPolygon(polygons_view(polygons@)),
        }
    }
}

/// The content of an [`AlertReference`].
pub ghost struct AlertReferenceView {
    pub identifier: Seq<char>,
    pub sender: Seq<char>,
    pub sent: int,
}

impl View for AlertReference {
    type V = AlertReferenceView;

    open spec fn view(&self) -> AlertReferenceView {
        AlertReferenceView { identifier: self.identifier@, sender: self.sender@, sent: self.sent@ }
    }
}

pub open spec fn opt_string_view(s: Option<String>) -> Option<Seq<char>> {
    match s {
        Some(v) => Some(v@),
        None => None,
    }
}

pub open spec fn opt_time_view(t: Option<Timestamp>) -> Option<int> {
    match t {
        Some(v) => Some(v@),
        None => None,
    }
}

pub open spec fn opt_geometry_view(g: Option<AlertGeometry>) -> Option<GeometryView> {
    match g {
        Some(v) => Some(v@),
        None => None,
    }
}

/// The content of an [`Alert`].
pub ghost struct AlertView {
    pub id: Seq<char>,
    pub message_type: MessageType,
    pub references: Seq<AlertReferenceView>,
    pub event: Seq<char>,
    pub severity: Severity,
    pub certainty: Certainty,
    pub urgency: Urgency,
    pub sender: Seq<char>,
    pub sender_id: Seq<char>,
    pub issued: int,
    pub effective: int,
    pub expires: int,
    pub ends: Option<int>,
    pub headline: Option<Seq<char>>,
    pub description: Option<Seq<char>>,
    pub instruction: Option<Seq<char>>,
    pub affected_areas: Seq<Seq<char>>,
    pub geometry: Option<GeometryView>,
}

impl View for Alert {
    type V = AlertView;

    open spec fn view(&self) -> AlertView {
        AlertView {
            id: self.id@,
            message_type: self.message_type,
            references: self.references@.map_values(|r: AlertReference| r@),
            event: self.event@,
            severity: self.severity,
            certainty: self.certainty,
            urgency: self.urgency,
            sender: self.sender@,
            sender_id: self.sender_id@,
            issued: self.issued@,
            effective: self.effective@,
            expires: self.expires@,
            ends: opt_time_view(self.ends),
            headline: opt_string_view(self.headline),
            description: opt_string_view(self.description),
            instruction: opt_string_view(self.instruction),
            affected_areas: self.affected_areas@.map_values(|s: String| s@),
            geometry: opt_geometry_view(self.geometry),
        }
    }
}

fn copy_ring(r: &Ring) -> (c: Ring)
    ensures
        c@ == r@,
{
    let mut c: Ring = Vec::new();
    let mut i: usize = 0;
    while i < r.len()
        invariant
            i <= r@.len(),
            c@ == r@.subrange(0, i as int),
        decreases r@.len() - i,
    {
        c.push(r[i]);
        i = i + 1;
        assert(c@ =~= r@.subrange(0, i as int));
    }
    assert(r@.subrange(0, i as int) =~= r@);
    c
}

fn copy_rings(rings: &Vec<Ring>) -> (c: Vec<Ring>)
    ensures
        rings_view(c@) == rings_view(rings@),
{
    let mut c: Vec<Ring> = Vec::new();
    let mut i: usize = 0;
    while i < rings.len()
        invariant
            i <= rings@.len(),
            c@.len() == i,
            forall|j: int| 0 <= j < i ==> (#[trigger] c@[j])@ == rings@[j]@,
        decreases rings@.len() - i,
    {
        c.push(copy_ring(&rings[i]));
        i = i + 1;
    }
    assert(rings_view(c@) =~= rings_view(rings@));
    c
}

fn copy_polygons(polygons: &Vec<Vec<Ring>>) -> (c: Vec<Vec<Ring>>)
    ensures
        polygons_view(c@) == polygons_view(polygons@),
{
    let mut c: Vec<Vec<Ring>> = Vec::new();
    let mut i: usize = 0;
    while i < polygons.len()
        invariant
            i <= polygons@.len(),
            c@.len() == i,
            forall|j: int| 0 <= j < i ==> rings_view((#[trigger] c@[j])@) == rings_view(polygons@[j]@),
        decreases polygons@.len() - i,
    {
        c.push(copy_rings(&polygons[i]));
        i = i + 1;
    }
    assert(polygons_view(c@) =~= polygons_view(polygons@));
    c
}

fn copy_strings(v: &Vec<String>) -> (c: Vec<String>)
    ensures
        c@.map_values(|s: String| s@) == v@.map_values(|s: String| s@),
{
    let mut c: Vec<String> = Vec::new();
    let mut i: usize = 0;
    while i < v.len()
        invariant
            i <= v@.len(),
            c@.len() == i,
            forall|j: int| 0 <= j < i ==> (#[trigger] c@[j])@ == v@[j]@,
        decreases v@.len() - i,
    {
        c.push(v[i].clone());
        i = i + 1;
    }
    assert(c@.map_values(|s: String| s@) =~= v@.map_values(|s: String| s@));
    c
}

fn copy_references(v: &Vec<AlertReference>) -> (c: Vec<AlertReference>)
    ensures
        c@.map_values(|r: AlertReference| r@) == v@.map_values(|r: AlertReference| r@),
{
    let mut c: Vec<AlertReference> = Vec::new();
    let mut i: usize = 0;
    while i < v.len()
        invariant
            i <= v@.len(),
            c@.len() == i,
            forall|j: int| 0 <= j < i ==> (#[trigger] c@[j])@ == v@[j]@,
        decreases v@.len() - i,
    {
        let r = &v[i];
        c.push(AlertReference { identifier: r.identifier.clone(), sender: r.sender.clone(), sent: r.sent });
        i = i + 1;
    }
    assert(c@.map_values(|r: AlertReference| r@) =~= v@.map_values(|r: AlertReference| r@));
    c
}

fn copy_opt_string(s: &Option<String>) -> (c: Option<String>)
    ensures
        opt_string_view(c) == opt_string_view(*s),
{
    match s {
        Some(v) => Some(v.clone()),
        None => None,
    }
}

impl Alert {
    /// A copy of this alert with the same content.
    pub fn duplicate(&self) -> (c: Alert)
        ensures
            c@ == self@,
    {
        let geometry = match &self.geometry {
            Some(AlertGeometry::Polygon(rings)) => Some(AlertGeometry::Polygon(copy_rings(rings))),
            Some(AlertGeometry::MultiPolygon(polygons)) => Some(
                AlertGeometry::MultiPolygon(copy_polygons(polygons)),
            ),
            None => None,
        };
        Alert {
            id: self.id.clone(),
            message_type: self.message_type,
            references: copy_references(&self.references),
            event: self.event.clone(),
            severity: self.severity,
            certainty: self.certainty,
            urgency: self.urgency,
            sender: self.sender.clone(),
            sender_id: self.sender_id.clone(),
            issued: self.issued,
            effective: self.effective,
            expires: self.expires,
            ends: self.ends,
            headline: copy_opt_string(&self.headline),
            description: copy_opt_string(&self.description),
            instruction: copy_opt_string(&self.instruction),
            affected_areas: copy_strings(&self.affected_areas),
            geometry,
        }
    }
}

} // verus!
