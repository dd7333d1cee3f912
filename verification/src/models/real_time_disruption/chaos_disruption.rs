use vstd::prelude::*;

use super::{Effect, TimePeriod, VehicleJourneyId};
use crate::dates::Date;

verus! {

/// An object that travelers are informed about
#[derive(Debug, Clone)]
pub enum Informed {
    Network(NetworkId),
    Line(LineId),
    Route(RouteId),
    Trip(VehicleJourneyId),
    StopArea(StopAreaId),
    StopPoint(StopPointId),
}

/// The id of a network
#[derive(Debug, Clone)]
pub struct NetworkId {
    pub id: String,
}

/// The id of a line
#[derive(Debug, Clone)]
pub struct LineId {
    pub id: String,
}

/// The id of a route
#[derive(Debug, Clone)]
pub struct RouteId {
    pub id: String,
}

/// The id of a stop point
#[derive(Debug, Clone)]
pub struct StopPointId {
    pub id: String,
}

/// The id of a stop area
#[derive(Debug, Clone)]
pub struct StopAreaId {
    pub id: String,
}

/// A section of a line between two stop areas
#[derive(Debug, Clone)]
pub struct LineSection {
    pub line: LineId,
    pub start: StopAreaId,
    pub end: StopAreaId,
    pub routes: Vec<RouteId>,
}

/// A rail section between two stop areas
#[derive(Debug, Clone)]
pub struct RailSection {
    pub line: LineId,
    pub start: StopAreaId,
    pub end: StopAreaId,
    pub routes: Vec<RouteId>,
    pub blocked_stop_area: Vec<BlockedStopArea>,
}

/// A stop area blocked by a rail section, with its order
#[derive(Debug, Clone)]
pub struct BlockedStopArea {
    pub id: String,
    pub order: u32,
}

/// A channel through which a message is sent
#[derive(Debug, Clone)]
pub enum ChannelType {
    Web,
    Sms,
    Email,
    Mobile,
    Notification,
    Twitter,
    Facebook,
    UnknownType,
    Title,
    Beacon,
}

/// The cause of a disruption
#[derive(Default, Debug, Clone)]
pub struct Cause {
    pub wording: String,
    pub category: String,
}

/// A property of a disruption
#[derive(Default, Debug, Clone)]
pub struct DisruptionProperty {
    pub key: String,
    pub type_: String,
    pub value: String,
}

/// A tag of a disruption
#[derive(Default, Debug, Clone)]
pub struct Tag {
    pub name: String,
}

/// The severity of an impact
#[derive(Debug, Clone)]
pub struct Severity {
    pub wording: Option<String>,
    pub color: Option<String>,
    pub priority: Option<i32>,
    pub effect: Effect,
}

/// A message about an impact
#[derive(Debug, Clone)]
pub struct Message {
    pub text: String,
    pub channel_id: Option<String>,
    pub channel_name: String,
    pub channel_content_type: Option<String>,
    pub channel_types: Vec<ChannelType>,
}

/// A disruption that a chaos feed gives: what it is, when it is published, why, and its
/// impacts
#[derive(Debug, Clone)]
pub struct ChaosDisruption {
    pub id: String,
    pub reference: Option<String>,
    pub contributor: Option<String>,
    pub publication_period: TimePeriod,
    pub cause: Cause,
    pub tags: Vec<Tag>,
    pub properties: Vec<DisruptionProperty>,
    pub impacts: Vec<ChaosImpact>,
}

/// An impact of a chaos disruption: when it was last updated (seconds since 1970-01-01
/// 00:00:00), when it applies, how severe it is, its messages, and the objects it impacts or
/// informs about
#[derive(Debug, Clone)]
pub struct ChaosImpact {
    pub id: String,
    pub updated_at: i64,
    pub application_periods: Vec<TimePeriod>,
    pub application_patterns: Vec<ApplicationPattern>,
    pub severity: Severity,
    pub messages: Vec<Message>,
    pub impacted_pt_objects: Vec<Impacted>,
    pub informed_pt_objects: Vec<Informed>,
}

/// An object that a chaos impact deletes, or a section it disrupts
#[derive(Debug, Clone)]
pub enum Impacted {
    NetworkDeleted(NetworkId),
    LineDeleted(LineId),
    RouteDeleted(RouteId),
    RailSection(RailSection),
    LineSection(LineSection),
    StopAreaDeleted(StopAreaId),
    StopPointDeleted(StopPointId),
    BaseTripDeleted(VehicleJourneyId),
}

/// The dates from `begin_date` to `end_date` whose day of the week is on in
/// `week_pattern` (Monday first), during each of the time slots
#[derive(Debug, Clone)]
pub struct ApplicationPattern {
    pub begin_date: Date,
    pub end_date: Date,
    pub time_slots: Vec<TimeSlot>,
    pub week_pattern: [bool; 7],
}

/// A slot of time in a day, from `begin` to `end`, in seconds since midnight
#[derive(Debug, Clone, Copy)]
pub struct TimeSlot {
    pub begin: u32,
    pub end: u32,
}

/// Why a chaos impact cannot be applied: an object it names is not in the data, or a trip
/// it deletes on a date is not there
#[derive(Debug, Clone)]
pub enum ChaosImpactError {
    VehicleJourneyAbsent(VehicleJourneyId),
    LineAbsent(LineId),
    RouteAbsent(RouteId),
    NetworkAbsent(NetworkId),
    StopPointAbsent(StopPointId),
    StopAreaAbsent(StopAreaId),
    DeletePresentTrip(VehicleJourneyId, Date),
}

/// What a disruption asks for
#[derive(Debug, Copy, Clone)]
pub enum Action {
    Alter,
    Inform,
    CancelAlteration,
    CancelInform,
}

} // verus!
