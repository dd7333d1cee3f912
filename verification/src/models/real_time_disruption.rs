pub mod chaos_actions;
pub mod chaos_disruption;
pub mod kirin_disruption;
pub mod time_periods;

pub use time_periods::{intersection, TimePeriod, TimePeriodError, TimePeriods};

use vstd::prelude::*;

use crate::dates::Date;
use crate::laxatips_daily_data::time::SecondsSinceTimezonedDayStart;
use crate::models::base_model::FlowDirection;
use crate::dates::SECONDS_IN_DAY;
use time_periods::is_datetime;

verus! {

/// The cause of a disruption
#[derive(Default, Debug, Clone)]
pub struct Cause {
    pub wording: String,
    pub category: String,
}

/// A property of a disruption
#[derive(Default, Debug, Clone)]
pub struct DisruptionProperty {
    pub key: String,
    pub type_: String,
    pub value: String,
}

/// A tag of a disruption
#[derive(Default, Debug, Clone)]
pub struct Tag {
    pub name: String,
}

/// The severity of an impact
#[derive(Debug, Clone)]
pub struct Severity {
    pub wording: Option<String>,
    pub color: Option<String>,
    pub priority: Option<i32>,
    pub effect: Effect,
}

/// A message about an impact
#[derive(Debug, Clone)]
pub struct Message {
    pub text: String,
    pub channel_id: Option<String>,
    pub channel_name: String,
    pub channel_content_type: Option<String>,
    pub channel_types: Vec<ChannelType>,
}





/// An object that travelers are informed about
#[derive(Debug, Clone)]
pub enum Informed {
    Network(NetworkId),
    Line(LineId),
    Route(RouteId),
    Trip(VehicleJourneyId),
    StopArea(StopAreaId),
    StopPoint(StopPointId),
    Unknown,
}

/// The id of a network
#[derive(Debug, Clone)]
pub struct NetworkId {
    pub id: String,
}

/// The id of a line
#[derive(Debug, Clone)]
pub struct LineId {
    pub id: String,
}

/// The id of a route
#[derive(Debug, Clone)]
pub struct RouteId {
    pub id: String,
}

/// The id of a stop point
#[derive(Debug, Clone)]
pub struct StopPointId {
    pub id: String,
}

/// The id of a stop area
#[derive(Debug, Clone)]
pub struct StopAreaId {
    pub id: String,
}

/// The id of a vehicle journey
#[derive(Debug, Clone)]
pub struct VehicleJourneyId {
    pub id: String,
}


/// A disruption of a line between two stop areas
#[derive(Debug, Clone)]
pub struct LineSectionDisruption {
    pub line: LineId,
    pub start: StopAreaId,
    pub end: StopAreaId,
    pub routes: Vec<RouteId>,
}

/// A disruption of a rail section between two stop areas
#[derive(Debug, Clone)]
pub struct RailSectionDisruption {
    pub line: LineId,
    pub start: StopAreaId,
    pub end: StopAreaId,
    pub routes: Vec<RouteId>,
    pub blocked_stop_area: Vec<BlockedStopArea>,
}

/// A stop area blocked by a rail section disruption, with its order
#[derive(Debug, Clone)]
pub struct BlockedStopArea {
    pub id: String,
    pub order: u32,
}

/// The effect of an impact, from the least to the worst
#[derive(Ord, PartialOrd, Eq, PartialEq, Structural, Debug, Clone, Copy)]
pub enum Effect {
    StopMoved,
    UnknownEffect,
    OtherEffect,
    ModifiedService,
    AdditionalService,
    Detour,
    SignificantDelays,
    ReducedService,
    NoService,
}

/// A channel through which a message is sent
#[derive(Debug, Clone)]
pub enum ChannelType {
    Web,
    Sms,
    Email,
    Mobile,
    Notification,
    Twitter,
    Facebook,
    UnknownType,
    Title,
    Beacon,
}

/// A disruption: what it is, when it is published, why, and its impacts
#[derive(Debug, Clone)]
pub struct Disruption {
    pub id: String,
    pub reference: Option<String>,
    pub contributor: Option<String>,
    pub publication_period: TimePeriod,
    pub cause: Cause,
    pub tags: Vec<Tag>,
    pub properties: Vec<DisruptionProperty>,
    pub impacts: Vec<Impact>,
}

/// Why a disruption cannot be applied: an object it names is not in the data, or a trip it
/// changes on a date is not in the state it expects
#[derive(Debug, Clone)]
pub enum DisruptionError {
    StopPointAbsent(StopPointId),
    StopAreaAbsent(StopAreaId),
    NetworkAbsent(NetworkId),
    LineAbsent(LineId),
    RouteAbsent(RouteId),
    VehicleJourneyAbsent(VehicleJourneyId),
    DeleteAbsentTrip(VehicleJourneyId, Date),
    ModifyAbsentTrip(VehicleJourneyId, Date),
    AddPresentTrip(VehicleJourneyId, Date),
    NewTripWithBaseId(VehicleJourneyId, Date),
}

/// The dates from `begin_date` to `end_date` whose day of the week is on in
/// `week_pattern` (Monday first), during each of the time slots
#[derive(Debug, Clone)]
pub struct ApplicationPattern {
    pub begin_date: Date,
    pub end_date: Date,
    pub time_slots: Vec<TimeSlot>,
    pub week_pattern: [bool; 7],
}

/// A slot of time in a day, from `begin` to `end`, in seconds since midnight
#[derive(Debug, Clone, Copy)]
pub struct TimeSlot {
    pub begin: u32,
    pub end: u32,
}

/// An impact of a disruption: when it was last updated (seconds since 1970-01-01 00:00:00),
/// when it applies, how severe it is, its messages, and the objects it impacts or informs
/// about
#[derive(Debug, Clone)]
pub struct Impact {
    pub id: String,
    pub updated_at: i64,
    pub application_periods: Vec<TimePeriod>,
    pub application_patterns: Vec<ApplicationPattern>,
    pub severity: Severity,
    pub messages: Vec<Message>,
    pub impacted_pt_objects: Vec<Impacted>,
    pub informed_pt_objects: Vec<Informed>,
}

/// An object that an impact changes: a network, line, route, stop area or stop point that
/// is deleted, a section of a line or of rails, a base trip deleted on every date, a trip
/// deleted on a date, or a base or new trip given new stop times
#[derive(Debug, Clone)]
pub enum Impacted {
    NetworkDeleted(NetworkId),
    LineDeleted(LineId),
    RouteDeleted(RouteId),
    RailSection(RailSectionDisruption),
    LineSection(LineSectionDisruption),
    StopAreaDeleted(StopAreaId),
    StopPointDeleted(StopPointId),
    BaseTripDeleted(VehicleJourneyId),
    TripDeleted(VehicleJourneyId, Date),
    BaseTripUpdated(TripDisruption),
    NewTripUpdated(TripDisruption),
}

/// New stop times of a trip on a date, with what else the update says of it
#[derive(Debug, Clone)]
pub struct TripDisruption {
    pub trip_id: VehicleJourneyId,
    pub trip_date: Date,
    pub stop_times: Vec<StopTime>,
    pub company_id: Option<String>,
    pub physical_mode_id: Option<String>,
    pub headsign: Option<String>,
}

/// A stop time of a trip, as a real-time update gives it
#[derive(Debug, Clone)]
pub struct StopTime {
    pub stop_id: String,
    pub arrival_time: SecondsSinceTimezonedDayStart,
    pub departure_time: SecondsSinceTimezonedDayStart,
    pub flow_direction: FlowDirection,
}

/// A vehicle journey on the date of reference of its day
#[derive(Debug)]
pub struct Trip {
    pub vehicle_journey_id: String,
    pub reference_date: Date,
}

impl Clone for Trip {
    fn clone(&self) -> (r: Self)
        ensures
            r == *self,
    {
        Trip { vehicle_journey_id: self.vehicle_journey_id.clone(), reference_date: self.reference_date }
    }
}

/// What a real-time update does to a trip: delete it, add it with its stop times, or give it
/// new stop times
#[derive(Debug)]
pub enum Update {
    Delete(Trip),
    Add(Trip, Vec<StopTime>),
    Modify(Trip, Vec<StopTime>),
}

/// The datetimes of a period one day apart, from its start to its end included
pub struct DateTimePeriodIterator {
    end: i64,
    current: i64,
}

impl DateTimePeriodIterator {
    /// The next datetime and the end of the period
    pub closed spec fn view(&self) -> (int, int) {
        (self.current as int, self.end as int)
    }

    /// The datetimes of `period` one day apart, from its start to its end included
    pub fn new(period: &TimePeriod) -> (r: Self)
        ensures
            r@ == period@,
    {
        DateTimePeriodIterator { end: period.end(), current: period.start() }
    }

    /// The next datetime, when it is not after the end; the one a day later comes next
    pub fn next(&mut self) -> (r: Option<i64>)
        requires
            old(self)@.0 <= old(self)@.1 ==> is_datetime(old(self)@.0 + SECONDS_IN_DAY),
        ensures
            final(self)@.1 == old(self)@.1,
            old(self)@.0 <= old(self)@.1 ==> r == Some(old(self)@.0 as i64) && final(self)@.0 == old(
                self,
            )@.0 + SECONDS_IN_DAY,
            old(self)@.0 > old(self)@.1 ==> r is None && final(self)@ == old(self)@,
    {
        if self.current <= self.end {
            let current = self.current;
            self.current = current + SECONDS_IN_DAY;
            Some(current)
        } else {
            None
        }
    }
}

} // verus!
