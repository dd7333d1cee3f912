use vstd::prelude::*;

use super::{Effect, TimePeriod, VehicleJourneyId};
use crate::dates::Date;
use crate::laxatips_daily_data::time::SecondsSinceTimezonedDayStart;
use crate::models::base_model::FlowDirection;

verus! {

/// A disruption that a kirin feed gives: an update of one trip, on a date, with when it was
/// last updated (seconds since 1970-01-01 00:00:00) and when it applies
#[derive(Debug, Clone)]
pub struct KirinDisruption {
    pub id: String,
    pub contributor: Option<String>,
    pub message: Option<String>,
    pub updated_at: i64,
    pub application_period: TimePeriod,
    pub effect: Effect,
    pub trip_id: VehicleJourneyId,
    pub trip_date: Date,
    pub update: UpdateType,
}

/// What a kirin disruption does to its trip: delete it, or give new stop times to a base
/// trip or to a new one
#[derive(Debug, Clone)]
pub enum UpdateType {
    TripDeleted(),
    BaseTripUpdated(UpdateData),
    NewTripUpdated(UpdateData),
}

/// The new stop times of a trip, with what else the update says of it
#[derive(Debug, Clone)]
pub struct UpdateData {
    pub stop_times: Vec<StopTime>,
    pub company_id: Option<String>,
    pub physical_mode_id: Option<String>,
    pub headsign: Option<String>,
}

/// A stop time of a trip, as a kirin update gives it
#[derive(Debug, Clone)]
pub struct StopTime {
    pub stop_id: String,
    pub arrival_time: SecondsSinceTimezonedDayStart,
    pub departure_time: SecondsSinceTimezonedDayStart,
    pub flow_direction: FlowDirection,
}

/// Why a kirin disruption cannot be applied: a new trip has the id of a base one running
/// that date, the base vehicle journey is unknown or does not run that date, or the trip to
/// delete does not run
#[derive(Debug, Clone)]
pub enum KirinUpdateError {
    NewTripWithBaseId(VehicleJourneyId, Date),
    BaseVehicleJourneyUnknown(VehicleJourneyId),
    BaseTripAbsent(VehicleJourneyId, Date),
    DeleteAbsentTrip(VehicleJourneyId, Date),
}

} // verus!
