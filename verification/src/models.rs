pub mod base_model;
pub mod model_refs;
pub mod real_time_disruption;
pub mod real_time_model;

use vstd::prelude::*;

use crate::laxatips_daily_data::time::SecondsSinceTimezonedDayStart;
use crate::models::base_model::FlowDirection;

verus! {

/// A vehicle journey: one of the base model, by its index there, or one that a real-time
/// update added
#[derive(Debug, Clone, Copy, PartialEq, Eq, Structural)]
pub enum VehicleJourneyIdx {
    Base(usize),
    New(real_time_model::NewVehicleJourneyIdx),
}

/// A stop point: one of the base model, by its index there, or one that a real-time update
/// added
#[derive(Debug, Clone, Copy, PartialEq, Eq, Structural)]
pub enum StopPointIdx {
    Base(usize),
    New(real_time_model::NewStopPointIdx),
}

/// A transfer: one of the base model, by its index there, or one added since
#[derive(Debug, Clone, Copy, PartialEq, Eq, Structural)]
pub enum TransferIdx {
    Base(usize),
    New(usize),
}

/// The index of a stop time in its vehicle journey
#[derive(Debug, Clone, Copy)]
pub struct StopTimeIdx {
    pub idx: usize,
}

/// A stop time of a vehicle journey as the routing reads it: where it is, when a traveler
/// boards and debarks there, and whether one can board or debark
#[derive(Debug, Clone, Copy)]
pub struct StopTime {
    pub stop: StopPointIdx,
    pub board_time: SecondsSinceTimezonedDayStart,
    pub debark_time: SecondsSinceTimezonedDayStart,
    pub flow_direction: FlowDirection,
}

/// Whether trips are read as planned, or as the real-time updates changed them
#[derive(Debug, Clone, Copy, PartialEq, Eq, Structural)]
pub enum RealTimeLevel {
    Base,
    RealTime,
}

/// A contributor of the transit data
pub struct Contributor {
    pub id: String,
    pub name: String,
    pub license: Option<String>,
    pub url: Option<String>,
}

} // verus!
