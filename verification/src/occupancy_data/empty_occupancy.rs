use vstd::prelude::*;

use crate::dates::Date;
use crate::models::{StopTimeIdx, VehicleJourneyIdx};

verus! {

/// The occupancy of a vehicle when none is known
#[derive(Copy, Clone, Debug, PartialEq, Eq, Structural, PartialOrd, Ord)]
pub enum Occupancy {
    Unknown,
}

impl Default for Occupancy {
    fn default() -> (r: Self)
        ensures
            r == Occupancy::Unknown,
    {
        Occupancy::Unknown
    }
}

/// A count of occupancies that holds nothing: all counts are equal
#[derive(Debug, PartialEq, Eq, Structural, Clone)]
pub struct OccupanciesCount();

impl OccupanciesCount {
    /// The empty count
    pub fn zero() -> (r: Self)
        ensures
            r == OccupanciesCount(),
    {
        Self {}
    }

    /// The count with one more occupancy: the same empty count
    pub fn add(&self, _occupancy: Occupancy) -> (r: Self)
        ensures
            r == OccupanciesCount(),
    {
        Self {}
    }

    /// The highest occupancy counted: always `Unknown`
    pub fn max(&self) -> (r: Occupancy)
        ensures
            r == Occupancy::Unknown,
    {
        Occupancy::Unknown
    }

    /// Every count is lower than or equal to every other
    pub fn is_lower(&self, _other: &Self) -> (r: bool)
        ensures
            r,
    {
        true
    }
}

impl Default for OccupanciesCount {
    fn default() -> (r: Self)
        ensures
            r == OccupanciesCount(),
    {
        Self::zero()
    }
}

/// Occupancy data that holds no occupancy
pub struct OccupancyData();

impl OccupancyData {
    /// Occupancy data that holds no occupancy
    pub fn empty() -> Self {
        OccupancyData {  }
    }

    /// No vehicle journey has occupancies
    pub fn occupancies(&self, _vehicle_journey_idx: &VehicleJourneyIdx, _date: &Date) -> (r: Option<
        &[Occupancy],
    >)
        ensures
            r is None,
    {
        None
    }

    /// No vehicle journey has an occupancy
    pub fn occupancy(
        &self,
        _vehicle_journey_idx: &VehicleJourneyIdx,
        _stop_time_idx: StopTimeIdx,
        _date: &Date,
    ) -> (r: Option<Occupancy>)
        ensures
            r is None,
    {
        None
    }
}

impl Occupancy {
    /// The text of the occupancy: `Occupancy ()`
    pub fn to_string(&self) -> (r: String)
        ensures
            r@ == "Occupancy ()"@,
    {
        "Occupancy ()".to_owned()
    }
}

impl OccupanciesCount {
    /// The text of the count: `OccupanciesCount ()`
    pub fn to_string(&self) -> (r: String)
        ensures
            r@ == "OccupanciesCount ()"@,
    {
        "OccupanciesCount ()".to_owned()
    }
}

} // verus!
