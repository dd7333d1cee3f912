use vstd::prelude::*;

use crate::dates::Date;
use crate::models::VehicleJourneyIdx;

verus! {

/// The load of a vehicle when no load is known
#[derive(Copy, Clone, Debug, PartialEq, Eq, Structural, PartialOrd, Ord)]
pub enum Load {
    Unknown,
}

impl Default for Load {
    fn default() -> (r: Self)
        ensures
            r == Load::Unknown,
    {
        Load::Unknown
    }
}

/// A count of loads that holds nothing: all counts are equal
#[derive(Debug, PartialEq, Eq, Structural, Clone)]
pub struct LoadsCount();

impl LoadsCount {
    /// The empty count
    pub fn zero() -> (r: Self)
        ensures
            r == LoadsCount(),
    {
        Self {}
    }

    /// The count with one more load: the same empty count
    pub fn add(&self, _load: Load) -> (r: Self)
        ensures
            r == LoadsCount(),
    {
        Self {}
    }

    /// The highest load counted: always `Unknown`
    pub fn max(&self) -> (r: Load)
        ensures
            r == Load::Unknown,
    {
        Load::Unknown
    }

    /// Every count is lower than or equal to every other
    pub fn is_lower(&self, _other: &Self) -> (r: bool)
        ensures
            r,
    {
        true
    }
}

impl Default for LoadsCount {
    fn default() -> (r: Self)
        ensures
            r == LoadsCount(),
    {
        Self::zero()
    }
}

/// Load data that holds no load
pub struct LoadsData();

impl LoadsData {
    /// Load data that holds no load
    pub fn empty() -> Self {
        LoadsData {  }
    }

    /// No vehicle journey has loads
    pub fn loads(&self, _vehicle_journey_idx: &VehicleJourneyIdx, _date: &Date) -> (r: Option<&[Load]>)
        ensures
            r is None,
    {
        None
    }
}

impl Load {
    /// The text of the load: `Load ()`
    pub fn to_string(&self) -> (r: String)
        ensures
            r@ == "Load ()"@,
    {
        "Load ()".to_owned()
    }
}

impl LoadsCount {
    /// The text of the count: `LoadsCount ()`
    pub fn to_string(&self) -> (r: String)
        ensures
            r@ == "LoadsCount ()"@,
    {
        "LoadsCount ()".to_owned()
    }
}

} // verus!
