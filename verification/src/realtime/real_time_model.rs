use vstd::prelude::*;

verus! {

/// A vehicle journey that real-time updates added, by its position among them
#[derive(Debug, Clone, Copy, PartialEq, Eq, Structural, PartialOrd, Ord)]
pub struct NewVehicleJourney {
    pub idx: usize,
}

/// A stop that real-time updates added, by its position among them
#[derive(Debug, Clone, Copy, PartialEq, Eq, Structural, Hash)]
pub struct NewStop {
    pub idx: usize,
}

} // verus!
