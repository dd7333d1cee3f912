pub mod empty_occupancy;
pub mod real_occupancy;
