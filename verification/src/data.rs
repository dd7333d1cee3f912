pub mod chain_decomposition;
pub mod data;
pub mod ordered_timetable;
