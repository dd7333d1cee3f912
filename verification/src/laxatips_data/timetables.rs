pub mod iters;
pub mod timetables_data;
