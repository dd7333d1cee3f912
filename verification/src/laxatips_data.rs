pub mod calendar;
pub mod init;
pub mod iters;
pub mod time;
pub mod timetables;
