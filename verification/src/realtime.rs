pub mod real_time_model;
pub mod rt_model;
