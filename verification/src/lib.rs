pub mod chain_decomposition;
pub mod config;
pub mod crowding_data;
pub mod data;
pub mod dates;
pub mod engine;
pub mod filters;
pub mod journeys_tree;
pub mod laxatips_daily_data;
pub mod laxatips_data;
pub mod loads_data;
pub mod models;
pub mod occupancy_data;
pub mod pareto_front;
pub mod places_nearby;
pub mod public_transit;
pub mod realtime;
pub mod traits;
pub mod text;
