pub mod journeys_tree;
pub mod pareto_front;
pub mod multicriteria_raptor;
pub mod public_transit;
pub mod completeness;
pub mod rounds;
pub mod engine_state;
