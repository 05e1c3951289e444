//! Behavioural analysis of models.
pub mod analysis;
pub mod rollup;
pub mod resolve;
pub mod action_flow;
pub mod state_machine;
pub mod state_sim;
pub mod flow_graph;
pub mod action_exec;
