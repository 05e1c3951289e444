//! Diagram generation: a format-agnostic graph representation and the
//! builders and emitters around it.
pub mod graph;
pub mod builders;
pub mod emitters;
pub mod activity;
pub mod state_chart;
