//! Graph construction, topology validation and the compiled graph.
pub mod builder;
pub mod compiled;
pub mod topology;
