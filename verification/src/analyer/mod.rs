//! Execution plans of client statements.
pub mod plan;
