//! The two kinds of orchestrator that the agent watches.

pub mod docker;
pub mod kubernetes;
