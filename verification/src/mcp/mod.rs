//! The tools that an agent calls: their inputs, what they decide, and when they
//! may answer.

pub mod freshness;
pub mod indexing;
pub mod leases;
pub mod readiness;
pub mod selection;
pub mod steering;
pub mod tool_types;
pub mod tools;
