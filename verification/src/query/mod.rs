//! What the tools ask the server, and how they show its answers.

pub mod catalog;
pub mod context;
pub mod graph;
pub mod lookups;
pub mod render;
pub mod requests;
