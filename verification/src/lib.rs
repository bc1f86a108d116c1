//! The logic of a code-index client: what it watches, scans, uploads, serves
//! and prints, stated in contracts.

pub mod api;
pub mod digest;
pub mod engine;
pub mod ipc;
pub mod json;
pub mod mcp;
pub mod paths;
pub mod query;
pub mod score;
pub mod session;
pub mod sorting;
pub mod sync;
pub mod term;
pub mod text;
pub mod textmap;
