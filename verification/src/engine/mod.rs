//! One engine per process: it watches checkouts, decides when each one is
//! reconciled, and bounds the work that runs at once.

pub mod coordinator;
pub mod reconcile;
pub mod registry;
pub mod scheduler;
pub mod watch_hub;
