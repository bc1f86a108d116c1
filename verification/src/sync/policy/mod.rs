//! One checked source policy for manifest walks and filesystem notifications.

pub mod checked;
pub mod git;
pub mod names;
pub mod rules;
pub mod sources;
