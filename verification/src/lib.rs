//! Relay: hand a coding session over from one agent to another, and look
//! back at past handoffs.

pub mod agents;
pub mod diff;
pub mod handoff;
pub mod handoff_file;
pub mod history;
pub mod resume;
pub mod snapshot;
pub mod text;
