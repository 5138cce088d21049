//! Campaigns: an event-sourced search for a better harness.
pub mod apply;
pub mod event;
pub mod laws;
pub mod state;
pub mod types;
pub mod validate;
