//! Evolution of a harness by measured, approved campaigns.
pub mod campaign;
pub mod compose;
pub mod composition;
pub mod evidence;
pub mod harness;
pub mod ids;
pub mod manifest;
pub mod merging;
pub mod mining;
pub mod promotion;
pub mod proposal;
pub mod readback;
pub mod registry;
pub mod sanitize;
pub mod secrets;
pub mod statistics;
pub mod telling;
pub mod trial;
