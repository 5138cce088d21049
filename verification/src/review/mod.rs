//! Read-only review of frozen Git data. No task or evidence state is made here.

pub mod catalog;
pub mod freeze;
pub mod git;
pub mod index;
pub mod inspect;
pub mod model;
pub mod objects;
pub mod snapshots;
