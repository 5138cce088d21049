//! Read-only export of historical sessions, and its publication as artifacts.

pub mod archive;
pub mod lineage;
pub mod publish;
pub mod quoting;
pub mod resume;
