//! Monitoring: what is counted, and how a candidate configuration is evaluated.

pub mod evaluation;
pub mod model;
pub mod replies;
