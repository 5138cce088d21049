//! Exact statistics of paired trials, and the verdicts they support.
pub mod evaluate;
pub mod laws;
pub mod policy;
pub mod rational;
pub mod report;
pub mod score;
pub mod verdict;
pub mod worth;
