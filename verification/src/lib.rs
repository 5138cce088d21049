//! Verified core of a task harness: evolution campaigns, inference protocol,
//! imports, reviews and the local operator protocol.

pub mod arrange;
pub mod canonical;
pub mod contract;
pub mod digest;
pub mod digest_set;
pub mod evolution;
pub mod feedback;
pub mod first;
pub mod import;
pub mod inference;
pub mod input;
pub mod interpreter;
pub mod ipc;
pub mod json;
pub mod keyed;
pub mod manual;
pub mod monitor;
pub mod order;
pub mod readback;
pub mod reading;
pub mod review;
pub mod split;
pub mod text;
pub mod text_map;
pub mod uuid;
