//! Inference: requests to a provider, its answers, and their cost.
pub mod auth;
pub mod call;
pub mod cost;
pub mod decoder;
pub mod failure;
pub mod identity;
pub mod model;
pub mod reading;
pub mod request;
pub mod response;
pub mod sse;
pub mod streaming;
pub mod wire;
pub mod route;
