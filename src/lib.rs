//! Accumulates browser fingerprinting signals per client identity and hands
//! each finished record to an export sink exactly once.

pub mod record;
pub mod store;
pub mod laws;
pub mod request;
