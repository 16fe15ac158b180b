//! The engine for funding-rate strategies.

pub mod engine;
pub mod executor;
pub mod metrics;
