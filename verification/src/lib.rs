//! A trading engine's decision logic.

pub mod actor;
pub mod amount;
pub mod bootstrap;
pub mod config;
pub mod coordinator;
pub mod domain;
pub mod engine;
pub mod event;
pub mod funding;
pub mod live;
pub mod scope;
pub mod sim;
pub mod state;
pub mod stats;
pub mod strategy;
pub mod strategy_runner;
pub mod subscription;
pub mod table;
pub mod text;
