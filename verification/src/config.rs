//! What an engine is configured with.

use vstd::prelude::*;

verus! {

/// Where and how often figures are pushed, and where alerts go.
#[derive(Debug)]
pub struct MonitoringConfig {
    pub pushgateway_url: String,
    pub metric_prefix: String,
    pub push_interval_ms: u64,
    pub slack_channel: String,
    pub slack_token: String,
}

/// Where the database is.
#[derive(Debug)]
pub struct DatabaseConfig {
    pub url: String,
}

/// Access to Binance.
#[derive(Debug)]
pub struct BinanceConfig {
    pub api_key: String,
    pub secret: String,
}

/// Access to OKX.
#[derive(Debug)]
pub struct OkxConfig {
    pub api_key: String,
    pub secret: String,
    pub passphrase: String,
}

/// Access to the venues.
#[derive(Debug)]
pub struct ExchangesConfig {
    pub binance: BinanceConfig,
    pub okx: OkxConfig,
}

/// Whether, where and how often the funding engine pushes its figures.
#[derive(Debug)]
pub struct MetricsConfig {
    pub enabled: bool,
    pub pushgateway_url: String,
    pub push_interval_secs: u64,
}

} // verus!
