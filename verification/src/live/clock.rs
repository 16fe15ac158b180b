//! The engine's clock, and the status of venues that never close.

use vstd::prelude::*;
use crate::domain::{Exchange, Timestamp};
use crate::event::{MarketData, MarketEvent, MarketStatus};

verus! {

/// How often the clock ticks, in milliseconds.
pub const CLOCK_INTERVAL_MS: u64 = 1_000;

/// One tick of the clock.
pub fn tick(now: Timestamp) -> (e: MarketEvent)
    ensures
        e == (MarketEvent { exchange_ts: now, local_ts: now, data: MarketData::Clock }),
{
    MarketEvent { exchange_ts: now, local_ts: now, data: MarketData::Clock }
}

/// The status of a venue that never closes. A venue of which nothing is heard counts as closed, so
/// it is told again and again.
pub fn always_liquid(exchange: Exchange, now: Timestamp) -> (e: MarketEvent)
    ensures
        e == (MarketEvent {
            exchange_ts: now,
            local_ts: now,
            data: MarketData::ExchangeStatus { exchange, status: MarketStatus::Liquid },
        }),
{
    MarketEvent {
        exchange_ts: now,
        local_ts: now,
        data: MarketData::ExchangeStatus { exchange, status: MarketStatus::Liquid },
    }
}

/// What a source of ticks says.
#[derive(Clone, Copy, Debug, PartialEq, Eq, Structural)]
pub enum Ticker {
    Started,
    Next,
    Finished,
}

/// What is done about it.
#[derive(Clone, Copy, Debug, PartialEq, Eq, Structural)]
pub enum TickerStep {
    Wait,
    Act,
    /// A source that ends is a fault, and stops loudly what depends on it.
    Kill,
}

/// What is done when a source of ticks says something.
pub fn on_ticker(t: Ticker) -> (s: TickerStep)
    ensures
        s == (match t {
            Ticker::Started => TickerStep::Wait,
            Ticker::Next => TickerStep::Act,
            Ticker::Finished => TickerStep::Kill,
        }),
{
    match t {
        Ticker::Started => TickerStep::Wait,
        Ticker::Next => TickerStep::Act,
        Ticker::Finished => TickerStep::Kill,
    }
}

} // verus!
