//! Ticks, and asks for the equity of a venue that does not tell it by itself.

use vstd::prelude::*;
use crate::actor::{ExchangeEvent, ExchangeEventData};
use crate::domain::{Exchange, ExchangeError, Money, Timestamp};
use crate::live::income_processor::ActorId;

verus! {

/// What the clock is set up with.
#[derive(Clone, Copy, Debug, PartialEq, Eq, Structural)]
pub struct ClockArgs {
    pub interval_ms: u64,
    /// Whether Binance can be asked for the equity.
    pub binance_client: bool,
}

/// Ticks for everyone who registered.
pub struct ClockActor {
    pub interval_ms: u64,
    pub binance_client: bool,
    pub executors: Vec<ActorId>,
}

/// What one tick brings.
pub struct Tick {
    /// What goes to the dispatch, if anything.
    pub equity: Option<ExchangeEvent>,
    /// What goes to everyone who registered.
    pub clock: ExchangeEvent,
}

impl ClockActor {
    /// A clock for which nobody has registered.
    pub fn new(args: ClockArgs) -> (c: Self)
        ensures
            c.interval_ms == args.interval_ms,
            c.binance_client == args.binance_client,
            c.executors@.len() == 0,
    {
        ClockActor {
            interval_ms: args.interval_ms,
            binance_client: args.binance_client,
            executors: Vec::new(),
        }
    }

    /// Somebody wants to hear the ticks.
    pub fn register(&mut self, executor: ActorId)
        ensures
            final(self).executors@ == old(self).executors@.push(executor),
            final(self).interval_ms == old(self).interval_ms,
            final(self).binance_client == old(self).binance_client,
    {
        self.executors.push(executor);
    }

    /// Whether the equity is to be asked for with each tick.
    pub fn asks_for_equity(&self) -> (b: bool)
        ensures
            b == self.binance_client,
    {
        self.binance_client
    }

    /// What a tick brings: the equity, if it was asked for and told, and the tick itself.
    pub fn tick(&self, equity: Option<Result<Money, ExchangeError>>, now: Timestamp) -> (t: Tick)
        ensures
            t.clock == (ExchangeEvent { exchange_ts: now, local_ts: now, data: ExchangeEventData::Clock }),
            t.equity == (match equity {
                Some(Ok(equity)) => Some(
                    ExchangeEvent {
                        exchange_ts: now,
                        local_ts: now,
                        data: ExchangeEventData::Equity { exchange: Exchange::Binance, equity },
                    },
                ),
                _ => None,
            }),
    {
        let told = match equity {
            Some(Ok(equity)) => Some(
                ExchangeEvent {
                    exchange_ts: now,
                    local_ts: now,
                    data: ExchangeEventData::Equity { exchange: Exchange::Binance, equity },
                },
            ),
            _ => None,
        };
        Tick {
            equity: told,
            clock: ExchangeEvent { exchange_ts: now, local_ts: now, data: ExchangeEventData::Clock },
        }
    }
}

} // verus!
