//! An engine whose parts talk to each other directly, and whose venues are brought up when the
//! first strategy needs them.

use vstd::prelude::*;
use crate::domain::{Exchange, Money, OrderUpdate, Position, Timestamp};
use crate::event::{FundingRate, BBO};

pub mod clock;
pub mod engine;
pub mod executor;
pub mod processor;
pub mod signal_processor;

verus! {

/// What a venue says.
#[derive(Clone, Debug, PartialEq, Eq)]
pub enum ExchangeEventData {
    FundingRate(FundingRate),
    BBO(BBO),
    Position(Position),
    OrderUpdate(OrderUpdate),
    Balance { exchange: Exchange, asset: String, available: Money },
    Equity { exchange: Exchange, equity: Money },
    Clock,
}

/// What a venue says, with the times at which it said so and the engine got it.
#[derive(Clone, Debug, PartialEq, Eq)]
pub struct ExchangeEvent {
    pub exchange_ts: Timestamp,
    pub local_ts: Timestamp,
    pub data: ExchangeEventData,
}

} // verus!
