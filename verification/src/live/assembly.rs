//! How the venues are put together: with or without an account, and with what they can carry.

use vstd::prelude::*;
use vstd::string::StringExecFns;
use crate::domain::{Exchange, ExchangeError};
use crate::live::manager::startup::ExchangeSetup;
use crate::subscription;
use crate::subscription::Capabilities;
use crate::text::joined;

verus! {

/// A venue with the public streams that it carries, and with an account if there is one.
pub open spec fn set_up(exchange: Exchange, has_account: bool) -> ExchangeSetup {
    ExchangeSetup { exchange, has_account, capabilities: subscription::adapter(exchange) }
}

/// Binance; the engine has an account there if it was given credentials.
pub fn setup_binance(has_credentials: bool) -> (s: ExchangeSetup)
    ensures
        s == set_up(Exchange::Binance, has_credentials),
{
    ExchangeSetup {
        exchange: Exchange::Binance,
        has_account: has_credentials,
        capabilities: Capabilities::of(Exchange::Binance),
    }
}

/// OKX; the engine has an account there if it was given credentials.
pub fn setup_okx(has_credentials: bool) -> (s: ExchangeSetup)
    ensures
        s == set_up(Exchange::OKX, has_credentials),
{
    ExchangeSetup {
        exchange: Exchange::OKX,
        has_account: has_credentials,
        capabilities: Capabilities::of(Exchange::OKX),
    }
}

/// Hyperliquid; the engine has an account there if it was given credentials.
pub fn setup_hyperliquid(has_credentials: bool) -> (s: ExchangeSetup)
    ensures
        s == set_up(Exchange::Hyperliquid, has_credentials),
{
    ExchangeSetup {
        exchange: Exchange::Hyperliquid,
        has_account: has_credentials,
        capabilities: Capabilities::of(Exchange::Hyperliquid),
    }
}

/// IBKR, which cannot be reached without credentials: there is always an account.
pub fn setup_ibkr() -> (s: ExchangeSetup)
    ensures
        s == set_up(Exchange::IBKR, true),
{
    ExchangeSetup {
        exchange: Exchange::IBKR,
        has_account: true,
        capabilities: Capabilities::of(Exchange::IBKR),
    }
}

/// Who speaks with a venue.
pub open spec fn actor_text(exchange: Exchange) -> Seq<char> {
    match exchange {
        Exchange::Binance => "BinanceActor"@,
        Exchange::OKX => "OkxActor"@,
        Exchange::Hyperliquid => "HyperliquidActor"@,
        Exchange::IBKR => "IbkrActor"@,
    }
}

/// Who speaks with a venue.
pub fn actor_name(exchange: Exchange) -> (s: &'static str)
    ensures
        s@ == actor_text(exchange),
{
    match exchange {
        Exchange::Binance => "BinanceActor",
        Exchange::OKX => "OkxActor",
        Exchange::Hyperliquid => "HyperliquidActor",
        Exchange::IBKR => "IbkrActor",
    }
}

/// The failure of a venue that did not come up.
pub fn venue_failure(exchange: Exchange, error: &str) -> (e: ExchangeError)
    ensures
        e matches ExchangeError::Other(s) && s@ == actor_text(exchange) + " failed to start: "@ + error@,
{
    let mut s = joined(actor_name(exchange), " failed to start: ");
    s.append(error);
    ExchangeError::Other(s)
}

/// A venue is set up as such, with or without an account as said, and with what its adapter carries.
pub proof fn a_venue_is_set_up_as_said(exchange: Exchange, has_account: bool)
    ensures
        set_up(exchange, has_account).exchange == exchange,
        set_up(exchange, has_account).has_account == has_account,
        set_up(exchange, has_account).capabilities == subscription::adapter(exchange),
{
}

} // verus!
