//! What reaches the engine: market data, which serves every account, and account events, which
//! belong to one.

use vstd::prelude::*;
use crate::amount;
use crate::amount::{half_times, plus};
use crate::domain::{AccountId, CustomEvent, Exchange, Fill, Money, OrderUpdate, Position, Price, Quantity};
use crate::domain::{Symbol, Timestamp};

verus! {

/// The best bid and offer of a leg.
#[derive(Debug, PartialEq, Eq)]
pub struct BBO {
    pub exchange: Exchange,
    pub symbol: Symbol,
    pub bid_price: Price,
    pub bid_qty: Quantity,
    pub ask_price: Price,
    pub ask_qty: Quantity,
    pub timestamp: Timestamp,
}

/// Twice the middle between bid and offer. The middle itself may lie between two units.
pub open spec fn twice_mid(bbo: BBO) -> int {
    amount::clamp(bbo.bid_price + bbo.ask_price)
}

/// What coins are worth at the middle between bid and offer.
pub open spec fn worth_at_mid(bbo: BBO, size: int) -> int {
    amount::clamp(amount::halved(size * twice_mid(bbo)))
}

impl BBO {
    /// What coins are worth at the middle between bid and offer.
    pub fn worth_at_mid(&self, size: Quantity) -> (m: Money)
        ensures
            m == worth_at_mid(*self, size as int),
    {
        half_times(size, plus(self.bid_price, self.ask_price))
    }
}

impl Clone for BBO {
    fn clone(&self) -> (r: Self)
        ensures
            r == *self,
    {
        BBO {
            exchange: self.exchange,
            symbol: self.symbol.clone(),
            bid_price: self.bid_price,
            bid_qty: self.bid_qty,
            ask_price: self.ask_price,
            ask_qty: self.ask_qty,
            timestamp: self.timestamp,
        }
    }
}

/// A trade between others.
#[derive(Clone, Debug, PartialEq, Eq)]
pub struct MarketTrade {
    pub exchange: Exchange,
    pub symbol: Symbol,
    pub price: Price,
    pub qty: Quantity,
    pub is_buyer_maker: bool,
    pub timestamp: Timestamp,
}

/// The price at which a venue values positions.
#[derive(Clone, Debug, PartialEq, Eq)]
pub struct MarkPrice {
    pub exchange: Exchange,
    pub symbol: Symbol,
    pub price: Price,
    pub timestamp: Timestamp,
}

/// What holding a position costs per funding interval, in units of 10^-8.
#[derive(Clone, Debug, PartialEq, Eq)]
pub struct FundingRate {
    pub exchange: Exchange,
    pub symbol: Symbol,
    pub rate: i128,
    pub timestamp: Timestamp,
}

/// Whether a venue can be traded on.
#[derive(Clone, Copy, Debug, PartialEq, Eq, Structural)]
pub enum MarketStatus {
    Liquid,
    Closed,
}

/// Market data.
#[derive(Clone, Debug, PartialEq, Eq)]
pub enum MarketData {
    BBO(BBO),
    MarketTrade(MarketTrade),
    MarkPrice(MarkPrice),
    FundingRate(FundingRate),
    BorrowFee { exchange: Exchange, symbol: Symbol, rate: i128 },
    ExchangeStatus { exchange: Exchange, status: MarketStatus },
    ExchangeRate { exchange: Exchange, rate: i128 },
    Custom(CustomEvent),
    Clock,
}

/// What concerns one account.
#[derive(Clone, Debug, PartialEq, Eq)]
pub enum AccountData {
    Fill(Fill),
    OrderUpdate(OrderUpdate),
    /// What the venue says is held on a leg.
    Position(Position),
    Balance { exchange: Exchange, asset: String, available: Money },
    /// What the account is worth on a venue, where nothing is said of what is at stake.
    Equity { exchange: Exchange, equity: Money },
    AccountInfo { exchange: Exchange, equity: Money, notional: Money },
}

/// Market data with the times at which the venue sent it and the engine got it.
#[derive(Clone, Debug, PartialEq, Eq)]
pub struct MarketEvent {
    pub exchange_ts: Timestamp,
    pub local_ts: Timestamp,
    pub data: MarketData,
}

/// An account's event with its times.
#[derive(Clone, Debug, PartialEq, Eq)]
pub struct AccountEvent {
    pub account: AccountId,
    pub exchange_ts: Timestamp,
    pub local_ts: Timestamp,
    pub data: AccountData,
}

/// Anything that reaches the engine.
#[derive(Clone, Debug, PartialEq, Eq)]
pub enum IncomeEvent {
    Market(MarketEvent),
    Account(AccountEvent),
}

/// How precisely an event says where it belongs.
#[derive(Debug, PartialEq, Eq)]
pub enum Delivery {
    /// To one leg.
    Symbol(Exchange, Symbol),
    /// To one venue.
    Exchange(Exchange),
    /// Everywhere.
    Broadcast,
}

/// Where an event belongs.
pub enum Reach {
    Symbol(Exchange, Seq<char>),
    Exchange(Exchange),
    Broadcast,
}

impl View for Delivery {
    type V = Reach;

    open spec fn view(&self) -> Reach {
        match self {
            Delivery::Symbol(exchange, symbol) => Reach::Symbol(*exchange, symbol@),
            Delivery::Exchange(exchange) => Reach::Exchange(*exchange),
            Delivery::Broadcast => Reach::Broadcast,
        }
    }
}

/// Where market data belongs: to the leg that it names, else to the venue that it names, else
/// everywhere.
pub open spec fn market_reach(data: MarketData) -> Reach {
    match data {
        MarketData::BBO(x) => Reach::Symbol(x.exchange, x.symbol@),
        MarketData::MarketTrade(x) => Reach::Symbol(x.exchange, x.symbol@),
        MarketData::MarkPrice(x) => Reach::Symbol(x.exchange, x.symbol@),
        MarketData::FundingRate(x) => Reach::Symbol(x.exchange, x.symbol@),
        MarketData::BorrowFee { exchange, symbol, .. } => Reach::Symbol(exchange, symbol@),
        MarketData::ExchangeStatus { exchange, .. } => Reach::Exchange(exchange),
        MarketData::ExchangeRate { exchange, .. } => Reach::Exchange(exchange),
        MarketData::Custom(x) => match x.scope {
            Some((exchange, symbol)) => Reach::Symbol(exchange, symbol@),
            None => Reach::Broadcast,
        },
        MarketData::Clock => Reach::Broadcast,
    }
}

/// Where an account's event belongs.
pub open spec fn account_reach(data: AccountData) -> Reach {
    match data {
        AccountData::Fill(x) => Reach::Symbol(x.exchange, x.symbol@),
        AccountData::OrderUpdate(x) => Reach::Symbol(x.exchange, x.symbol@),
        AccountData::Position(x) => Reach::Symbol(x.exchange, x.symbol@),
        AccountData::Balance { exchange, .. } => Reach::Exchange(exchange),
        AccountData::Equity { exchange, .. } => Reach::Exchange(exchange),
        AccountData::AccountInfo { exchange, .. } => Reach::Exchange(exchange),
    }
}

/// Where an event belongs.
pub open spec fn reach(event: IncomeEvent) -> Reach {
    match event {
        IncomeEvent::Market(e) => market_reach(e.data),
        IncomeEvent::Account(e) => account_reach(e.data),
    }
}

/// When the engine got an event.
pub open spec fn local_time(event: IncomeEvent) -> Timestamp {
    match event {
        IncomeEvent::Market(e) => e.local_ts,
        IncomeEvent::Account(e) => e.local_ts,
    }
}

impl MarketData {
    /// Where the data belongs.
    pub fn delivery(&self) -> (d: Delivery)
        ensures
            d@ == market_reach(*self),
    {
        match self {
            MarketData::BBO(x) => Delivery::Symbol(x.exchange, x.symbol.clone()),
            MarketData::MarketTrade(x) => Delivery::Symbol(x.exchange, x.symbol.clone()),
            MarketData::MarkPrice(x) => Delivery::Symbol(x.exchange, x.symbol.clone()),
            MarketData::FundingRate(x) => Delivery::Symbol(x.exchange, x.symbol.clone()),
            MarketData::BorrowFee { exchange, symbol, .. } => Delivery::Symbol(
                *exchange,
                symbol.clone(),
            ),
            MarketData::ExchangeStatus { exchange, .. } => Delivery::Exchange(*exchange),
            MarketData::ExchangeRate { exchange, .. } => Delivery::Exchange(*exchange),
            MarketData::Custom(x) => match &x.scope {
                Some((exchange, symbol)) => Delivery::Symbol(*exchange, symbol.clone()),
                None => Delivery::Broadcast,
            },
            MarketData::Clock => Delivery::Broadcast,
        }
    }
}

impl AccountData {
    /// Where the data belongs.
    pub fn delivery(&self) -> (d: Delivery)
        ensures
            d@ == account_reach(*self),
    {
        match self {
            AccountData::Fill(x) => Delivery::Symbol(x.exchange, x.symbol.clone()),
            AccountData::OrderUpdate(x) => Delivery::Symbol(x.exchange, x.symbol.clone()),
            AccountData::Position(x) => Delivery::Symbol(x.exchange, x.symbol.clone()),
            AccountData::Balance { exchange, .. } => Delivery::Exchange(*exchange),
            AccountData::Equity { exchange, .. } => Delivery::Exchange(*exchange),
            AccountData::AccountInfo { exchange, .. } => Delivery::Exchange(*exchange),
        }
    }
}

impl IncomeEvent {
    /// A market event.
    pub fn market(exchange_ts: Timestamp, local_ts: Timestamp, data: MarketData) -> (e: Self)
        ensures
            e == IncomeEvent::Market(MarketEvent { exchange_ts, local_ts, data }),
    {
        IncomeEvent::Market(MarketEvent { exchange_ts, local_ts, data })
    }

    /// An account's event.
    pub fn account(
        account: AccountId,
        exchange_ts: Timestamp,
        local_ts: Timestamp,
        data: AccountData,
    ) -> (e: Self)
        ensures
            e == IncomeEvent::Account(AccountEvent { account, exchange_ts, local_ts, data }),
    {
        IncomeEvent::Account(AccountEvent { account, exchange_ts, local_ts, data })
    }

    /// Where the event belongs.
    pub fn delivery(&self) -> (d: Delivery)
        ensures
            d@ == reach(*self),
    {
        match self {
            IncomeEvent::Market(e) => e.data.delivery(),
            IncomeEvent::Account(e) => e.data.delivery(),
        }
    }

    /// When the engine got the event.
    pub fn local_ts(&self) -> (t: Timestamp)
        ensures
            t == local_time(*self),
    {
        match self {
            IncomeEvent::Market(e) => e.local_ts,
            IncomeEvent::Account(e) => e.local_ts,
        }
    }
}

/// Market data of an instrument belongs to the leg that it names, that of a venue to the venue, and what
/// names neither to all.
pub proof fn market_data_belongs_where_it_names(data: MarketData)
    ensures
        data matches MarketData::BBO(x) ==> market_reach(data) == Reach::Symbol(x.exchange, x.symbol@),
        data matches MarketData::MarketTrade(x) ==> market_reach(data) == Reach::Symbol(x.exchange, x.symbol@),
        data matches MarketData::MarkPrice(x) ==> market_reach(data) == Reach::Symbol(x.exchange, x.symbol@),
        data matches MarketData::FundingRate(x) ==> market_reach(data) == Reach::Symbol(x.exchange, x.symbol@),
        data matches MarketData::BorrowFee { exchange, symbol, rate } ==> market_reach(data) == Reach::Symbol(
            exchange,
            symbol@,
        ),
        data matches MarketData::ExchangeStatus { exchange, status } ==> market_reach(data) == Reach::Exchange(exchange),
        data matches MarketData::ExchangeRate { exchange, rate } ==> market_reach(data) == Reach::Exchange(exchange),
        data matches MarketData::Custom(x) ==> match x.scope {
            Some((exchange, symbol)) => market_reach(data) == Reach::Symbol(exchange, symbol@),
            None => market_reach(data) is Broadcast,
        },
        data is Clock ==> market_reach(data) is Broadcast,
{
}

/// An account's event belongs to the leg that it names, else to its venue.
pub proof fn account_events_belong_where_they_name(data: AccountData)
    ensures
        data matches AccountData::Fill(x) ==> account_reach(data) == Reach::Symbol(x.exchange, x.symbol@),
        data matches AccountData::OrderUpdate(x) ==> account_reach(data) == Reach::Symbol(x.exchange, x.symbol@),
        data matches AccountData::Position(x) ==> account_reach(data) == Reach::Symbol(x.exchange, x.symbol@),
        data matches AccountData::Balance { exchange, asset, available } ==> account_reach(data) == Reach::Exchange(
            exchange,
        ),
        data matches AccountData::Equity { exchange, equity } ==> account_reach(data) == Reach::Exchange(exchange),
        data matches AccountData::AccountInfo { exchange, equity, notional } ==> account_reach(data) == Reach::Exchange(
            exchange,
        ),
{
}

/// Where an event belongs and when it came are its own data's, whichever kind it is.
pub proof fn an_event_belongs_where_its_data_does(event: IncomeEvent)
    ensures
        event matches IncomeEvent::Market(e) ==> reach(event) == market_reach(e.data) && local_time(event) == e.local_ts,
        event matches IncomeEvent::Account(e) ==> reach(event) == account_reach(e.data) && local_time(event) == e.local_ts,
{
}

/// Coins are worth their number times the middle between bid and offer, cut towards zero.
pub proof fn the_middle_values_coins(bbo: BBO, size: int)
    requires
        i128::MIN <= bbo.bid_price + bbo.ask_price <= i128::MAX,
        i128::MIN <= size * (bbo.bid_price + bbo.ask_price) <= i128::MAX,
    ensures
        ({
            let twice = size * (bbo.bid_price + bbo.ask_price);
            &&& twice >= 0 ==> 2 * worth_at_mid(bbo, size) <= twice <= 2 * worth_at_mid(bbo, size) + 1
            &&& twice <= 0 ==> 2 * worth_at_mid(bbo, size) - 1 <= twice <= 2 * worth_at_mid(bbo, size)
        }),
{
    amount::halving_cuts_towards_zero(size * (bbo.bid_price + bbo.ask_price));
}

} // verus!
