//! What strategies subscribe to, and whether the venues can serve it.

use vstd::prelude::*;
use crate::domain::{Exchange, Symbol};
use crate::table::Key;

verus! {

/// The length of a candle.
#[derive(Clone, Copy, Debug, PartialEq, Eq, Structural)]
pub enum CandleInterval {
    Min1,
    Min5,
    Hour1,
}

/// A stream of one instrument's market data.
#[derive(Debug, PartialEq, Eq)]
pub enum SubscriptionKind {
    BBO { symbol: Symbol },
    Trades { symbol: Symbol },
    MarkPrice { symbol: Symbol },
    FundingRate { symbol: Symbol },
    Candle { symbol: Symbol, interval: CandleInterval },
}

/// What identifies a stream.
pub enum StreamKey {
    BBO(Seq<char>),
    Trades(Seq<char>),
    MarkPrice(Seq<char>),
    FundingRate(Seq<char>),
    Candle(Seq<char>, CandleInterval),
}

impl View for SubscriptionKind {
    type V = StreamKey;

    open spec fn view(&self) -> StreamKey {
        match self {
            SubscriptionKind::BBO { symbol } => StreamKey::BBO(symbol@),
            SubscriptionKind::Trades { symbol } => StreamKey::Trades(symbol@),
            SubscriptionKind::MarkPrice { symbol } => StreamKey::MarkPrice(symbol@),
            SubscriptionKind::FundingRate { symbol } => StreamKey::FundingRate(symbol@),
            SubscriptionKind::Candle { symbol, interval } => StreamKey::Candle(symbol@, *interval),
        }
    }
}

/// The stream's instrument.
pub open spec fn stream_symbol(kind: SubscriptionKind) -> Symbol {
    match kind {
        SubscriptionKind::BBO { symbol } => symbol,
        SubscriptionKind::Trades { symbol } => symbol,
        SubscriptionKind::MarkPrice { symbol } => symbol,
        SubscriptionKind::FundingRate { symbol } => symbol,
        SubscriptionKind::Candle { symbol, .. } => symbol,
    }
}

impl Clone for SubscriptionKind {
    fn clone(&self) -> (r: Self)
        ensures
            r == *self,
    {
        match self {
            SubscriptionKind::BBO { symbol } => SubscriptionKind::BBO { symbol: symbol.clone() },
            SubscriptionKind::Trades { symbol } => SubscriptionKind::Trades {
                symbol: symbol.clone(),
            },
            SubscriptionKind::MarkPrice { symbol } => SubscriptionKind::MarkPrice {
                symbol: symbol.clone(),
            },
            SubscriptionKind::FundingRate { symbol } => SubscriptionKind::FundingRate {
                symbol: symbol.clone(),
            },
            SubscriptionKind::Candle { symbol, interval } => SubscriptionKind::Candle {
                symbol: symbol.clone(),
                interval: *interval,
            },
        }
    }
}

impl SubscriptionKind {
    /// The stream's instrument.
    pub fn symbol(&self) -> (s: &Symbol)
        ensures
            *s == stream_symbol(*self),
    {
        match self {
            SubscriptionKind::BBO { symbol } => symbol,
            SubscriptionKind::Trades { symbol } => symbol,
            SubscriptionKind::MarkPrice { symbol } => symbol,
            SubscriptionKind::FundingRate { symbol } => symbol,
            SubscriptionKind::Candle { symbol, .. } => symbol,
        }
    }
}

/// A stream on a venue.
impl Key for (Exchange, SubscriptionKind) {
    type Id = (Exchange, StreamKey);

    open spec fn id(&self) -> (Exchange, StreamKey) {
        (self.0, self.1@)
    }

    fn same(&self, other: &Self) -> (b: bool) {
        self.0 == other.0 && match (&self.1, &other.1) {
            (SubscriptionKind::BBO { symbol: a }, SubscriptionKind::BBO { symbol: b }) => *a == *b,
            (SubscriptionKind::Trades { symbol: a }, SubscriptionKind::Trades { symbol: b }) => *a
                == *b,
            (
                SubscriptionKind::MarkPrice { symbol: a },
                SubscriptionKind::MarkPrice { symbol: b },
            ) => *a == *b,
            (
                SubscriptionKind::FundingRate { symbol: a },
                SubscriptionKind::FundingRate { symbol: b },
            ) => *a == *b,
            (
                SubscriptionKind::Candle { symbol: a, interval: x },
                SubscriptionKind::Candle { symbol: b, interval: y },
            ) => *a == *b && *x == *y,
            _ => false,
        }
    }

    fn copy(&self) -> (k: Self) {
        (self.0, self.1.clone())
    }
}

/// Which streams a venue's adapter carries.
#[derive(Clone, Copy, Debug, PartialEq, Eq, Structural)]
pub struct Capabilities {
    pub bbo: bool,
    pub trades: bool,
    pub mark_price: bool,
    pub funding_rate: bool,
    pub candle: bool,
}

/// Whether an adapter carries a stream.
pub open spec fn carries(c: Capabilities, kind: SubscriptionKind) -> bool {
    match kind {
        SubscriptionKind::BBO { .. } => c.bbo,
        SubscriptionKind::Trades { .. } => c.trades,
        SubscriptionKind::MarkPrice { .. } => c.mark_price,
        SubscriptionKind::FundingRate { .. } => c.funding_rate,
        SubscriptionKind::Candle { .. } => c.candle,
    }
}

/// What the adapters carry: quotes on every venue, candles on OKX alone, and nothing but quotes
/// on IBKR.
pub open spec fn adapter(exchange: Exchange) -> Capabilities {
    Capabilities {
        bbo: true,
        trades: !(exchange is IBKR),
        mark_price: !(exchange is IBKR),
        funding_rate: !(exchange is IBKR),
        candle: exchange is OKX,
    }
}

impl Capabilities {
    /// What the venue's adapter carries.
    pub fn of(exchange: Exchange) -> (c: Self)
        ensures
            c == adapter(exchange),
    {
        let ibkr = match exchange {
            Exchange::IBKR => true,
            _ => false,
        };
        let okx = match exchange {
            Exchange::OKX => true,
            _ => false,
        };
        Capabilities {
            bbo: true,
            trades: !ibkr,
            mark_price: !ibkr,
            funding_rate: !ibkr,
            candle: okx,
        }
    }

    /// Whether the stream is carried.
    pub fn supports(&self, kind: &SubscriptionKind) -> (b: bool)
        ensures
            b == carries(*self, *kind),
    {
        match kind {
            SubscriptionKind::BBO { .. } => self.bbo,
            SubscriptionKind::Trades { .. } => self.trades,
            SubscriptionKind::MarkPrice { .. } => self.mark_price,
            SubscriptionKind::FundingRate { .. } => self.funding_rate,
            SubscriptionKind::Candle { .. } => self.candle,
        }
    }
}

/// Whether the venue's adapter carries the stream.
pub fn supports_subscription(exchange: Exchange, kind: &SubscriptionKind) -> (b: bool)
    ensures
        b == carries(adapter(exchange), *kind),
{
    Capabilities::of(exchange).supports(kind)
}

/// The legs of streams.
pub open spec fn legs_of(streams: Seq<(Exchange, SubscriptionKind)>) -> Seq<(Exchange, Symbol)> {
    streams.map_values(|s: (Exchange, SubscriptionKind)| (s.0, stream_symbol(s.1)))
}

/// The leg of each stream.
pub fn legs(streams: &Vec<(Exchange, SubscriptionKind)>) -> (v: Vec<(Exchange, Symbol)>)
    ensures
        v@ == legs_of(streams@),
{
    let mut v: Vec<(Exchange, Symbol)> = Vec::new();
    let mut i: usize = 0;
    while i < streams.len()
        invariant
            i <= streams.len(),
            v@.len() == i,
            forall|j: int| 0 <= j < i ==> #[trigger] v@[j] == legs_of(streams@)[j],
        decreases streams.len() - i,
    {
        v.push((streams[i].0, streams[i].1.symbol().clone()));
        i = i + 1;
    }
    assert(v@ =~= legs_of(streams@));
    v
}

/// A stream is of the instrument that it names.
pub proof fn a_stream_is_of_what_it_names(kind: SubscriptionKind)
    ensures
        kind matches SubscriptionKind::BBO { symbol } ==> stream_symbol(kind) == symbol,
        kind matches SubscriptionKind::Trades { symbol } ==> stream_symbol(kind) == symbol,
        kind matches SubscriptionKind::MarkPrice { symbol } ==> stream_symbol(kind) == symbol,
        kind matches SubscriptionKind::FundingRate { symbol } ==> stream_symbol(kind) == symbol,
        kind matches SubscriptionKind::Candle { symbol, interval } ==> stream_symbol(kind) == symbol,
{
}

/// A venue carries a stream exactly when it carries that kind.
pub proof fn a_venue_carries_by_kind(c: Capabilities, kind: SubscriptionKind)
    ensures
        kind is BBO ==> carries(c, kind) == c.bbo,
        kind is Trades ==> carries(c, kind) == c.trades,
        kind is MarkPrice ==> carries(c, kind) == c.mark_price,
        kind is FundingRate ==> carries(c, kind) == c.funding_rate,
        kind is Candle ==> carries(c, kind) == c.candle,
{
}

/// Quotes come from every venue, candles from OKX alone, and all else from every venue but IBKR.
pub proof fn what_each_adapter_carries(exchange: Exchange, kind: SubscriptionKind)
    ensures
        kind is BBO ==> carries(adapter(exchange), kind),
        kind is Candle ==> (carries(adapter(exchange), kind) <==> exchange is OKX),
        kind is Trades || kind is MarkPrice || kind is FundingRate ==> (carries(adapter(exchange), kind) <==> !(
        exchange is IBKR)),
{
}

/// Each stream is of one leg, in its place: its venue and the instrument that it names.
pub proof fn each_stream_is_of_its_leg(streams: Seq<(Exchange, SubscriptionKind)>, i: int)
    requires
        0 <= i < streams.len(),
    ensures
        legs_of(streams).len() == streams.len(),
        legs_of(streams)[i].0 == streams[i].0,
        legs_of(streams)[i].1 == stream_symbol(streams[i].1),
{
}

/// Two streams are the same exactly when they are of the same kind, of the same instrument, and at the
/// same interval where they have one.
pub proof fn streams_are_told_apart(a: SubscriptionKind, b: SubscriptionKind)
    ensures
        a@ == b@ <==> {
            &&& stream_symbol(a)@ == stream_symbol(b)@
            &&& a is BBO == b is BBO
            &&& a is Trades == b is Trades
            &&& a is MarkPrice == b is MarkPrice
            &&& a is FundingRate == b is FundingRate
            &&& a is Candle == b is Candle
            &&& a is Candle && b is Candle ==> a->Candle_interval == b->Candle_interval
        },
{
}

} // verus!
