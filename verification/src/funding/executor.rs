//! Brings a strategy together with the channels that it listens to.

use vstd::prelude::*;
use crate::actor::engine as actor_engine;
use crate::actor::engine::names_venue;
use crate::domain::{AccountId, Exchange, OutcomeEvent, Symbol, SymbolMetas};
use crate::engine;
use crate::engine::{named_symbols_on, symbols_on};
use crate::event::{AccountData, IncomeEvent, MarketData};
use crate::live::manager::provision;
use crate::live::manager::provision::{aggregate, stream_vec, StrategyWants};
use crate::live::manager::provisioning::StreamSet;
use crate::scope;
use crate::scope::contains_symbol;
use crate::state::StateModel;
use crate::strategy::{AnyStrategy, Held, Judgement, PublicStreams, Strategy};
use crate::strategy_runner;
use crate::strategy_runner::{AnyIdGen, StrategyRunner};
use crate::subscription;
use crate::subscription::{legs, SubscriptionKind};
use crate::table::Key;

verus! {

/// The instruments of which a venue's public channels carry something.
pub struct PublicSinks {
    pub exchange: Exchange,
    pub bbo: Vec<Symbol>,
    pub funding_rate: Vec<Symbol>,
}

/// The instruments of which a venue's private channels carry something. Balances are always
/// carried.
pub struct PrivateSinks {
    pub exchange: Exchange,
    pub position: Vec<Symbol>,
    pub order_update: Vec<Symbol>,
}

/// A channel to listen to.
#[derive(Debug)]
pub enum Feed {
    BBO(Exchange, Symbol),
    FundingRate(Exchange, Symbol),
    Position(Exchange, Symbol),
    OrderUpdate(Exchange, Symbol),
    Balance(Exchange),
    Clock,
}

/// The public channels of a venue: those that the strategy wants and the venue carries.
pub open spec fn public_feeds(
    streams: Seq<((Exchange, SubscriptionKind), ())>,
    sinks: PublicSinks,
    symbols: Seq<Symbol>,
) -> Seq<Feed>
    decreases symbols.len(),
{
    if symbols.len() == 0 {
        Seq::empty()
    } else {
        let earlier = public_feeds(streams, sinks, symbols.drop_last());
        let s = symbols.last();
        let a = if engine::is_wanted(streams, sinks.exchange, SubscriptionKind::BBO { symbol: s }) && scope::listed(sinks.bbo@, s@) {
            earlier.push(Feed::BBO(sinks.exchange, s))
        } else {
            earlier
        };
        if engine::is_wanted(streams, sinks.exchange, SubscriptionKind::FundingRate { symbol: s }) && scope::listed(
            sinks.funding_rate@,
            s@,
        ) {
            a.push(Feed::FundingRate(sinks.exchange, s))
        } else {
            a
        }
    }
}

/// The private channels of a venue: of each instrument that the strategy follows there.
pub open spec fn private_feeds(sinks: PrivateSinks, symbols: Seq<Symbol>) -> Seq<Feed>
    decreases symbols.len(),
{
    if symbols.len() == 0 {
        Seq::empty()
    } else {
        let earlier = private_feeds(sinks, symbols.drop_last());
        let s = symbols.last();
        let a = if scope::listed(sinks.position@, s@) {
            earlier.push(Feed::Position(sinks.exchange, s))
        } else {
            earlier
        };
        if scope::listed(sinks.order_update@, s@) {
            a.push(Feed::OrderUpdate(sinks.exchange, s))
        } else {
            a
        }
    }
}

/// All public channels.
pub open spec fn all_public(streams: Seq<((Exchange, SubscriptionKind), ())>, sinks: Seq<PublicSinks>) -> Seq<Feed>
    decreases sinks.len(),
{
    if sinks.len() == 0 {
        Seq::empty()
    } else {
        let s = sinks.last();
        all_public(streams, sinks.drop_last()) + public_feeds(streams, s, engine::symbols_in(streams, s.exchange))
    }
}

/// All private channels. On a venue that the strategy does not name, it hears nothing.
pub open spec fn all_private(
    streams: Seq<((Exchange, SubscriptionKind), ())>,
    bare: Seq<(Exchange, Option<Symbol>)>,
    sinks: Seq<PrivateSinks>,
) -> Seq<Feed>
    decreases sinks.len(),
{
    if sinks.len() == 0 {
        Seq::empty()
    } else {
        let s = sinks.last();
        let earlier = all_private(streams, bare, sinks.drop_last());
        if actor_engine::all_venues(streams, bare).contains(s.exchange) {
            (earlier + private_feeds(s, engine::all_symbols(streams, bare, s.exchange))).push(Feed::Balance(s.exchange))
        } else {
            earlier
        }
    }
}

/// The channels that a strategy listens to.
pub open spec fn feeds(
    streams: Seq<((Exchange, SubscriptionKind), ())>,
    bare: Seq<(Exchange, Option<Symbol>)>,
    public_sinks: Seq<PublicSinks>,
    private_sinks: Seq<PrivateSinks>,
) -> Seq<Feed> {
    (all_public(streams, public_sinks) + all_private(streams, bare, private_sinks)).push(Feed::Clock)
}

/// Whether a channel is of a venue.
pub open spec fn is_on(feed: Feed, exchange: Exchange) -> bool {
    match feed {
        Feed::BBO(e, _) => e == exchange,
        Feed::FundingRate(e, _) => e == exchange,
        Feed::Position(e, _) => e == exchange,
        Feed::OrderUpdate(e, _) => e == exchange,
        Feed::Balance(e) => e == exchange,
        Feed::Clock => false,
    }
}

/// Whether a channel carries an event. What the account is worth comes with the clock.
pub open spec fn is_carried(feed: Feed, event: IncomeEvent) -> bool {
    match event {
        IncomeEvent::Market(e) => match e.data {
            MarketData::BBO(bbo) => feed matches Feed::BBO(on, s) && on == bbo.exchange && s@ == bbo.symbol@,
            MarketData::FundingRate(rate) => feed matches Feed::FundingRate(on, s) && on == rate.exchange && s@
                == rate.symbol@,
            MarketData::Clock => feed is Clock,
            _ => false,
        },
        IncomeEvent::Account(e) => match e.data {
            AccountData::Position(p) => feed matches Feed::Position(on, s) && on == p.exchange && s@ == p.symbol@,
            AccountData::OrderUpdate(u) => feed matches Feed::OrderUpdate(on, s) && on == u.exchange && s@ == u.symbol@,
            AccountData::Balance { exchange, .. } => feed matches Feed::Balance(on) && on == exchange,
            AccountData::Equity { .. } => feed is Clock,
            _ => false,
        },
    }
}

impl Feed {
    /// Whether the channel carries an event.
    pub fn carries(&self, event: &IncomeEvent) -> (b: bool)
        ensures
            b == is_carried(*self, *event),
    {
        match event {
            IncomeEvent::Market(e) => match (&e.data, self) {
                (MarketData::BBO(bbo), Feed::BBO(on, s)) => *on == bbo.exchange && *s == bbo.symbol,
                (MarketData::FundingRate(rate), Feed::FundingRate(on, s)) => *on == rate.exchange && *s == rate.symbol,
                (MarketData::Clock, Feed::Clock) => true,
                _ => false,
            },
            IncomeEvent::Account(e) => match (&e.data, self) {
                (AccountData::Position(p), Feed::Position(on, s)) => *on == p.exchange && *s == p.symbol,
                (AccountData::OrderUpdate(u), Feed::OrderUpdate(on, s)) => *on == u.exchange && *s == u.symbol,
                (AccountData::Balance { exchange, .. }, Feed::Balance(on)) => *on == *exchange,
                (AccountData::Equity { .. }, Feed::Clock) => true,
                _ => false,
            },
        }
    }
}

/// What came out of a channel.
#[derive(Clone, Copy, Debug, PartialEq, Eq, Structural)]
pub enum Received {
    Event,
    /// Some events were missed.
    Lagged,
    Closed,
    /// The engine is going down.
    Cancelled,
}

/// What is done about it.
#[derive(Clone, Copy, Debug, PartialEq, Eq, Structural)]
pub enum Relay {
    Forward,
    Skip,
    End,
}

/// What is done about what came out of a channel: what was missed is passed over, for the next
/// event is worth more than the one that is gone.
pub fn relay(r: Received) -> (s: Relay)
    ensures
        s == (match r {
            Received::Event => Relay::Forward,
            Received::Lagged => Relay::Skip,
            Received::Closed => Relay::End,
            Received::Cancelled => Relay::End,
        }),
{
    match r {
        Received::Event => Relay::Forward,
        Received::Lagged => Relay::Skip,
        Received::Closed => Relay::End,
        Received::Cancelled => Relay::End,
    }
}

/// The instruments that are named without a stream.
pub open spec fn bare_legs(bare: Seq<(Exchange, Option<Symbol>)>) -> Seq<(Exchange, Symbol)>
    decreases bare.len(),
{
    if bare.len() == 0 {
        Seq::empty()
    } else {
        let earlier = bare_legs(bare.drop_last());
        match bare.last().1 {
            Some(s) => earlier.push((bare.last().0, s)),
            None => earlier,
        }
    }
}

/// The legs that are named, with a stream or without.
pub open spec fn followed(
    streams: Seq<((Exchange, SubscriptionKind), ())>,
    bare: Seq<(Exchange, Option<Symbol>)>,
) -> Set<(Exchange, Seq<char>)> {
    scope::leg_set(
        subscription::legs_of(streams.map_values(|s: ((Exchange, SubscriptionKind), ())| s.0)) + bare_legs(bare),
    )
}

/// A strategy and what it wants of the venues.
pub struct Executor {
    strategy: AnyStrategy,
    public_streams: StreamSet,
    bare: Vec<(Exchange, Option<Symbol>)>,
}

/// What a strategy with these streams wants.
pub open spec fn wants_one(streams: PublicStreams) -> Seq<StrategyWants> {
    seq![StrategyWants { account: AccountId::Live, streams: streams.kinds, bare: streams.bare }]
}

impl Executor {
    /// The streams that the strategy wants, each once.
    pub closed spec fn stream_list(&self) -> Seq<((Exchange, SubscriptionKind), ())> {
        self.public_streams.entries()
    }

    /// What the strategy names without a stream.
    pub closed spec fn bare_list(&self) -> Seq<(Exchange, Option<Symbol>)> {
        self.bare@
    }

    /// What the strategy may decide.
    pub closed spec fn judgement(&self) -> Judgement {
        self.strategy.judgement()
    }

    /// Whether the strategy may answer that it gives an order up after so long.
    pub closed spec fn may_wait(&self, ms: u64) -> bool {
        self.strategy.may_wait(ms)
    }

    /// Asks the strategy what it wants.
    pub fn new(strategy: Box<dyn Strategy>) -> (e: Self)
        ensures
            exists|streams: PublicStreams|
                strategy.may_want(streams.kinds@, streams.bare@) && #[trigger] provision::is_stream_list(
                    e.stream_list(),
                    wants_one(streams),
                ) && e.bare_list() == streams.bare@,
            forall|k: nat, event: IncomeEvent, known: StateModel, ds: Seq<OutcomeEvent>| #[trigger]
                e.judgement()(k, event, known, ds) == strategy.may_decide(k, event, known, ds),
            forall|ms: u64| #[trigger] e.may_wait(ms) == strategy.may_wait(ms),
    {
        let held = Held { strategy };
        let streams = held.public_streams();
        Self::assembled(held, streams)
    }

    /// A strategy that wants these streams.
    pub fn on_streams(strategy: Box<dyn Strategy>, streams: PublicStreams) -> (e: Self)
        ensures
            provision::is_stream_list(e.stream_list(), wants_one(streams)),
            e.bare_list() == streams.bare@,
            forall|k: nat, event: IncomeEvent, known: StateModel, ds: Seq<OutcomeEvent>| #[trigger]
                e.judgement()(k, event, known, ds) == strategy.may_decide(k, event, known, ds),
            forall|ms: u64| #[trigger] e.may_wait(ms) == strategy.may_wait(ms),
    {
        let held = Held { strategy };
        Self::assembled(held, streams)
    }

    fn assembled(strategy: AnyStrategy, streams: PublicStreams) -> (e: Self)
        ensures
            provision::is_stream_list(e.stream_list(), wants_one(streams)),
            e.bare_list() == streams.bare@,
            e.strategy == strategy,
    {
        let mut bare: Vec<(Exchange, Option<Symbol>)> = Vec::new();
        let mut i: usize = 0;
        while i < streams.bare.len()
            invariant
                i <= streams.bare.len(),
                bare@ =~= streams.bare@.take(i as int),
            decreases streams.bare.len() - i,
        {
            bare.push((streams.bare[i].0, streams.bare[i].1.clone()));
            i = i + 1;
        }
        let mut wants: Vec<StrategyWants> = Vec::new();
        wants.push(StrategyWants { account: AccountId::Live, streams: streams.kinds, bare: streams.bare });
        assert(wants@ =~= wants_one(streams));
        let public_streams = aggregate(&wants);
        Executor { strategy, public_streams, bare }
    }

    fn add_public(&self, v: &mut Vec<Feed>, sinks: &PublicSinks)
        ensures
            final(v)@ == old(v)@ + public_feeds(
                self.stream_list(),
                *sinks,
                engine::symbols_in(self.stream_list(), sinks.exchange),
            ),
    {
        let ghost was = v@;
        let ghost all = self.stream_list();
        let symbols = symbols_on(&self.public_streams, sinks.exchange);
        let mut i: usize = 0;
        assert(v@ =~= was + public_feeds(all, *sinks, symbols@.take(0)));
        while i < symbols.len()
            invariant
                i <= symbols.len(),
                all == self.public_streams.entries(),
                v@ == was + public_feeds(all, *sinks, symbols@.take(i as int)),
            decreases symbols.len() - i,
        {
            assert(symbols@.take(i + 1).drop_last() =~= symbols@.take(i as int));
            let ghost mut so_far = public_feeds(all, *sinks, symbols@.take(i as int));
            let s = &symbols[i];
            let bbo = SubscriptionKind::BBO { symbol: s.clone() };
            let funding = SubscriptionKind::FundingRate { symbol: s.clone() };
            if self.public_streams.contains_key(&(sinks.exchange, bbo)) && contains_symbol(&sinks.bbo, s) {
                v.push(Feed::BBO(sinks.exchange, s.clone()));
                proof {
                    so_far = so_far.push(Feed::BBO(sinks.exchange, *s));
                    assert(v@ =~= was + so_far);
                }
            }
            if self.public_streams.contains_key(&(sinks.exchange, funding)) && contains_symbol(&sinks.funding_rate, s) {
                v.push(Feed::FundingRate(sinks.exchange, s.clone()));
                assert(v@ =~= was + so_far.push(Feed::FundingRate(sinks.exchange, *s)));
            }
            i = i + 1;
        }
        assert(symbols@.take(i as int) =~= symbols@);
    }

    fn add_private(&self, v: &mut Vec<Feed>, sinks: &PrivateSinks, symbols: &Vec<Symbol>)
        ensures
            final(v)@ == old(v)@ + private_feeds(*sinks, symbols@),
    {
        let ghost was = v@;
        let mut i: usize = 0;
        assert(v@ =~= was + private_feeds(*sinks, symbols@.take(0)));
        while i < symbols.len()
            invariant
                i <= symbols.len(),
                v@ == was + private_feeds(*sinks, symbols@.take(i as int)),
            decreases symbols.len() - i,
        {
            assert(symbols@.take(i + 1).drop_last() =~= symbols@.take(i as int));
            let ghost mut so_far = private_feeds(*sinks, symbols@.take(i as int));
            let s = &symbols[i];
            if contains_symbol(&sinks.position, s) {
                v.push(Feed::Position(sinks.exchange, s.clone()));
                proof {
                    so_far = so_far.push(Feed::Position(sinks.exchange, *s));
                    assert(v@ =~= was + so_far);
                }
            }
            if contains_symbol(&sinks.order_update, s) {
                v.push(Feed::OrderUpdate(sinks.exchange, s.clone()));
                assert(v@ =~= was + so_far.push(Feed::OrderUpdate(sinks.exchange, *s)));
            }
            i = i + 1;
        }
        assert(symbols@.take(i as int) =~= symbols@);
    }

    /// The channels that the strategy listens to.
    pub fn plan(&self, public_sinks: &Vec<PublicSinks>, private_sinks: &Vec<PrivateSinks>) -> (v: Vec<Feed>)
        ensures
            v@ == feeds(self.stream_list(), self.bare_list(), public_sinks@, private_sinks@),
    {
        let ghost all = self.stream_list();
        let ghost bare = self.bare_list();
        let mut v: Vec<Feed> = Vec::new();
        let mut i: usize = 0;
        assert(v@ =~= all_public(all, public_sinks@.take(0)));
        while i < public_sinks.len()
            invariant
                i <= public_sinks.len(),
                all == self.stream_list(),
                v@ == all_public(all, public_sinks@.take(i as int)),
            decreases public_sinks.len() - i,
        {
            assert(public_sinks@.take(i + 1).drop_last() =~= public_sinks@.take(i as int));
            self.add_public(&mut v, &public_sinks[i]);
            i = i + 1;
        }
        assert(public_sinks@.take(i as int) =~= public_sinks@);
        let ghost public = all_public(all, public_sinks@);
        i = 0;
        assert(v@ =~= public + all_private(all, bare, private_sinks@.take(0)));
        while i < private_sinks.len()
            invariant
                i <= private_sinks.len(),
                all == self.stream_list(),
                bare == self.bare_list(),
                v@ == public + all_private(all, bare, private_sinks@.take(i as int)),
            decreases private_sinks.len() - i,
        {
            assert(private_sinks@.take(i + 1).drop_last() =~= private_sinks@.take(i as int));
            let ghost earlier = all_private(all, bare, private_sinks@.take(i as int));
            let exchange = private_sinks[i].exchange;
            if names_venue(&self.public_streams, &self.bare, exchange) {
                let symbols = named_symbols_on(&self.public_streams, &self.bare, exchange);
                self.add_private(&mut v, &private_sinks[i], &symbols);
                v.push(Feed::Balance(exchange));
                assert(v@ =~= public + (earlier + private_feeds(private_sinks@[i as int], symbols@)).push(
                    Feed::Balance(private_sinks@[i as int].exchange),
                ));
            }
            i = i + 1;
        }
        assert(private_sinks@.take(i as int) =~= private_sinks@);
        v.push(Feed::Clock);
        v
    }

    /// The strategy, ready to decide: it knows nothing yet but which instruments it follows.
    pub fn into_runner(self, symbol_metas: SymbolMetas) -> (r: StrategyRunner)
        ensures
            r.metas() == symbol_metas@,
            r.legs() == followed(self.stream_list(), self.bare_list()),
            strategy_runner::starts_blank(r.known(), r.legs()),
            self.may_wait(r.known().order_timeout_ms),
            r.judgement() == self.judgement(),
            r.ids() == strategy_runner::own_ids(),
    {
        let order_timeout_ms = self.strategy.order_timeout_ms();
        let streams = stream_vec(&self.public_streams);
        let ghost all = self.stream_list();
        assert(streams@ =~= all.map_values(|s: ((Exchange, SubscriptionKind), ())| s.0));
        let mut pairs = legs(&streams);
        let ghost first = pairs@;
        let mut i: usize = 0;
        assert(pairs@ =~= first + bare_legs(self.bare@.take(0)));
        while i < self.bare.len()
            invariant
                i <= self.bare.len(),
                pairs@ == first + bare_legs(self.bare@.take(i as int)),
            decreases self.bare.len() - i,
        {
            assert(self.bare@.take(i + 1).drop_last() =~= self.bare@.take(i as int));
            let ghost earlier = bare_legs(self.bare@.take(i as int));
            if let Some(s) = &self.bare[i].1 {
                pairs.push((self.bare[i].0, s.clone()));
                assert(pairs@ =~= first + earlier.push((self.bare@[i as int].0, *s)));
            }
            i = i + 1;
        }
        assert(self.bare@.take(i as int) =~= self.bare@);
        StrategyRunner::assembled(self.strategy, &pairs, order_timeout_ms, symbol_metas, AnyIdGen::random())
    }
}

proof fn lemma_bare_keeps(venues: Seq<Exchange>, bare: Seq<(Exchange, Option<Symbol>)>, exchange: Exchange)
    requires
        venues.contains(exchange),
    ensures
        actor_engine::with_bare(venues, bare).contains(exchange),
    decreases bare.len(),
{
    if bare.len() > 0 {
        lemma_bare_keeps(venues, bare.drop_last(), exchange);
        let earlier = actor_engine::with_bare(venues, bare.drop_last());
        let at = choose|i: int| 0 <= i < earlier.len() && earlier[i] == exchange;
        assert(actor_engine::with_bare(venues, bare)[at] == exchange);
    }
}

proof fn lemma_venue_of_symbols(streams: Seq<((Exchange, SubscriptionKind), ())>, exchange: Exchange)
    requires
        engine::symbols_in(streams, exchange).len() > 0,
    ensures
        actor_engine::venues_in(streams).contains(exchange),
    decreases streams.len(),
{
    if streams.len() > 0 {
        let all = actor_engine::venues_in(streams);
        let earlier = actor_engine::venues_in(streams.drop_last());
        if streams.last().0.0 == exchange {
            if !earlier.contains(exchange) {
                assert(all[all.len() - 1] == exchange);
            }
        } else {
            lemma_venue_of_symbols(streams.drop_last(), exchange);
            let at = choose|i: int| 0 <= i < earlier.len() && earlier[i] == exchange;
            assert(all[at] == exchange);
        }
    }
}

/// On a venue that a strategy does not name, it hears nothing, not even of the account.
pub proof fn nothing_followed_nothing_heard(
    streams: Seq<((Exchange, SubscriptionKind), ())>,
    bare: Seq<(Exchange, Option<Symbol>)>,
    public_sinks: Seq<PublicSinks>,
    private_sinks: Seq<PrivateSinks>,
    exchange: Exchange,
    i: int,
)
    requires
        !actor_engine::all_venues(streams, bare).contains(exchange),
        0 <= i < feeds(streams, bare, public_sinks, private_sinks).len(),
    ensures
        !is_on(feeds(streams, bare, public_sinks, private_sinks)[i], exchange),
{
    if engine::symbols_in(streams, exchange).len() > 0 {
        lemma_venue_of_symbols(streams, exchange);
        lemma_bare_keeps(actor_engine::venues_in(streams), bare, exchange);
    }
    lemma_public_off(streams, public_sinks, exchange);
    lemma_private_off(streams, bare, private_sinks, exchange);
    let a = all_public(streams, public_sinks);
    let b = all_private(streams, bare, private_sinks);
    let all = feeds(streams, bare, public_sinks, private_sinks);
    if i < a.len() {
        assert(all[i] == a[i]);
    } else if i < a.len() + b.len() {
        assert(all[i] == b[i - a.len()]);
    }
}

spec fn none_on(list: Seq<Feed>, exchange: Exchange) -> bool {
    forall|i: int| 0 <= i < list.len() ==> !is_on(#[trigger] list[i], exchange)
}

proof fn lemma_feeds_of_one(
    streams: Seq<((Exchange, SubscriptionKind), ())>,
    public: PublicSinks,
    private: PrivateSinks,
    symbols: Seq<Symbol>,
    exchange: Exchange,
)
    ensures
        public.exchange != exchange ==> none_on(public_feeds(streams, public, symbols), exchange),
        private.exchange != exchange ==> none_on(private_feeds(private, symbols), exchange),
    decreases symbols.len(),
{
    if symbols.len() > 0 {
        lemma_feeds_of_one(streams, public, private, symbols.drop_last(), exchange);
    }
}

proof fn lemma_public_off(streams: Seq<((Exchange, SubscriptionKind), ())>, sinks: Seq<PublicSinks>, exchange: Exchange)
    requires
        engine::symbols_in(streams, exchange).len() == 0,
    ensures
        none_on(all_public(streams, sinks), exchange),
    decreases sinks.len(),
{
    if sinks.len() > 0 {
        lemma_public_off(streams, sinks.drop_last(), exchange);
        let s = sinks.last();
        let symbols = engine::symbols_in(streams, s.exchange);
        lemma_feeds_of_one(streams, s, arbitrary(), symbols, exchange);
        let earlier = all_public(streams, sinks.drop_last());
        let more = public_feeds(streams, s, symbols);
        let all = all_public(streams, sinks);
        assert forall|i: int| 0 <= i < all.len() implies !is_on(#[trigger] all[i], exchange) by {
            if i < earlier.len() {
                assert(all[i] == earlier[i]);
            } else {
                assert(all[i] == more[i - earlier.len()]);
            }
        }
    }
}

proof fn lemma_private_off(
    streams: Seq<((Exchange, SubscriptionKind), ())>,
    bare: Seq<(Exchange, Option<Symbol>)>,
    sinks: Seq<PrivateSinks>,
    exchange: Exchange,
)
    requires
        !actor_engine::all_venues(streams, bare).contains(exchange),
    ensures
        none_on(all_private(streams, bare, sinks), exchange),
    decreases sinks.len(),
{
    if sinks.len() > 0 {
        lemma_private_off(streams, bare, sinks.drop_last(), exchange);
        let s = sinks.last();
        let symbols = engine::all_symbols(streams, bare, s.exchange);
        lemma_feeds_of_one(streams, arbitrary(), s, symbols, exchange);
        let earlier = all_private(streams, bare, sinks.drop_last());
        let more = private_feeds(s, symbols);
        let all = all_private(streams, bare, sinks);
        assert forall|i: int| 0 <= i < all.len() implies !is_on(#[trigger] all[i], exchange) by {
            if i < earlier.len() {
                assert(all[i] == earlier[i]);
            } else if i < earlier.len() + more.len() {
                assert(all[i] == more[i - earlier.len()]);
            }
        }
    }
}

/// A venue's public channels are read for exactly the quotes and funding rates that are wanted of its
/// instruments and that it carries.
pub proof fn public_channels_are_read_as_wanted(
    streams: Seq<((Exchange, SubscriptionKind), ())>,
    sinks: PublicSinks,
    symbols: Seq<Symbol>,
    i: int,
    k: int,
)
    ensures
        0 <= i < symbols.len() && engine::is_wanted(streams, sinks.exchange, SubscriptionKind::BBO { symbol: symbols[i] })
            && scope::listed(sinks.bbo@, symbols[i]@) ==> public_feeds(streams, sinks, symbols).contains(
            Feed::BBO(sinks.exchange, symbols[i]),
        ),
        0 <= i < symbols.len() && engine::is_wanted(
            streams,
            sinks.exchange,
            SubscriptionKind::FundingRate { symbol: symbols[i] },
        ) && scope::listed(sinks.funding_rate@, symbols[i]@) ==> public_feeds(streams, sinks, symbols).contains(
            Feed::FundingRate(sinks.exchange, symbols[i]),
        ),
        0 <= k < public_feeds(streams, sinks, symbols).len() ==> match public_feeds(streams, sinks, symbols)[k] {
            Feed::BBO(on, s) => on == sinks.exchange && engine::is_wanted(streams, on, SubscriptionKind::BBO { symbol: s })
                && scope::listed(sinks.bbo@, s@),
            Feed::FundingRate(on, s) => on == sinks.exchange && engine::is_wanted(
                streams,
                on,
                SubscriptionKind::FundingRate { symbol: s },
            ) && scope::listed(sinks.funding_rate@, s@),
            _ => false,
        },
    decreases symbols.len(),
{
    if symbols.len() > 0 {
        let rest = symbols.drop_last();
        let earlier = public_feeds(streams, sinks, rest);
        let all = public_feeds(streams, sinks, symbols);
        public_channels_are_read_as_wanted(streams, sinks, rest, i, k);
        lemma_heard_still(earlier, all);
        if 0 <= k < earlier.len() {
            assert(all[k] == earlier[k]);
        }
        if 0 <= i < rest.len() {
            assert(rest[i] == symbols[i]);
        }
        if i == rest.len() {
            let s = symbols[i];
            if engine::is_wanted(streams, sinks.exchange, SubscriptionKind::BBO { symbol: s }) && scope::listed(
                sinks.bbo@,
                s@,
            ) {
                assert(all[earlier.len() as int] == Feed::BBO(sinks.exchange, s));
            }
            if engine::is_wanted(streams, sinks.exchange, SubscriptionKind::FundingRate { symbol: s }) && scope::listed(
                sinks.funding_rate@,
                s@,
            ) {
                assert(all[all.len() - 1] == Feed::FundingRate(sinks.exchange, s));
            }
        }
    }
}

/// A venue's private channels are read for the positions and the reports of its instruments that there
/// are channels for, and for nothing else.
pub proof fn private_channels_are_read_for_every_instrument(sinks: PrivateSinks, symbols: Seq<Symbol>, i: int, k: int)
    ensures
        0 <= i < symbols.len() && scope::listed(sinks.position@, symbols[i]@) ==> private_feeds(sinks, symbols).contains(
            Feed::Position(sinks.exchange, symbols[i]),
        ),
        0 <= i < symbols.len() && scope::listed(sinks.order_update@, symbols[i]@) ==> private_feeds(
            sinks,
            symbols,
        ).contains(Feed::OrderUpdate(sinks.exchange, symbols[i])),
        0 <= k < private_feeds(sinks, symbols).len() ==> match private_feeds(sinks, symbols)[k] {
            Feed::Position(on, s) => on == sinks.exchange && scope::listed(sinks.position@, s@),
            Feed::OrderUpdate(on, s) => on == sinks.exchange && scope::listed(sinks.order_update@, s@),
            _ => false,
        },
    decreases symbols.len(),
{
    if symbols.len() > 0 {
        let rest = symbols.drop_last();
        let earlier = private_feeds(sinks, rest);
        let all = private_feeds(sinks, symbols);
        private_channels_are_read_for_every_instrument(sinks, rest, i, k);
        lemma_heard_still(earlier, all);
        if 0 <= k < earlier.len() {
            assert(all[k] == earlier[k]);
        }
        if 0 <= i < rest.len() {
            assert(rest[i] == symbols[i]);
        }
        if i == rest.len() {
            let s = symbols[i];
            if scope::listed(sinks.position@, s@) {
                assert(all[earlier.len() as int] == Feed::Position(sinks.exchange, s));
            }
            if scope::listed(sinks.order_update@, s@) {
                assert(all[all.len() - 1] == Feed::OrderUpdate(sinks.exchange, s));
            }
        }
    }
}

proof fn lemma_heard_still(earlier: Seq<Feed>, all: Seq<Feed>)
    requires
        earlier.len() <= all.len(),
        forall|p: int| 0 <= p < earlier.len() ==> all[p] == #[trigger] earlier[p],
    ensures
        forall|f: Feed| #[trigger] earlier.contains(f) ==> all.contains(f),
{
    assert forall|f: Feed| #[trigger] earlier.contains(f) implies all.contains(f) by {
        let p = choose|p: int| 0 <= p < earlier.len() && earlier[p] == f;
        assert(all[p] == earlier[p]);
    }
}

proof fn lemma_public_inside(
    streams: Seq<((Exchange, SubscriptionKind), ())>,
    sinks: Seq<PublicSinks>,
    i: int,
    f: Feed,
)
    requires
        0 <= i < sinks.len(),
        public_feeds(streams, sinks[i], engine::symbols_in(streams, sinks[i].exchange)).contains(f),
    ensures
        all_public(streams, sinks).contains(f),
    decreases sinks.len(),
{
    let rest = sinks.drop_last();
    let earlier = all_public(streams, rest);
    let all = all_public(streams, sinks);
    if i < rest.len() {
        assert(rest[i] == sinks[i]);
        lemma_public_inside(streams, rest, i, f);
        lemma_heard_still(earlier, all);
    } else {
        let own = public_feeds(streams, sinks[i], engine::symbols_in(streams, sinks[i].exchange));
        assert(sinks[i] == sinks.last());
        let p = choose|p: int| 0 <= p < own.len() && own[p] == f;
        assert(all[earlier.len() + p] == f);
    }
}

proof fn lemma_private_inside(
    streams: Seq<((Exchange, SubscriptionKind), ())>,
    bare: Seq<(Exchange, Option<Symbol>)>,
    sinks: Seq<PrivateSinks>,
    i: int,
    f: Feed,
)
    requires
        0 <= i < sinks.len(),
        actor_engine::all_venues(streams, bare).contains(sinks[i].exchange),
        private_feeds(sinks[i], engine::all_symbols(streams, bare, sinks[i].exchange)).contains(f) || f == Feed::Balance(
            sinks[i].exchange,
        ),
    ensures
        all_private(streams, bare, sinks).contains(f),
    decreases sinks.len(),
{
    let rest = sinks.drop_last();
    let earlier = all_private(streams, bare, rest);
    let all = all_private(streams, bare, sinks);
    if i < rest.len() {
        assert(rest[i] == sinks[i]);
        lemma_private_inside(streams, bare, rest, i, f);
        lemma_heard_still(earlier, all);
    } else {
        let own = private_feeds(sinks[i], engine::all_symbols(streams, bare, sinks[i].exchange));
        assert(sinks[i] == sinks.last());
        if own.contains(f) {
            let p = choose|p: int| 0 <= p < own.len() && own[p] == f;
            assert(all[earlier.len() + p] == f);
        } else {
            assert(all[all.len() - 1] == f);
        }
    }
}

/// A strategy hears all the channels of all the venues that it names, public and private, the balance of
/// each, and the clock.
pub proof fn a_strategy_hears_all_its_venues(
    streams: Seq<((Exchange, SubscriptionKind), ())>,
    bare: Seq<(Exchange, Option<Symbol>)>,
    public_sinks: Seq<PublicSinks>,
    private_sinks: Seq<PrivateSinks>,
    i: int,
    f: Feed,
)
    ensures
        feeds(streams, bare, public_sinks, private_sinks).contains(Feed::Clock),
        0 <= i < public_sinks.len() && public_feeds(
            streams,
            public_sinks[i],
            engine::symbols_in(streams, public_sinks[i].exchange),
        ).contains(f) ==> feeds(streams, bare, public_sinks, private_sinks).contains(f),
        0 <= i < private_sinks.len() && actor_engine::all_venues(streams, bare).contains(private_sinks[i].exchange) && (
        private_feeds(private_sinks[i], engine::all_symbols(streams, bare, private_sinks[i].exchange)).contains(f) || f
            == Feed::Balance(private_sinks[i].exchange)) ==> feeds(streams, bare, public_sinks, private_sinks).contains(f),
{
    let a = all_public(streams, public_sinks);
    let b = all_private(streams, bare, private_sinks);
    let all = feeds(streams, bare, public_sinks, private_sinks);
    assert(all[all.len() - 1] == Feed::Clock);
    lemma_heard_still(a, all);
    if 0 <= i < public_sinks.len() && public_feeds(
        streams,
        public_sinks[i],
        engine::symbols_in(streams, public_sinks[i].exchange),
    ).contains(f) {
        lemma_public_inside(streams, public_sinks, i, f);
    }
    if 0 <= i < private_sinks.len() && actor_engine::all_venues(streams, bare).contains(private_sinks[i].exchange) && (
    private_feeds(private_sinks[i], engine::all_symbols(streams, bare, private_sinks[i].exchange)).contains(f) || f
        == Feed::Balance(private_sinks[i].exchange)) {
        lemma_private_inside(streams, bare, private_sinks, i, f);
        let p = choose|p: int| 0 <= p < b.len() && b[p] == f;
        assert(all[a.len() + p] == f);
    }
}

/// What comes over a channel of a leg is of that leg, what comes over a venue's balances of that venue,
/// and ticks and what the account is worth come with the clock.
pub proof fn a_channel_carries_its_own(feed: Feed, event: IncomeEvent)
    requires
        is_carried(feed, event),
    ensures
        feed matches Feed::BBO(on, s) ==> crate::event::reach(event) == crate::event::Reach::Symbol(on, s@) && event is Market
            && event->Market_0.data is BBO,
        feed matches Feed::FundingRate(on, s) ==> crate::event::reach(event) == crate::event::Reach::Symbol(on, s@)
            && event is Market && event->Market_0.data is FundingRate,
        feed matches Feed::Position(on, s) ==> crate::event::reach(event) == crate::event::Reach::Symbol(on, s@)
            && event is Account && event->Account_0.data is Position,
        feed matches Feed::OrderUpdate(on, s) ==> crate::event::reach(event) == crate::event::Reach::Symbol(on, s@)
            && event is Account && event->Account_0.data is OrderUpdate,
        feed matches Feed::Balance(on) ==> crate::event::reach(event) == crate::event::Reach::Exchange(on)
            && event is Account && event->Account_0.data is Balance,
        feed is Clock ==> event is Market && event->Market_0.data is Clock || event is Account
            && event->Account_0.data is Equity,
{
}

/// A strategy follows exactly the legs that its streams name and those that it names besides.
pub proof fn a_strategy_follows_what_it_names(
    streams: Seq<((Exchange, SubscriptionKind), ())>,
    bare: Seq<(Exchange, Option<Symbol>)>,
    exchange: Exchange,
    symbol: Seq<char>,
)
    ensures
        followed(streams, bare).contains((exchange, symbol)) <==> engine::is_named(streams, bare, exchange, symbol),
{
    let first = subscription::legs_of(streams.map_values(|s: ((Exchange, SubscriptionKind), ())| s.0));
    let second = bare_legs(bare);
    let legs = first + second;
    lemma_bare_named(bare, exchange, symbol);
    if followed(streams, bare).contains((exchange, symbol)) {
        let i = choose|i: int| 0 <= i < legs.len() && (#[trigger] legs[i]).id() == (exchange, symbol);
        if i < first.len() {
            assert(streams[i].0.0 == exchange && subscription::stream_symbol(streams[i].0.1)@ == symbol);
        } else {
            assert(second[i - first.len()].id() == (exchange, symbol));
        }
    }
    if exists|i: int|
        0 <= i < streams.len() && (#[trigger] streams[i]).0.0 == exchange && subscription::stream_symbol(streams[i].0.1)@
            == symbol {
        let i = choose|i: int|
            0 <= i < streams.len() && (#[trigger] streams[i]).0.0 == exchange && subscription::stream_symbol(
                streams[i].0.1,
            )@ == symbol;
        assert(legs[i].id() == (exchange, symbol));
    }
    if exists|i: int| 0 <= i < second.len() && (#[trigger] second[i]).id() == (exchange, symbol) {
        let i = choose|i: int| 0 <= i < second.len() && (#[trigger] second[i]).id() == (exchange, symbol);
        assert(legs[first.len() + i].id() == (exchange, symbol));
    }
}

proof fn lemma_bare_named(bare: Seq<(Exchange, Option<Symbol>)>, exchange: Exchange, symbol: Seq<char>)
    ensures
        (exists|i: int| 0 <= i < bare_legs(bare).len() && (#[trigger] bare_legs(bare)[i]).id() == (exchange, symbol)) <==> (
        exists|i: int|
            0 <= i < bare.len() && (#[trigger] bare[i]).0 == exchange && bare[i].1 is Some && bare[i].1->0@ == symbol),
    decreases bare.len(),
{
    if bare.len() > 0 {
        let rest = bare.drop_last();
        let earlier = bare_legs(rest);
        let all = bare_legs(bare);
        lemma_bare_named(rest, exchange, symbol);
        assert(bare[bare.len() - 1] == bare.last());
        if exists|i: int| 0 <= i < earlier.len() && (#[trigger] earlier[i]).id() == (exchange, symbol) {
            let i = choose|i: int| 0 <= i < earlier.len() && (#[trigger] earlier[i]).id() == (exchange, symbol);
            assert(all[i].id() == (exchange, symbol));
        }
        if exists|i: int|
            0 <= i < rest.len() && (#[trigger] rest[i]).0 == exchange && rest[i].1 is Some && rest[i].1->0@ == symbol {
            let i = choose|i: int|
                0 <= i < rest.len() && (#[trigger] rest[i]).0 == exchange && rest[i].1 is Some && rest[i].1->0@ == symbol;
            assert(bare[i] == rest[i]);
        }
        if exists|i: int|
            0 <= i < bare.len() && (#[trigger] bare[i]).0 == exchange && bare[i].1 is Some && bare[i].1->0@ == symbol {
            let i = choose|i: int|
                0 <= i < bare.len() && (#[trigger] bare[i]).0 == exchange && bare[i].1 is Some && bare[i].1->0@ == symbol;
            if i < rest.len() {
                assert(rest[i] == bare[i]);
            } else {
                assert(all[all.len() - 1].id() == (exchange, symbol));
            }
        }
        if exists|i: int| 0 <= i < all.len() && (#[trigger] all[i]).id() == (exchange, symbol) {
            let i = choose|i: int| 0 <= i < all.len() && (#[trigger] all[i]).id() == (exchange, symbol);
            if i < earlier.len() {
                assert(earlier[i] == all[i]);
            }
        }
    }
}

} // verus!
