//! Engines that bring everything up in one go, step by step.
//!
//! Three engines share the way up: one that talks through channels, one whose parts are actors, and
//! the one for funding rates in [`crate::funding`].

use vstd::prelude::*;
use vstd::string::StringExecFns;
use crate::actor::engine;
use crate::actor::engine::{in_fixed_order, named_venues};
use crate::config::ExchangesConfig;
use crate::domain;
use crate::domain::{AccountId, Exchange, ExchangeError, OutcomeEvent, Symbol, SymbolMeta, SymbolMetas};
use crate::event::IncomeEvent;
use crate::funding::executor::{PrivateSinks, PublicSinks};
use crate::live::manager;
use crate::live::manager::{preload_symbol_metas, wants_of, StrategySpec};
use crate::live::manager::provision;
use crate::live::manager::provision::{aggregate, StrategyWants};
use crate::live::manager::provisioning::StreamSet;
use crate::scope;
use crate::scope::contains_symbol;
use crate::state::StateModel;
use crate::strategy::{Held, Strategy};
use crate::subscription;
use crate::subscription::SubscriptionKind;
use crate::table;
use crate::table::{Key, Table};

verus! {

/// How many events a channel holds.
pub const SINK_CAPACITY: usize = 256;

/// Which engine comes up.
#[derive(Clone, Copy, Debug, PartialEq, Eq, Structural)]
pub enum EngineKind {
    Channels,
    Actors,
    Funding,
}

/// One thing to do on the way up. Strategies are meant by their place in the list.
#[derive(Debug)]
pub enum EngineStep {
    InitClient(Exchange),
    /// Ask a venue for the rules of its instruments.
    FetchMetas(Exchange),
    /// Open a venue's public and private channels.
    Connect(Exchange),
    /// Ask a venue for a stream.
    Request(Exchange, SubscriptionKind),
    /// Ask a venue for the account's events.
    RequestPrivate(Exchange),
    StartMetrics,
    OpenSignals,
    /// Tick, and before each tick ask what the account is worth.
    StartClock,
    /// Tick, and ask nothing.
    StartTicks,
    StartExecutor(usize),
    /// Send the orders that strategies ask for.
    HandleSignals,
    /// Note the orders that strategies ask for, and send none.
    NoteSignals,
    /// Hand what the venues say to all executors.
    Dispatch,
    Done(Result<(), ExchangeError>),
}

/// The instruments of a venue, each once, in the order in which they first come.
pub open spec fn symbols_in(streams: Seq<((Exchange, SubscriptionKind), ())>, exchange: Exchange) -> Seq<Symbol>
    decreases streams.len(),
{
    if streams.len() == 0 {
        Seq::empty()
    } else {
        let earlier = symbols_in(streams.drop_last(), exchange);
        let (on, kind) = streams.last().0;
        if on != exchange || scope::listed(earlier, subscription::stream_symbol(kind)@) {
            earlier
        } else {
            earlier.push(subscription::stream_symbol(kind))
        }
    }
}

/// Instruments, and after them those of a venue that are named without a stream, each once.
pub open spec fn with_bare_symbols(
    symbols: Seq<Symbol>,
    bare: Seq<(Exchange, Option<Symbol>)>,
    exchange: Exchange,
) -> Seq<Symbol>
    decreases bare.len(),
{
    if bare.len() == 0 {
        symbols
    } else {
        let earlier = with_bare_symbols(symbols, bare.drop_last(), exchange);
        let (on, name) = bare.last();
        match name {
            Some(s) => if on != exchange || scope::listed(earlier, s@) {
                earlier
            } else {
                earlier.push(s)
            },
            None => earlier,
        }
    }
}

/// All instruments of a venue that are named, with a stream or without.
pub open spec fn all_symbols(
    streams: Seq<((Exchange, SubscriptionKind), ())>,
    bare: Seq<(Exchange, Option<Symbol>)>,
    exchange: Exchange,
) -> Seq<Symbol> {
    with_bare_symbols(symbols_in(streams, exchange), bare, exchange)
}

/// Whether a stream is among those that are wanted.
pub open spec fn is_wanted(streams: Seq<((Exchange, SubscriptionKind), ())>, exchange: Exchange, kind: SubscriptionKind) -> bool {
    table::entries_map(streams).dom().contains((exchange, kind@))
}

/// The venues that still need a client.
pub open spec fn initialising(venues: Seq<Exchange>, have: Set<Exchange>) -> Seq<EngineStep>
    decreases venues.len(),
{
    if venues.len() == 0 {
        Seq::empty()
    } else {
        let earlier = initialising(venues.drop_last(), have);
        if have.contains(venues.last()) {
            earlier
        } else {
            earlier.push(EngineStep::InitClient(venues.last()))
        }
    }
}

/// The questions for the rules.
pub open spec fn fetching(venues: Seq<Exchange>) -> Seq<EngineStep> {
    venues.map_values(|e: Exchange| EngineStep::FetchMetas(e))
}

/// The channels to open.
pub open spec fn connecting(venues: Seq<Exchange>) -> Seq<EngineStep> {
    venues.map_values(|e: Exchange| EngineStep::Connect(e))
}

/// The strategies' starts.
pub open spec fn executing(n: nat) -> Seq<EngineStep> {
    Seq::new(n, |i: int| EngineStep::StartExecutor(i as usize))
}

/// The streams to ask for: of each instrument its funding rate and its quotes, as far as they are
/// wanted.
pub open spec fn asking(
    streams: Seq<((Exchange, SubscriptionKind), ())>,
    exchange: Exchange,
    symbols: Seq<Symbol>,
) -> Seq<EngineStep>
    decreases symbols.len(),
{
    if symbols.len() == 0 {
        Seq::empty()
    } else {
        let earlier = asking(streams, exchange, symbols.drop_last());
        let funding = SubscriptionKind::FundingRate { symbol: symbols.last() };
        let quotes = SubscriptionKind::BBO { symbol: symbols.last() };
        let a = if is_wanted(streams, exchange, funding) {
            earlier.push(EngineStep::Request(exchange, funding))
        } else {
            earlier
        };
        if is_wanted(streams, exchange, quotes) {
            a.push(EngineStep::Request(exchange, quotes))
        } else {
            a
        }
    }
}

/// The streams to ask for, venue by venue, and then the account's events.
pub open spec fn asking_all(streams: Seq<((Exchange, SubscriptionKind), ())>, venues: Seq<Exchange>) -> Seq<EngineStep>
    decreases venues.len(),
{
    if venues.len() == 0 {
        Seq::empty()
    } else {
        let e = venues.last();
        (asking_all(streams, venues.drop_last()) + asking(streams, e, symbols_in(streams, e))).push(
            EngineStep::RequestPrivate(e),
        )
    }
}

/// Whether this is the first venue without a client.
pub open spec fn is_first_missing(venues: Seq<Exchange>, have: Set<Exchange>, k: int) -> bool {
    &&& 0 <= k < venues.len()
    &&& !have.contains(venues[k])
    &&& forall|j: int| 0 <= j < k ==> have.contains(#[trigger] venues[j])
}

/// All steps, if every venue can be reached. The engine of actors opens the venues in a fixed order.
/// The funding engine sends no orders, and its clock asks for nothing.
pub open spec fn full_plan(
    kind: EngineKind,
    streams: Seq<((Exchange, SubscriptionKind), ())>,
    bare: Seq<(Exchange, Option<Symbol>)>,
    strategies: nat,
    have: Set<Exchange>,
) -> Seq<EngineStep> {
    let venues = engine::all_venues(streams, bare);
    match kind {
        EngineKind::Channels => initialising(venues, have) + fetching(venues) + connecting(venues) + seq![
            EngineStep::OpenSignals,
            EngineStep::StartClock,
        ] + executing(strategies) + seq![EngineStep::HandleSignals],
        EngineKind::Actors => initialising(venues, have) + fetching(venues) + connecting(
            engine::among(venues.to_set()),
        ) + asking_all(streams, venues) + seq![EngineStep::OpenSignals, EngineStep::HandleSignals] + executing(strategies) + seq![
            EngineStep::StartClock,
            EngineStep::Dispatch,
        ],
        EngineKind::Funding => fetching(venues) + connecting(venues) + seq![
            EngineStep::StartMetrics,
            EngineStep::OpenSignals,
            EngineStep::StartTicks,
        ] + executing(strategies) + seq![EngineStep::NoteSignals],
    }
}

/// Whether the engine has a client for every venue, or makes one.
pub open spec fn reaches_all(kind: EngineKind, venues: Seq<Exchange>, have: Set<Exchange>) -> bool {
    kind !is Funding || forall|k: int| 0 <= k < venues.len() ==> have.contains(#[trigger] venues[k])
}

/// How it is told that there is no client for a venue.
pub open spec fn missing_text(exchange: Exchange) -> Seq<char> {
    "Exchange "@ + domain::exchange_name(exchange) + " executor not registered"@
}

/// Whether this is how an engine sets out: by the full plan, or, where a venue cannot be reached,
/// as far as the rules of the venues before it, and then with an error.
pub open spec fn sets_out(
    run: EngineRun,
    kind: EngineKind,
    streams: Seq<((Exchange, SubscriptionKind), ())>,
    bare: Seq<(Exchange, Option<Symbol>)>,
    strategies: nat,
    have: Set<Exchange>,
) -> bool {
    let venues = engine::all_venues(streams, bare);
    &&& run.inv()
    &&& run.given() == 0
    &&& run.stream_list() == streams
    &&& run.bare_list() == bare
    &&& if reaches_all(kind, venues, have) {
        run.failure() is None && run.steps() == full_plan(kind, streams, bare, strategies, have)
    } else {
        exists|k: int| {
            &&& #[trigger] is_first_missing(venues, have, k)
            &&& run.steps() == fetching(venues.take(k))
            &&& run.failure() matches Some(e)
            &&& e matches ExchangeError::Other(s)
            &&& s@ == missing_text(venues[k])
        }
    }
}

/// An engine on its way up.
pub struct EngineRun {
    streams: StreamSet,
    bare: Vec<(Exchange, Option<Symbol>)>,
    todo: Vec<EngineStep>,
    at: usize,
    failure: Option<ExchangeError>,
}

fn push_all_executors(todo: &mut Vec<EngineStep>, n: usize)
    ensures
        final(todo)@ == old(todo)@ + executing(n as nat),
{
    let ghost was = todo@;
    let mut i: usize = 0;
    assert(todo@ =~= was + executing(0));
    while i < n
        invariant
            i <= n,
            todo@ == was + executing(i as nat),
        decreases n - i,
    {
        todo.push(EngineStep::StartExecutor(i));
        assert(todo@ =~= was + executing((i + 1) as nat));
        i = i + 1;
    }
}

fn push_fetches(todo: &mut Vec<EngineStep>, venues: &Vec<Exchange>, n: usize)
    requires
        n <= venues@.len(),
    ensures
        final(todo)@ == old(todo)@ + fetching(venues@.take(n as int)),
{
    let ghost was = todo@;
    let mut i: usize = 0;
    assert(todo@ =~= was + fetching(venues@.take(0)));
    while i < n
        invariant
            i <= n <= venues@.len(),
            todo@ == was + fetching(venues@.take(i as int)),
        decreases n - i,
    {
        todo.push(EngineStep::FetchMetas(venues[i]));
        assert(todo@ =~= was + fetching(venues@.take(i + 1)));
        i = i + 1;
    }
}

fn push_connects(todo: &mut Vec<EngineStep>, venues: &Vec<Exchange>)
    ensures
        final(todo)@ == old(todo)@ + connecting(venues@),
{
    let ghost was = todo@;
    let mut i: usize = 0;
    assert(todo@ =~= was + connecting(venues@.take(0)));
    while i < venues.len()
        invariant
            i <= venues.len(),
            todo@ == was + connecting(venues@.take(i as int)),
        decreases venues.len() - i,
    {
        todo.push(EngineStep::Connect(venues[i]));
        assert(todo@ =~= was + connecting(venues@.take(i + 1)));
        i = i + 1;
    }
    assert(venues@.take(i as int) =~= venues@);
}

fn push_inits(todo: &mut Vec<EngineStep>, venues: &Vec<Exchange>, have: &Table<Exchange, ()>)
    ensures
        final(todo)@ == old(todo)@ + initialising(venues@, have@.dom()),
{
    let ghost was = todo@;
    let mut i: usize = 0;
    assert(todo@ =~= was + initialising(venues@.take(0), have@.dom()));
    while i < venues.len()
        invariant
            i <= venues.len(),
            todo@ == was + initialising(venues@.take(i as int), have@.dom()),
        decreases venues.len() - i,
    {
        let ghost earlier = initialising(venues@.take(i as int), have@.dom());
        assert(venues@.take(i + 1).drop_last() =~= venues@.take(i as int));
        if !have.contains_key(&venues[i]) {
            todo.push(EngineStep::InitClient(venues[i]));
            assert(todo@ =~= was + earlier.push(EngineStep::InitClient(venues@[i as int])));
        }
        i = i + 1;
    }
    assert(venues@.take(i as int) =~= venues@);
}

/// All instruments of a venue that are named, with a stream or without, each once.
pub fn named_symbols_on(
    streams: &StreamSet,
    bare: &Vec<(Exchange, Option<Symbol>)>,
    exchange: Exchange,
) -> (v: Vec<Symbol>)
    ensures
        v@ == all_symbols(streams.entries(), bare@, exchange),
{
    let mut v = symbols_on(streams, exchange);
    let ghost first = v@;
    let mut i: usize = 0;
    assert(bare@.take(0).len() == 0);
    while i < bare.len()
        invariant
            i <= bare.len(),
            v@ == with_bare_symbols(first, bare@.take(i as int), exchange),
        decreases bare.len() - i,
    {
        assert(bare@.take(i + 1).drop_last() =~= bare@.take(i as int));
        let (on, name) = &bare[i];
        if let Some(s) = name {
            if *on == exchange && !contains_symbol(&v, s) {
                v.push(s.clone());
            }
        }
        i = i + 1;
    }
    assert(bare@.take(i as int) =~= bare@);
    v
}

/// The instruments of a venue, each once, in the order in which they first come.
pub fn symbols_on(streams: &StreamSet, exchange: Exchange) -> (v: Vec<Symbol>)
    ensures
        v@ == symbols_in(streams.entries(), exchange),
{
    let n = streams.len();
    let ghost all = streams.entries();
    let mut v: Vec<Symbol> = Vec::new();
    let mut i: usize = 0;
    assert(v@ =~= symbols_in(all.take(0), exchange));
    while i < n
        invariant
            i <= n,
            n == all.len(),
            all == streams.entries(),
            v@ == symbols_in(all.take(i as int), exchange),
        decreases n - i,
    {
        assert(all.take(i + 1).drop_last() =~= all.take(i as int));
        let (on, kind) = streams.key_at(i);
        if *on == exchange && !contains_symbol(&v, kind.symbol()) {
            v.push(kind.symbol().clone());
        }
        i = i + 1;
    }
    assert(all.take(i as int) =~= all);
    v
}

fn push_requests(todo: &mut Vec<EngineStep>, streams: &StreamSet, exchange: Exchange)
    ensures
        final(todo)@ == (old(todo)@ + asking(streams.entries(), exchange, symbols_in(streams.entries(), exchange))).push(
            EngineStep::RequestPrivate(exchange),
        ),
{
    let ghost was = todo@;
    let ghost all = streams.entries();
    let symbols = symbols_on(streams, exchange);
    let mut i: usize = 0;
    assert(todo@ =~= was + asking(all, exchange, symbols@.take(0)));
    while i < symbols.len()
        invariant
            i <= symbols.len(),
            all == streams.entries(),
            todo@ == was + asking(all, exchange, symbols@.take(i as int)),
        decreases symbols.len() - i,
    {
        assert(symbols@.take(i + 1).drop_last() =~= symbols@.take(i as int));
        let ghost earlier = asking(all, exchange, symbols@.take(i as int));
        let funding = SubscriptionKind::FundingRate { symbol: symbols[i].clone() };
        let quotes = SubscriptionKind::BBO { symbol: symbols[i].clone() };
        let ghost f = EngineStep::Request(exchange, funding);
        let ghost q = EngineStep::Request(exchange, quotes);
        let wants_funding = streams.contains_key(&(exchange, funding.clone()));
        let wants_quotes = streams.contains_key(&(exchange, quotes.clone()));
        let ghost mut so_far = earlier;
        if wants_funding {
            todo.push(EngineStep::Request(exchange, funding));
            proof {
                assert(todo@ =~= was + earlier.push(f));
                so_far = earlier.push(f);
            }
        }
        if wants_quotes {
            todo.push(EngineStep::Request(exchange, quotes));
            assert(todo@ =~= was + so_far.push(q));
        }
        i = i + 1;
    }
    assert(symbols@.take(i as int) =~= symbols@);
    todo.push(EngineStep::RequestPrivate(exchange));
}

fn push_all_requests(todo: &mut Vec<EngineStep>, streams: &StreamSet, venues: &Vec<Exchange>)
    ensures
        final(todo)@ == old(todo)@ + asking_all(streams.entries(), venues@),
{
    let ghost was = todo@;
    let ghost all = streams.entries();
    let mut i: usize = 0;
    assert(todo@ =~= was + asking_all(all, venues@.take(0)));
    while i < venues.len()
        invariant
            i <= venues.len(),
            all == streams.entries(),
            todo@ == was + asking_all(all, venues@.take(i as int)),
        decreases venues.len() - i,
    {
        assert(venues@.take(i + 1).drop_last() =~= venues@.take(i as int));
        let ghost earlier = asking_all(all, venues@.take(i as int));
        push_requests(todo, streams, venues[i]);
        assert(todo@ =~= was + (earlier + asking(all, venues@[i as int], symbols_in(all, venues@[i as int]))).push(
            EngineStep::RequestPrivate(venues@[i as int]),
        ));
        i = i + 1;
    }
    assert(venues@.take(i as int) =~= venues@);
}

impl EngineRun {
    /// The streams that are wanted.
    pub closed spec fn stream_list(&self) -> Seq<((Exchange, SubscriptionKind), ())> {
        self.streams.entries()
    }

    /// What is named without a stream.
    pub closed spec fn bare_list(&self) -> Seq<(Exchange, Option<Symbol>)> {
        self.bare@
    }

    /// The steps.
    pub closed spec fn steps(&self) -> Seq<EngineStep> {
        self.todo@
    }

    /// How many of them have been given out.
    pub closed spec fn given(&self) -> nat {
        self.at as nat
    }

    /// What went wrong, if anything did.
    pub closed spec fn failure(&self) -> Option<ExchangeError> {
        self.failure
    }

    /// No more steps have been given out than there are.
    pub closed spec fn inv(&self) -> bool {
        self.at <= self.todo@.len()
    }

    /// Plans how an engine comes up that wants these streams, names this without one, and has clients
    /// for these venues.
    pub fn new(
        kind: EngineKind,
        streams: StreamSet,
        bare: Vec<(Exchange, Option<Symbol>)>,
        strategies: usize,
        have: &Table<Exchange, ()>,
    ) -> (run: Self)
        ensures
            sets_out(run, kind, streams.entries(), bare@, strategies as nat, have@.dom()),
    {
        let venues = named_venues(&streams, &bare);
        let ghost vs = venues@;
        let ghost set = have@.dom();
        let mut todo: Vec<EngineStep> = Vec::new();
        let funding = match kind {
            EngineKind::Funding => true,
            _ => false,
        };
        if funding {
            let mut i: usize = 0;
            while i < venues.len()
                invariant
                    i <= venues.len(),
                    vs == venues@,
                    set == have@.dom(),
                    vs == engine::all_venues(streams.entries(), bare@),
                    kind is Funding,
                    todo@.len() == 0,
                    forall|j: int| 0 <= j < i ==> set.contains(#[trigger] vs[j]),
                decreases venues.len() - i,
            {
                if !have.contains_key(&venues[i]) {
                    push_fetches(&mut todo, &venues, i);
                    assert(todo@ =~= fetching(vs.take(i as int)));
                    let mut s = "Exchange ".to_owned();
                    s.append(venues[i].name());
                    s.append(" executor not registered");
                    assert(is_first_missing(vs, set, i as int));
                    return EngineRun { streams, bare, todo, at: 0, failure: Some(ExchangeError::Other(s)) };
                }
                i = i + 1;
            }
        } else {
            push_inits(&mut todo, &venues, have);
        }
        push_fetches(&mut todo, &venues, venues.len());
        assert(vs.take(vs.len() as int) =~= vs);
        match kind {
            EngineKind::Channels => {
                push_connects(&mut todo, &venues);
                todo.push(EngineStep::OpenSignals);
                todo.push(EngineStep::StartClock);
                push_all_executors(&mut todo, strategies);
                todo.push(EngineStep::HandleSignals);
            },
            EngineKind::Actors => {
                push_connects(&mut todo, &in_fixed_order(&venues));
                push_all_requests(&mut todo, &streams, &venues);
                todo.push(EngineStep::OpenSignals);
                todo.push(EngineStep::HandleSignals);
                push_all_executors(&mut todo, strategies);
                todo.push(EngineStep::StartClock);
                todo.push(EngineStep::Dispatch);
            },
            EngineKind::Funding => {
                push_connects(&mut todo, &venues);
                todo.push(EngineStep::StartMetrics);
                todo.push(EngineStep::OpenSignals);
                todo.push(EngineStep::StartTicks);
                push_all_executors(&mut todo, strategies);
                todo.push(EngineStep::NoteSignals);
            },
        }
        assert(todo@ =~= full_plan(kind, streams.entries(), bare@, strategies as nat, set));
        EngineRun { streams, bare, todo, at: 0, failure: None }
    }

    /// Gives out the next step; after the last, the end.
    pub fn next(&mut self) -> (step: EngineStep)
        requires
            old(self).inv(),
        ensures
            final(self).inv(),
            final(self).steps() == old(self).steps(),
            final(self).failure() == old(self).failure(),
            final(self).stream_list() == old(self).stream_list(),
            final(self).bare_list() == old(self).bare_list(),
            old(self).given() < old(self).steps().len() ==> {
                let s = old(self).steps()[old(self).given() as int];
                &&& !(s is Done) ==> step == s
                &&& final(self).given() == old(self).given() + 1
            },
            old(self).given() == old(self).steps().len() ==> {
                &&& step == EngineStep::Done(match old(self).failure() {
                    Some(e) => Err(e),
                    None => Ok(()),
                })
                &&& final(self).given() == old(self).given()
            },
    {
        if self.at < self.todo.len() {
            let step = match &self.todo[self.at] {
                EngineStep::InitClient(e) => EngineStep::InitClient(*e),
                EngineStep::FetchMetas(e) => EngineStep::FetchMetas(*e),
                EngineStep::Connect(e) => EngineStep::Connect(*e),
                EngineStep::Request(e, k) => EngineStep::Request(*e, k.clone()),
                EngineStep::RequestPrivate(e) => EngineStep::RequestPrivate(*e),
                EngineStep::StartMetrics => EngineStep::StartMetrics,
                EngineStep::OpenSignals => EngineStep::OpenSignals,
                EngineStep::StartClock => EngineStep::StartClock,
                EngineStep::StartTicks => EngineStep::StartTicks,
                EngineStep::StartExecutor(i) => EngineStep::StartExecutor(*i),
                EngineStep::HandleSignals => EngineStep::HandleSignals,
                EngineStep::NoteSignals => EngineStep::NoteSignals,
                EngineStep::Dispatch => EngineStep::Dispatch,
                EngineStep::Done(_) => EngineStep::Done(Ok(())),
            };
            self.at = self.at + 1;
            step
        } else {
            match &self.failure {
                Some(e) => EngineStep::Done(Err(e.clone())),
                None => EngineStep::Done(Ok(())),
            }
        }
    }

    /// A step has failed: nothing more is done, and the engine does not come up.
    pub fn fail(&mut self, e: ExchangeError)
        requires
            old(self).inv(),
        ensures
            final(self).inv(),
            final(self).given() == final(self).steps().len(),
            final(self).failure() == Some(e),
            final(self).stream_list() == old(self).stream_list(),
            final(self).bare_list() == old(self).bare_list(),
            final(self).steps() == old(self).steps(),
    {
        self.at = self.todo.len();
        self.failure = Some(e);
    }

    /// The instruments of a venue.
    pub fn symbols_on(&self, exchange: Exchange) -> (v: Vec<Symbol>)
        ensures
            v@ == all_symbols(self.stream_list(), self.bare_list(), exchange),
    {
        named_symbols_on(&self.streams, &self.bare, exchange)
    }

    /// The public channels of a venue: of each instrument those that are wanted.
    pub fn public_sinks(&self, exchange: Exchange) -> (sinks: PublicSinks)
        ensures
            sinks.exchange == exchange,
            sinks.bbo@ == quoted_in(self.stream_list(), exchange, symbols_in(self.stream_list(), exchange)),
            sinks.funding_rate@ == rated_in(self.stream_list(), exchange, symbols_in(self.stream_list(), exchange)),
    {
        let ghost all = self.stream_list();
        let symbols = symbols_on(&self.streams, exchange);
        let mut bbo: Vec<Symbol> = Vec::new();
        let mut funding_rate: Vec<Symbol> = Vec::new();
        let mut i: usize = 0;
        while i < symbols.len()
            invariant
                i <= symbols.len(),
                all == self.streams.entries(),
                bbo@ == quoted_in(all, exchange, symbols@.take(i as int)),
                funding_rate@ == rated_in(all, exchange, symbols@.take(i as int)),
            decreases symbols.len() - i,
        {
            assert(symbols@.take(i + 1).drop_last() =~= symbols@.take(i as int));
            let s = &symbols[i];
            let quotes = SubscriptionKind::BBO { symbol: s.clone() };
            let funding = SubscriptionKind::FundingRate { symbol: s.clone() };
            if self.streams.contains_key(&(exchange, quotes)) {
                bbo.push(s.clone());
            }
            if self.streams.contains_key(&(exchange, funding)) {
                funding_rate.push(s.clone());
            }
            i = i + 1;
        }
        assert(symbols@.take(i as int) =~= symbols@);
        PublicSinks { exchange, bbo, funding_rate }
    }

    /// The private channels of a venue: those of all its instruments.
    pub fn private_sinks(&self, exchange: Exchange) -> (sinks: PrivateSinks)
        ensures
            sinks.exchange == exchange,
            sinks.position@ == all_symbols(self.stream_list(), self.bare_list(), exchange),
            sinks.order_update@ == all_symbols(self.stream_list(), self.bare_list(), exchange),
    {
        PrivateSinks { exchange, position: self.symbols_on(exchange), order_update: self.symbols_on(exchange) }
    }
}

/// The instruments of which quotes are wanted.
pub open spec fn quoted_in(
    streams: Seq<((Exchange, SubscriptionKind), ())>,
    exchange: Exchange,
    symbols: Seq<Symbol>,
) -> Seq<Symbol>
    decreases symbols.len(),
{
    if symbols.len() == 0 {
        Seq::empty()
    } else {
        let earlier = quoted_in(streams, exchange, symbols.drop_last());
        if is_wanted(streams, exchange, SubscriptionKind::BBO { symbol: symbols.last() }) {
            earlier.push(symbols.last())
        } else {
            earlier
        }
    }
}

/// The instruments of which funding rates are wanted.
pub open spec fn rated_in(
    streams: Seq<((Exchange, SubscriptionKind), ())>,
    exchange: Exchange,
    symbols: Seq<Symbol>,
) -> Seq<Symbol>
    decreases symbols.len(),
{
    if symbols.len() == 0 {
        Seq::empty()
    } else {
        let earlier = rated_in(streams, exchange, symbols.drop_last());
        if is_wanted(streams, exchange, SubscriptionKind::FundingRate { symbol: symbols.last() }) {
            earlier.push(symbols.last())
        } else {
            earlier
        }
    }
}

/// What strategies name without a stream, one strategy after the other.
pub open spec fn all_bare(wants: Seq<StrategyWants>) -> Seq<(Exchange, Option<Symbol>)>
    decreases wants.len(),
{
    if wants.len() == 0 {
        Seq::empty()
    } else {
        all_bare(wants.drop_last()) + wants.last().bare@
    }
}

/// Whether the streams are those that strategies want, and the rest is what they name without one.
pub open spec fn are_streams_of(
    streams: Seq<((Exchange, SubscriptionKind), ())>,
    bare: Seq<(Exchange, Option<Symbol>)>,
    strategies: Seq<StrategySpec>,
) -> bool {
    exists|wants: Seq<StrategyWants>|
        manager::are_of(wants, strategies) && #[trigger] provision::is_stream_list(streams, wants) && bare == all_bare(
            wants,
        )
}

/// The streams that strategies want, each once, and what they name without one.
pub fn aggregate_public_streams(strategies: &Vec<StrategySpec>) -> (r: (StreamSet, Vec<(Exchange, Option<Symbol>)>))
    ensures
        are_streams_of(r.0.entries(), r.1@, strategies@),
{
    let wants = wants_of(strategies);
    let mut bare: Vec<(Exchange, Option<Symbol>)> = Vec::new();
    let mut i: usize = 0;
    assert(bare@ =~= all_bare(wants@.take(0)));
    while i < wants.len()
        invariant
            i <= wants.len(),
            bare@ == all_bare(wants@.take(i as int)),
        decreases wants.len() - i,
    {
        assert(wants@.take(i + 1).drop_last() =~= wants@.take(i as int));
        let ghost was = bare@;
        let named = &wants[i].bare;
        let mut j: usize = 0;
        assert(bare@ =~= was + named@.take(0));
        while j < named.len()
            invariant
                j <= named.len(),
                bare@ == was + named@.take(j as int),
            decreases named.len() - j,
        {
            bare.push((named[j].0, named[j].1.clone()));
            assert(bare@ =~= was + named@.take(j + 1));
            j = j + 1;
        }
        assert(named@.take(j as int) =~= named@);
        i = i + 1;
    }
    assert(wants@.take(i as int) =~= wants@);
    (aggregate(&wants), bare)
}

/// What an engine keeps from one run to the next.
pub struct Core {
    pub clients: Table<Exchange, ()>,
    pub strategies: Vec<StrategySpec>,
    pub symbol_metas: SymbolMetas,
}

impl Core {
    /// The venues for which there is a client.
    pub open spec fn reached(&self) -> Set<Exchange> {
        self.clients@.dom()
    }

    /// The strategies.
    pub open spec fn list(&self) -> Seq<StrategySpec> {
        self.strategies@
    }

    /// The rules of the known legs.
    pub open spec fn metas(&self) -> Map<(Exchange, Seq<char>), SymbolMeta> {
        self.symbol_metas@
    }

    /// No strategies, no rules, and clients for these venues.
    pub fn new(clients: Table<Exchange, ()>) -> (c: Self)
        ensures
            c.reached() == clients@.dom(),
            c.list().len() == 0,
            c.metas() == Map::<(Exchange, Seq<char>), SymbolMeta>::empty(),
    {
        Core { clients, strategies: Vec::new(), symbol_metas: Table::new() }
    }

    /// Plans how the engine comes up.
    pub fn run(&self, kind: EngineKind) -> (run: EngineRun)
        ensures
            are_streams_of(run.stream_list(), run.bare_list(), self.list()),
            sets_out(run, kind, run.stream_list(), run.bare_list(), self.list().len(), self.reached()),
    {
        let (streams, bare) = aggregate_public_streams(&self.strategies);
        EngineRun::new(kind, streams, bare, self.strategies.len(), &self.clients)
    }

    /// There is a client for a venue.
    pub fn client_ready(&mut self, exchange: Exchange)
        ensures
            final(self).reached() == old(self).reached().insert(exchange),
            final(self).list() == old(self).list(),
            final(self).metas() == old(self).metas(),
    {
        self.clients.insert(exchange, ());
        assert(self.reached() =~= old(self).reached().insert(exchange));
    }

    /// A venue has told the rules of its instruments.
    pub fn metas_fetched(&mut self, exchange: Exchange, metas: &Vec<SymbolMeta>)
        ensures
            final(self).metas() == manager::with_metas(old(self).metas(), exchange, metas@),
            final(self).reached() == old(self).reached(),
            final(self).list() == old(self).list(),
    {
        preload_symbol_metas(&mut self.symbol_metas, exchange, metas);
    }

    /// Whether an order can be sent to its venue.
    pub fn can_send(&self, exchange: Exchange) -> (b: bool)
        ensures
            b == self.reached().contains(exchange),
    {
        self.clients.contains_key(&exchange)
    }

    /// Hands the strategies over; the engine has none left.
    pub fn take_strategies(&mut self) -> (v: Vec<StrategySpec>)
        ensures
            v@ == old(self).list(),
            final(self).list().len() == 0,
            final(self).reached() == old(self).reached(),
            final(self).metas() == old(self).metas(),
    {
        let mut v: Vec<StrategySpec> = Vec::new();
        std::mem::swap(&mut v, &mut self.strategies);
        v
    }
}

/// An engine that talks through channels.
pub struct Engine {
    pub exchanges_config: ExchangesConfig,
    pub core: Core,
}

impl Engine {
    /// An engine without clients.
    pub fn new(exchanges_config: ExchangesConfig) -> (e: Self)
        ensures
            e.exchanges_config == exchanges_config,
            e.core.reached() == Set::<Exchange>::empty(),
            e.core.list().len() == 0,
            e.core.metas() == Map::<(Exchange, Seq<char>), SymbolMeta>::empty(),
    {
        let clients: Table<Exchange, ()> = Table::new();
        assert(clients@.dom() =~= Set::<Exchange>::empty());
        Engine { exchanges_config, core: Core::new(clients) }
    }

    /// One more strategy.
    pub fn add_strategy(&mut self, strategy: Box<dyn Strategy>)
        ensures
            final(self).core.list().len() == old(self).core.list().len() + 1,
            final(self).core.list().drop_last() == old(self).core.list(),
            final(self).core.list().last().account == AccountId::Live,
            forall|kinds: Seq<(Exchange, SubscriptionKind)>, bare: Seq<(Exchange, Option<Symbol>)>| #[trigger]
                final(self).core.list().last().strategy.may_want(kinds, bare) == strategy.may_want(kinds, bare),
            forall|ms: u64| #[trigger]
                final(self).core.list().last().strategy.may_wait(ms) == strategy.may_wait(ms),
            forall|k: nat, event: IncomeEvent, known: StateModel, ds: Seq<OutcomeEvent>| #[trigger]
                final(self).core.list().last().strategy.judgement()(k, event, known, ds) == strategy.may_decide(
                    k,
                    event,
                    known,
                    ds,
                ),
            final(self).core.reached() == old(self).core.reached(),
            final(self).core.metas() == old(self).core.metas(),
            final(self).exchanges_config == old(self).exchanges_config,
    {
        let held = Held { strategy };
        self.core.strategies.push(StrategySpec { strategy: held, account: AccountId::Live });
        assert(self.core.list().drop_last() =~= old(self).core.list());
    }

    /// Plans how the engine comes up.
    pub fn run(&self) -> (run: EngineRun)
        ensures
            are_streams_of(run.stream_list(), run.bare_list(), self.core.list()),
            sets_out(run, EngineKind::Channels, run.stream_list(), run.bare_list(), self.core.list().len(), self.core.reached()),
    {
        self.core.run(EngineKind::Channels)
    }
}

/// An engine whose parts are actors.
pub struct ActorEngine {
    pub exchanges_config: ExchangesConfig,
    pub core: Core,
}

impl ActorEngine {
    /// An engine without clients.
    pub fn new(exchanges_config: ExchangesConfig) -> (e: Self)
        ensures
            e.exchanges_config == exchanges_config,
            e.core.reached() == Set::<Exchange>::empty(),
            e.core.list().len() == 0,
            e.core.metas() == Map::<(Exchange, Seq<char>), SymbolMeta>::empty(),
    {
        let clients: Table<Exchange, ()> = Table::new();
        assert(clients@.dom() =~= Set::<Exchange>::empty());
        ActorEngine { exchanges_config, core: Core::new(clients) }
    }

    /// One more strategy.
    pub fn add_strategy(&mut self, strategy: Box<dyn Strategy>)
        ensures
            final(self).core.list().len() == old(self).core.list().len() + 1,
            final(self).core.list().drop_last() == old(self).core.list(),
            final(self).core.list().last().account == AccountId::Live,
            forall|kinds: Seq<(Exchange, SubscriptionKind)>, bare: Seq<(Exchange, Option<Symbol>)>| #[trigger]
                final(self).core.list().last().strategy.may_want(kinds, bare) == strategy.may_want(kinds, bare),
            forall|ms: u64| #[trigger]
                final(self).core.list().last().strategy.may_wait(ms) == strategy.may_wait(ms),
            forall|k: nat, event: IncomeEvent, known: StateModel, ds: Seq<OutcomeEvent>| #[trigger]
                final(self).core.list().last().strategy.judgement()(k, event, known, ds) == strategy.may_decide(
                    k,
                    event,
                    known,
                    ds,
                ),
            final(self).core.reached() == old(self).core.reached(),
            final(self).core.metas() == old(self).core.metas(),
            final(self).exchanges_config == old(self).exchanges_config,
    {
        let held = Held { strategy };
        self.core.strategies.push(StrategySpec { strategy: held, account: AccountId::Live });
        assert(self.core.list().drop_last() =~= old(self).core.list());
    }

    /// Plans how the engine comes up.
    pub fn run(&self) -> (run: EngineRun)
        ensures
            are_streams_of(run.stream_list(), run.bare_list(), self.core.list()),
            sets_out(run, EngineKind::Actors, run.stream_list(), run.bare_list(), self.core.list().len(), self.core.reached()),
    {
        self.core.run(EngineKind::Actors)
    }
}

/// What two strategies both want is asked for once.
pub proof fn shared_streams_are_asked_for_once(
    streams: Seq<((Exchange, SubscriptionKind), ())>,
    wants: Seq<StrategyWants>,
    i: int,
    j: int,
)
    requires
        provision::is_stream_list(streams, wants),
        0 <= i < j < streams.len(),
    ensures
        streams[i].0.id() != streams[j].0.id(),
{
}

/// Whether a stream or a name given besides is of an instrument on the venue.
pub open spec fn is_named(
    streams: Seq<((Exchange, SubscriptionKind), ())>,
    bare: Seq<(Exchange, Option<Symbol>)>,
    exchange: Exchange,
    symbol: Seq<char>,
) -> bool {
    ||| exists|i: int|
        0 <= i < streams.len() && (#[trigger] streams[i]).0.0 == exchange && subscription::stream_symbol(streams[i].0.1)@
            == symbol
    ||| exists|i: int|
        0 <= i < bare.len() && (#[trigger] bare[i]).0 == exchange && bare[i].1 is Some && bare[i].1->0@ == symbol
}

proof fn lemma_listed_once(list: Seq<Symbol>, new: Symbol)
    requires
        scope::no_repeats(list),
        !scope::listed(list, new@),
    ensures
        scope::no_repeats(list.push(new)),
{
    let now = list.push(new);
    assert forall|i: int, j: int| 0 <= i < j < now.len() implies (#[trigger] now[i])@ != (#[trigger] now[j])@ by {
        if j == list.len() {
            assert(list[i]@ != new@);
        } else {
            assert(list[i]@ != list[j]@);
        }
    }
}

/// The instruments that streams name on a venue are all of theirs, each once.
pub proof fn streamed_instruments_are_told_once(
    streams: Seq<((Exchange, SubscriptionKind), ())>,
    exchange: Exchange,
    symbol: Seq<char>,
)
    ensures
        scope::no_repeats(symbols_in(streams, exchange)),
        scope::listed(symbols_in(streams, exchange), symbol) <==> is_named(streams, Seq::empty(), exchange, symbol),
    decreases streams.len(),
{
    if streams.len() > 0 {
        let rest = streams.drop_last();
        let earlier = symbols_in(rest, exchange);
        let (on, kind) = streams.last().0;
        let new = subscription::stream_symbol(kind);
        streamed_instruments_are_told_once(rest, exchange, symbol);
        assert(streams[streams.len() - 1] == streams.last());
        if !scope::listed(earlier, new@) {
            lemma_listed_once(earlier, new);
        }
        scope::lemma_listed_push(earlier, new);
        if exists|i: int|
            0 <= i < rest.len() && (#[trigger] rest[i]).0.0 == exchange && subscription::stream_symbol(rest[i].0.1)@
                == symbol {
            let i = choose|i: int|
                0 <= i < rest.len() && (#[trigger] rest[i]).0.0 == exchange && subscription::stream_symbol(rest[i].0.1)@
                    == symbol;
            assert(streams[i] == rest[i]);
        }
        if exists|i: int|
            0 <= i < streams.len() && (#[trigger] streams[i]).0.0 == exchange && subscription::stream_symbol(
                streams[i].0.1,
            )@ == symbol {
            let i = choose|i: int|
                0 <= i < streams.len() && (#[trigger] streams[i]).0.0 == exchange && subscription::stream_symbol(
                    streams[i].0.1,
                )@ == symbol;
            if i < rest.len() {
                assert(rest[i] == streams[i]);
            }
        }
        assert(scope::listed(earlier, new@) && new@ == symbol ==> scope::listed(earlier, symbol));
    }
}

/// The instruments of a venue are those that streams name there and those named besides, each once.
pub proof fn named_instruments_are_told_once(
    streams: Seq<((Exchange, SubscriptionKind), ())>,
    bare: Seq<(Exchange, Option<Symbol>)>,
    exchange: Exchange,
    symbol: Seq<char>,
)
    ensures
        scope::no_repeats(all_symbols(streams, bare, exchange)),
        scope::listed(all_symbols(streams, bare, exchange), symbol) <==> is_named(streams, bare, exchange, symbol),
    decreases bare.len(),
{
    streamed_instruments_are_told_once(streams, exchange, symbol);
    if bare.len() > 0 {
        let rest = bare.drop_last();
        let earlier = all_symbols(streams, rest, exchange);
        named_instruments_are_told_once(streams, rest, exchange, symbol);
        assert(bare[bare.len() - 1] == bare.last());
        if let Some(new) = bare.last().1 {
            if !scope::listed(earlier, new@) {
                lemma_listed_once(earlier, new);
            }
            scope::lemma_listed_push(earlier, new);
        }
        if exists|i: int|
            0 <= i < rest.len() && (#[trigger] rest[i]).0 == exchange && rest[i].1 is Some && rest[i].1->0@ == symbol {
            let i = choose|i: int|
                0 <= i < rest.len() && (#[trigger] rest[i]).0 == exchange && rest[i].1 is Some && rest[i].1->0@ == symbol;
            assert(bare[i] == rest[i]);
        }
        if exists|i: int|
            0 <= i < bare.len() && (#[trigger] bare[i]).0 == exchange && bare[i].1 is Some && bare[i].1->0@ == symbol {
            let i = choose|i: int|
                0 <= i < bare.len() && (#[trigger] bare[i]).0 == exchange && bare[i].1 is Some && bare[i].1->0@ == symbol;
            if i < rest.len() {
                assert(rest[i] == bare[i]);
            }
        }
    }
}

/// A client is made for each venue that has none, in its order.
pub proof fn missing_clients_are_made(venues: Seq<Exchange>, have: Set<Exchange>)
    ensures
        initialising(venues, have) == venues.filter(|e: Exchange| !have.contains(e)).map_values(
            |e: Exchange| EngineStep::InitClient(e),
        ),
    decreases venues.len(),
{
    table::lemma_picked(venues, |e: Exchange| !have.contains(e), |e: Exchange| EngineStep::InitClient(e));
    if venues.len() > 0 {
        missing_clients_are_made(venues.drop_last(), have);
    }
}

/// Each venue is asked for its rules and connected, and each strategy gets an executor, in its place.
pub proof fn each_venue_and_strategy_has_its_turn(venues: Seq<Exchange>, n: nat, i: int)
    ensures
        fetching(venues).len() == venues.len(),
        connecting(venues).len() == venues.len(),
        executing(n).len() == n,
        0 <= i < venues.len() ==> fetching(venues)[i] == EngineStep::FetchMetas(venues[i]),
        0 <= i < venues.len() ==> connecting(venues)[i] == EngineStep::Connect(venues[i]),
        0 <= i < n ==> executing(n)[i] == EngineStep::StartExecutor(i as usize),
{
}

/// A venue is asked for the funding rates and the quotes of an instrument exactly where these are wanted,
/// and for nothing else.
pub proof fn a_venue_is_asked_for_what_is_wanted(
    streams: Seq<((Exchange, SubscriptionKind), ())>,
    exchange: Exchange,
    symbols: Seq<Symbol>,
    i: int,
    k: int,
)
    ensures
        0 <= i < symbols.len() && is_wanted(streams, exchange, SubscriptionKind::FundingRate { symbol: symbols[i] })
            ==> asking(streams, exchange, symbols).contains(
            EngineStep::Request(exchange, SubscriptionKind::FundingRate { symbol: symbols[i] }),
        ),
        0 <= i < symbols.len() && is_wanted(streams, exchange, SubscriptionKind::BBO { symbol: symbols[i] }) ==> asking(
            streams,
            exchange,
            symbols,
        ).contains(EngineStep::Request(exchange, SubscriptionKind::BBO { symbol: symbols[i] })),
        0 <= k < asking(streams, exchange, symbols).len() ==> {
            let step = asking(streams, exchange, symbols)[k];
            &&& step is Request
            &&& step->Request_0 == exchange
            &&& is_wanted(streams, exchange, step->Request_1)
            &&& step->Request_1 is FundingRate || step->Request_1 is BBO
        },
        asking(streams, exchange, symbols).len() <= 2 * symbols.len(),
    decreases symbols.len(),
{
    if symbols.len() > 0 {
        let rest = symbols.drop_last();
        let earlier = asking(streams, exchange, rest);
        let all = asking(streams, exchange, symbols);
        a_venue_is_asked_for_what_is_wanted(streams, exchange, rest, i, k);
        assert(all.take(earlier.len() as int) =~= earlier);
        assert forall|step: EngineStep| earlier.contains(step) implies #[trigger] all.contains(step) by {
            let p = choose|p: int| 0 <= p < earlier.len() && earlier[p] == step;
            assert(all[p] == step);
        }
        if i < rest.len() {
            assert(0 <= i ==> rest[i] == symbols[i]);
        }
        if i == rest.len() {
            let funding = SubscriptionKind::FundingRate { symbol: symbols[i] };
            let quotes = SubscriptionKind::BBO { symbol: symbols[i] };
            if is_wanted(streams, exchange, funding) {
                assert(all[earlier.len() as int] == EngineStep::Request(exchange, funding));
            }
            if is_wanted(streams, exchange, quotes) {
                assert(all[all.len() - 1] == EngineStep::Request(exchange, quotes));
            }
        }
        if 0 <= k < earlier.len() {
            assert(all[k] == earlier[k]);
        }
    }
}

/// Every venue is asked for its streams and, after them, for the account's events, venue by venue.
pub proof fn every_venue_is_asked(streams: Seq<((Exchange, SubscriptionKind), ())>, venues: Seq<Exchange>, i: int)
    requires
        0 <= i < venues.len(),
    ensures
        asking_all(streams, venues).contains(EngineStep::RequestPrivate(venues[i])),
        forall|k: int|
            0 <= k < asking(streams, venues[i], symbols_in(streams, venues[i])).len() ==> asking_all(streams, venues).contains(
                #[trigger] asking(streams, venues[i], symbols_in(streams, venues[i]))[k],
            ),
    decreases venues.len(),
{
    let rest = venues.drop_last();
    let earlier = asking_all(streams, rest);
    let all = asking_all(streams, venues);
    let own = asking(streams, venues[i], symbols_in(streams, venues[i]));
    if i < rest.len() {
        assert(rest[i] == venues[i]);
        every_venue_is_asked(streams, rest, i);
        assert forall|step: EngineStep| earlier.contains(step) implies #[trigger] all.contains(step) by {
            let p = choose|p: int| 0 <= p < earlier.len() && earlier[p] == step;
            assert(all[p] == step);
        }
    } else {
        assert(venues[i] == venues.last());
        assert(all[all.len() - 1] == EngineStep::RequestPrivate(venues[i]));
        assert forall|k: int| 0 <= k < own.len() implies all.contains(#[trigger] own[k]) by {
            assert(all[earlier.len() + k] == own[k]);
        }
    }
}

/// The instruments whose quotes, and those whose funding rates, are wanted on a venue are all of those
/// listed, in their order.
pub proof fn wanted_instruments_are_all_told(
    streams: Seq<((Exchange, SubscriptionKind), ())>,
    exchange: Exchange,
    symbols: Seq<Symbol>,
)
    ensures
        quoted_in(streams, exchange, symbols) == symbols.filter(
            |s: Symbol| is_wanted(streams, exchange, SubscriptionKind::BBO { symbol: s }),
        ),
        rated_in(streams, exchange, symbols) == symbols.filter(
            |s: Symbol| is_wanted(streams, exchange, SubscriptionKind::FundingRate { symbol: s }),
        ),
    decreases symbols.len(),
{
    table::lemma_picked_as_is(symbols, |s: Symbol| is_wanted(streams, exchange, SubscriptionKind::BBO { symbol: s }));
    table::lemma_picked_as_is(
        symbols,
        |s: Symbol| is_wanted(streams, exchange, SubscriptionKind::FundingRate { symbol: s }),
    );
    if symbols.len() > 0 {
        wanted_instruments_are_all_told(streams, exchange, symbols.drop_last());
    }
}

/// What every strategy names besides its streams is taken.
pub proof fn every_name_given_besides_is_taken(wants: Seq<StrategyWants>, i: int, j: int)
    requires
        0 <= i < wants.len(),
        0 <= j < wants[i].bare@.len(),
    ensures
        all_bare(wants).contains(wants[i].bare@[j]),
    decreases wants.len(),
{
    let rest = wants.drop_last();
    let earlier = all_bare(rest);
    let all = all_bare(wants);
    if i < rest.len() {
        assert(rest[i] == wants[i]);
        every_name_given_besides_is_taken(rest, i, j);
        let p = choose|p: int| 0 <= p < earlier.len() && earlier[p] == wants[i].bare@[j];
        assert(all[p] == wants[i].bare@[j]);
    } else {
        assert(wants[i] == wants.last());
        assert(all[earlier.len() + j] == wants[i].bare@[j]);
    }
}

/// Where in a start a step belongs, for each kind of engine: what must be there for the next comes first.
pub open spec fn turn(kind: EngineKind, step: EngineStep) -> int {
    match kind {
        EngineKind::Channels => match step {
            EngineStep::InitClient(_) => 0,
            EngineStep::FetchMetas(_) => 1,
            EngineStep::Connect(_) => 2,
            EngineStep::OpenSignals => 3,
            EngineStep::StartClock => 4,
            EngineStep::StartExecutor(_) => 5,
            EngineStep::HandleSignals => 6,
            _ => 7,
        },
        EngineKind::Actors => match step {
            EngineStep::InitClient(_) => 0,
            EngineStep::FetchMetas(_) => 1,
            EngineStep::Connect(_) => 2,
            EngineStep::Request(..) => 3,
            EngineStep::RequestPrivate(_) => 3,
            EngineStep::OpenSignals => 4,
            EngineStep::HandleSignals => 5,
            EngineStep::StartExecutor(_) => 6,
            EngineStep::StartClock => 7,
            EngineStep::Dispatch => 8,
            _ => 9,
        },
        EngineKind::Funding => match step {
            EngineStep::FetchMetas(_) => 0,
            EngineStep::Connect(_) => 1,
            EngineStep::StartMetrics => 2,
            EngineStep::OpenSignals => 3,
            EngineStep::StartTicks => 4,
            EngineStep::StartExecutor(_) => 5,
            EngineStep::NoteSignals => 6,
            _ => 7,
        },
    }
}

proof fn lemma_asking_turn(streams: Seq<((Exchange, SubscriptionKind), ())>, venues: Seq<Exchange>)
    ensures
        forall|k: int|
            0 <= k < asking_all(streams, venues).len() ==> (#[trigger] asking_all(streams, venues)[k] is Request
                || asking_all(streams, venues)[k] is RequestPrivate),
    decreases venues.len(),
{
    if venues.len() > 0 {
        let e = venues.last();
        let own = asking(streams, e, symbols_in(streams, e));
        let earlier = asking_all(streams, venues.drop_last());
        let all = asking_all(streams, venues);
        lemma_asking_turn(streams, venues.drop_last());
        assert forall|k: int| 0 <= k < all.len() implies (#[trigger] all[k] is Request || all[k] is RequestPrivate) by {
            if k < earlier.len() {
                assert(all[k] == earlier[k]);
            } else if k < earlier.len() + own.len() {
                a_venue_is_asked_for_what_is_wanted(streams, e, symbols_in(streams, e), 0, k - earlier.len());
                assert(all[k] == own[k - earlier.len()]);
            }
        }
    }
}

proof fn lemma_init_turn(venues: Seq<Exchange>, have: Set<Exchange>)
    ensures
        forall|k: int| 0 <= k < initialising(venues, have).len() ==> #[trigger] initialising(venues, have)[k] is InitClient,
    decreases venues.len(),
{
    if venues.len() > 0 {
        lemma_init_turn(venues.drop_last(), have);
    }
}

/// Whether the steps are in turn, from one turn to another.
pub open spec fn in_turn(kind: EngineKind, steps: Seq<EngineStep>, from: int, to: int) -> bool {
    &&& forall|i: int| 0 <= i < steps.len() ==> from <= turn(kind, #[trigger] steps[i]) <= to
    &&& forall|i: int, j: int|
        0 <= i <= j < steps.len() ==> turn(kind, #[trigger] steps[i]) <= turn(kind, #[trigger] steps[j])
}

proof fn lemma_in_turn(kind: EngineKind, a: Seq<EngineStep>, b: Seq<EngineStep>, from: int, mid: int, to: int)
    requires
        in_turn(kind, a, from, mid),
        in_turn(kind, b, mid, to),
        from <= mid <= to,
    ensures
        in_turn(kind, a + b, from, to),
{
    let all = a + b;
    let n = a.len() as int;
    assert forall|i: int| 0 <= i < all.len() implies from <= turn(kind, #[trigger] all[i]) <= to by {
        if i < n {
            assert(all[i] == a[i]);
        } else {
            assert(all[i] == b[i - n]);
        }
    }
    assert forall|i: int, j: int| 0 <= i <= j < all.len() implies turn(kind, #[trigger] all[i]) <= turn(
        kind,
        #[trigger] all[j],
    ) by {
        if j < n {
            assert(all[i] == a[i] && all[j] == a[j]);
        } else if i < n {
            assert(all[i] == a[i] && all[j] == b[j - n]);
        } else {
            assert(all[i] == b[i - n] && all[j] == b[j - n]);
        }
    }
}

proof fn lemma_channels_in_turn(venues: Seq<Exchange>, strategies: nat, have: Set<Exchange>)
    ensures
        in_turn(
            EngineKind::Channels,
            initialising(venues, have) + fetching(venues) + connecting(venues) + seq![
                EngineStep::OpenSignals,
                EngineStep::StartClock,
            ] + executing(strategies) + seq![EngineStep::HandleSignals],
            0,
            6,
        ),
{
    let kind = EngineKind::Channels;
    lemma_init_turn(venues, have);
    let open = seq![EngineStep::OpenSignals, EngineStep::StartClock];
    let last = seq![EngineStep::HandleSignals];
    let a = initialising(venues, have);
    lemma_in_turn(kind, a, fetching(venues), 0, 0, 1);
    lemma_in_turn(kind, a + fetching(venues), connecting(venues), 0, 1, 2);
    lemma_in_turn(kind, a + fetching(venues) + connecting(venues), open, 0, 2, 4);
    lemma_in_turn(kind, a + fetching(venues) + connecting(venues) + open, executing(strategies), 0, 4, 5);
    lemma_in_turn(kind, a + fetching(venues) + connecting(venues) + open + executing(strategies), last, 0, 5, 6);
}

proof fn lemma_actors_in_turn(
    streams: Seq<((Exchange, SubscriptionKind), ())>,
    venues: Seq<Exchange>,
    strategies: nat,
    have: Set<Exchange>,
)
    ensures
        in_turn(
            EngineKind::Actors,
            initialising(venues, have) + fetching(venues) + connecting(engine::among(venues.to_set())) + asking_all(
                streams,
                venues,
            ) + seq![EngineStep::OpenSignals, EngineStep::HandleSignals] + executing(strategies) + seq![
                EngineStep::StartClock,
                EngineStep::Dispatch,
            ],
            0,
            8,
        ),
{
    let kind = EngineKind::Actors;
    lemma_init_turn(venues, have);
    lemma_asking_turn(streams, venues);
    let up = connecting(engine::among(venues.to_set()));
    let asks = asking_all(streams, venues);
    let open = seq![EngineStep::OpenSignals, EngineStep::HandleSignals];
    let last = seq![EngineStep::StartClock, EngineStep::Dispatch];
    let a = initialising(venues, have);
    lemma_in_turn(kind, a, fetching(venues), 0, 0, 1);
    lemma_in_turn(kind, a + fetching(venues), up, 0, 1, 2);
    lemma_in_turn(kind, a + fetching(venues) + up, asks, 0, 2, 3);
    lemma_in_turn(kind, a + fetching(venues) + up + asks, open, 0, 3, 5);
    lemma_in_turn(kind, a + fetching(venues) + up + asks + open, executing(strategies), 0, 5, 6);
    lemma_in_turn(kind, a + fetching(venues) + up + asks + open + executing(strategies), last, 0, 6, 8);
}

proof fn lemma_funding_in_turn(venues: Seq<Exchange>, strategies: nat)
    ensures
        in_turn(
            EngineKind::Funding,
            fetching(venues) + connecting(venues) + seq![
                EngineStep::StartMetrics,
                EngineStep::OpenSignals,
                EngineStep::StartTicks,
            ] + executing(strategies) + seq![EngineStep::NoteSignals],
            0,
            6,
        ),
{
    let kind = EngineKind::Funding;
    let open = seq![EngineStep::StartMetrics, EngineStep::OpenSignals, EngineStep::StartTicks];
    let last = seq![EngineStep::NoteSignals];
    lemma_in_turn(kind, fetching(venues), connecting(venues), 0, 0, 1);
    lemma_in_turn(kind, fetching(venues) + connecting(venues), open, 0, 1, 4);
    lemma_in_turn(kind, fetching(venues) + connecting(venues) + open, executing(strategies), 0, 4, 5);
    lemma_in_turn(kind, fetching(venues) + connecting(venues) + open + executing(strategies), last, 0, 5, 6);
}

/// Nothing is started before what it needs: clients before rules, rules before connections, these before
/// what strategies ask of them, and the signals are open before any strategy runs.
pub proof fn nothing_starts_before_what_it_needs(
    kind: EngineKind,
    streams: Seq<((Exchange, SubscriptionKind), ())>,
    bare: Seq<(Exchange, Option<Symbol>)>,
    strategies: nat,
    have: Set<Exchange>,
)
    ensures
        in_turn(kind, full_plan(kind, streams, bare, strategies, have), 0, if kind is Actors { 8 } else { 6 }),
{
    let venues = engine::all_venues(streams, bare);
    match kind {
        EngineKind::Channels => lemma_channels_in_turn(venues, strategies, have),
        EngineKind::Actors => lemma_actors_in_turn(streams, venues, strategies, have),
        EngineKind::Funding => lemma_funding_in_turn(venues, strategies),
    }
}

/// Every start asks each venue for its rules, connects it, and starts each strategy.
pub proof fn every_start_brings_all_up(
    kind: EngineKind,
    streams: Seq<((Exchange, SubscriptionKind), ())>,
    bare: Seq<(Exchange, Option<Symbol>)>,
    strategies: nat,
    have: Set<Exchange>,
    i: int,
    n: int,
)
    requires
        0 <= i < engine::all_venues(streams, bare).len(),
        0 <= n < strategies,
    ensures
        ({
            let steps = full_plan(kind, streams, bare, strategies, have);
            let e = engine::all_venues(streams, bare)[i];
            &&& steps.contains(EngineStep::FetchMetas(e))
            &&& steps.contains(EngineStep::Connect(e))
            &&& steps.contains(EngineStep::StartExecutor(n as usize))
            &&& steps.contains(EngineStep::OpenSignals)
            &&& kind is Actors ==> steps.contains(EngineStep::RequestPrivate(e))
            &&& kind is Actors || kind is Channels ==> steps.contains(EngineStep::HandleSignals) && steps.contains(
                EngineStep::StartClock,
            )
            &&& kind is Funding ==> steps.contains(EngineStep::NoteSignals) && steps.contains(EngineStep::StartTicks)
                && steps.contains(EngineStep::StartMetrics)
            &&& kind is Actors ==> steps.contains(EngineStep::Dispatch)
        }),
{
    let venues = engine::all_venues(streams, bare);
    let e = venues[i];
    let steps = full_plan(kind, streams, bare, strategies, have);
    let a = initialising(venues, have).len() as int;
    let v = venues.len() as int;
    match kind {
        EngineKind::Channels => {
            assert(steps[a + i] == EngineStep::FetchMetas(e));
            assert(steps[a + v + i] == EngineStep::Connect(e));
            assert(steps[a + 2 * v] == EngineStep::OpenSignals);
            assert(steps[a + 2 * v + 1] == EngineStep::StartClock);
            assert(steps[a + 2 * v + 2 + n] == EngineStep::StartExecutor(n as usize));
            assert(steps[a + 2 * v + 2 + strategies] == EngineStep::HandleSignals);
        },
        EngineKind::Actors => {
            let up = engine::among(venues.to_set());
            engine::venues_in_question_are_all_taken(venues.to_set(), e);
            assert(venues.contains(e));
            let p = choose|p: int| 0 <= p < up.len() && up[p] == e;
            let asks = asking_all(streams, venues);
            every_venue_is_asked(streams, venues, i);
            let q = choose|q: int| 0 <= q < asks.len() && asks[q] == EngineStep::RequestPrivate(e);
            let b = a + v + up.len();
            let c = b + asks.len();
            assert(steps[a + i] == EngineStep::FetchMetas(e));
            assert(steps[a + v + p] == EngineStep::Connect(e));
            assert(steps[b + q] == EngineStep::RequestPrivate(e));
            assert(steps[c] == EngineStep::OpenSignals);
            assert(steps[c + 1] == EngineStep::HandleSignals);
            assert(steps[c + 2 + n] == EngineStep::StartExecutor(n as usize));
            assert(steps[c + 2 + strategies] == EngineStep::StartClock);
            assert(steps[c + 3 + strategies] == EngineStep::Dispatch);
        },
        EngineKind::Funding => {
            assert(steps[i] == EngineStep::FetchMetas(e));
            assert(steps[v + i] == EngineStep::Connect(e));
            assert(steps[2 * v] == EngineStep::StartMetrics);
            assert(steps[2 * v + 1] == EngineStep::OpenSignals);
            assert(steps[2 * v + 2] == EngineStep::StartTicks);
            assert(steps[2 * v + 3 + n] == EngineStep::StartExecutor(n as usize));
            assert(steps[2 * v + 3 + strategies] == EngineStep::NoteSignals);
        },
    }
}

/// A run sets out to do all there is to do, unless it must reach venues that it has no client for: then
/// it asks those before the first of them for their rules, and fails with the name of that one.
pub proof fn a_run_sets_out_or_names_what_is_missing(
    run: EngineRun,
    kind: EngineKind,
    streams: Seq<((Exchange, SubscriptionKind), ())>,
    bare: Seq<(Exchange, Option<Symbol>)>,
    strategies: nat,
    have: Set<Exchange>,
    k: int,
)
    requires
        sets_out(run, kind, streams, bare, strategies, have),
    ensures
        ({
            let venues = engine::all_venues(streams, bare);
            &&& run.given() == 0
            &&& run.stream_list() == streams
            &&& run.bare_list() == bare
            &&& !(kind is Funding) ==> run.failure() is None
            &&& run.failure() is None <==> (kind is Funding ==> forall|j: int|
                0 <= j < venues.len() ==> have.contains(#[trigger] venues[j]))
            &&& run.failure() is None ==> run.steps() == full_plan(kind, streams, bare, strategies, have)
            &&& kind is Funding && 0 <= k < venues.len() && !have.contains(venues[k]) && (forall|j: int|
                0 <= j < k ==> have.contains(#[trigger] venues[j])) ==> {
                &&& run.failure() is Some
                &&& crate::text::holds(domain::error_text(run.failure()->0), domain::exchange_name(venues[k]))
                &&& run.steps().len() == k
                &&& forall|j: int| 0 <= j < k ==> run.steps()[j] == EngineStep::FetchMetas(#[trigger] venues[j])
            }
        }),
{
    let venues = engine::all_venues(streams, bare);
    if kind is Funding && 0 <= k < venues.len() && !have.contains(venues[k]) && (forall|j: int|
        0 <= j < k ==> have.contains(#[trigger] venues[j])) {
        let first = choose|n: int| {
            &&& #[trigger] is_first_missing(venues, have, n)
            &&& run.steps() == fetching(venues.take(n))
            &&& run.failure() matches Some(e)
            &&& e matches ExchangeError::Other(s)
            &&& s@ == missing_text(venues[n])
        };
        assert(is_first_missing(venues, have, first));
        assert(first == k);
        let name = domain::exchange_name(venues[k]);
        crate::text::what_is_held_stays_held("Exchange "@, name, " executor not registered"@, name);
    }
}

} // verus!
