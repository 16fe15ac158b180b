//! The engine's top: it brings parts up as they are needed, and goes down with any of them.

use vstd::prelude::*;
use vstd::string::StringExecFns;
use crate::domain;
use crate::domain::{Exchange, ExchangeError, Symbol, SymbolMeta, SymbolMetas};
use crate::live::engine::CoreStep;
use crate::live::income_processor::ActorId;
use crate::live::manager;
use crate::live::manager::preload_symbol_metas;
use crate::live::manager::provisioning::StreamSet;
use crate::strategy::Strategy;
use crate::subscription;
use crate::subscription::SubscriptionKind;
use crate::table::{Key, Table};
use crate::text;
use crate::text::{joined, quote};

verus! {

/// What a part is.
#[derive(Clone, Copy, Debug, PartialEq, Eq, Structural)]
pub enum ChildActorKind {
    Exchange(Exchange),
    Executor(usize),
    SignalProcessor,
    Processor,
    Clock,
    IncomePubSub,
    OutcomePubSub,
}

/// Puts a strategy to work.
pub struct AddStrategy(pub Box<dyn Strategy>);

/// Takes the engine down.
#[derive(Clone, Copy, Debug, PartialEq, Eq, Structural)]
pub struct Stop;

/// What the engine is set up with.
pub struct ManagerActorArgs {
    /// The venues that can be reached.
    pub clients: Table<Exchange, ()>,
    /// Whether the parts talk over buses. The clock then keeps no list of those who hear it.
    pub on_buses: bool,
}

/// One thing to do to put a strategy to work.
#[derive(Debug)]
pub enum AddStep {
    CreateVenue(Exchange),
    SpawnExecutor,
    RegisterProcessor(ActorId),
    RegisterClock(ActorId),
    Subscribe(Exchange, SubscriptionKind),
}

/// The steps to put a strategy to work, and how they end. Where a step is refused, those before it
/// are still taken.
pub struct AddPlan {
    pub steps: Vec<AddStep>,
    pub outcome: Result<(), ExchangeError>,
}

/// The engine's top.
#[verifier::ext_equal]
pub struct ManagerModel {
    pub clients: Set<Exchange>,
    pub on_buses: bool,
    pub metas: Map<(Exchange, Seq<char>), SymbolMeta>,
    /// Whether the engine has come up.
    pub started: bool,
    pub processor: Option<ActorId>,
    pub signal_processor: Option<ActorId>,
    pub clock: Option<ActorId>,
    pub venues: Map<Exchange, ActorId>,
    pub executors: Seq<ActorId>,
    pub kinds: Map<u64, ChildActorKind>,
}

/// The venues in question, in a fixed order.
pub open spec fn among(venues: Set<Exchange>) -> Seq<Exchange> {
    let a = if venues.contains(Exchange::Binance) {
        seq![Exchange::Binance]
    } else {
        Seq::empty()
    };
    let b = if venues.contains(Exchange::OKX) {
        a.push(Exchange::OKX)
    } else {
        a
    };
    let c = if venues.contains(Exchange::Hyperliquid) {
        b.push(Exchange::Hyperliquid)
    } else {
        b
    };
    if venues.contains(Exchange::IBKR) {
        c.push(Exchange::IBKR)
    } else {
        c
    }
}

/// How an engine without buses comes up: the venues tell their rules first, and whoever hears of
/// events is there before those who cause them.
pub open spec fn direct_startup(clients: Set<Exchange>) -> Seq<CoreStep> {
    among(clients).map_values(|e: Exchange| CoreStep::LoadMetas(e)) + seq![
        CoreStep::Start(ChildActorKind::Processor),
        CoreStep::Start(ChildActorKind::SignalProcessor),
        CoreStep::Start(ChildActorKind::Clock),
    ]
}

/// With whom a strategy is registered to hear the clock, if with anyone.
pub open spec fn clock_steps(m: ManagerModel) -> Seq<AddStep> {
    match m.clock {
        Some(c) => if m.on_buses {
            Seq::empty()
        } else {
            seq![AddStep::RegisterClock(c)]
        },
        None => Seq::empty(),
    }
}

/// Whether the rules of a stream's leg are known.
pub open spec fn is_known(metas: Map<(Exchange, Seq<char>), SymbolMeta>, stream: (Exchange, SubscriptionKind)) -> bool {
    metas.dom().contains((stream.0, subscription::stream_symbol(stream.1)@))
}

/// Whether this is the first stream whose leg has no rules.
pub open spec fn is_first_unknown(
    metas: Map<(Exchange, Seq<char>), SymbolMeta>,
    streams: Seq<((Exchange, SubscriptionKind), ())>,
    k: int,
) -> bool {
    &&& 0 <= k < streams.len()
    &&& !is_known(metas, streams[k].0)
    &&& forall|j: int| 0 <= j < k ==> is_known(metas, (#[trigger] streams[j]).0)
}

/// How it is told that an instrument is not known.
pub open spec fn unknown_text(stream: (Exchange, SubscriptionKind)) -> Seq<char> {
    "Symbol "@ + text::quoted(subscription::stream_symbol(stream.1)@) + " not found on "@ + domain::exchange_name(stream.0)
        + ". May be newly listed, please restart."@
}

/// The venues of streams, each once, in the order in which they first come.
pub open spec fn venues_in(streams: Seq<((Exchange, SubscriptionKind), ())>) -> Seq<Exchange>
    decreases streams.len(),
{
    if streams.len() == 0 {
        Seq::empty()
    } else {
        let earlier = venues_in(streams.drop_last());
        if earlier.contains(streams.last().0.0) {
            earlier
        } else {
            earlier.push(streams.last().0.0)
        }
    }
}

/// Venues, and after them those that are named without a stream, each once.
pub open spec fn with_bare(venues: Seq<Exchange>, bare: Seq<(Exchange, Option<Symbol>)>) -> Seq<Exchange>
    decreases bare.len(),
{
    if bare.len() == 0 {
        venues
    } else {
        let earlier = with_bare(venues, bare.drop_last());
        if earlier.contains(bare.last().0) {
            earlier
        } else {
            earlier.push(bare.last().0)
        }
    }
}

/// All venues that are named, with a stream or without.
pub open spec fn all_venues(
    streams: Seq<((Exchange, SubscriptionKind), ())>,
    bare: Seq<(Exchange, Option<Symbol>)>,
) -> Seq<Exchange> {
    with_bare(venues_in(streams), bare)
}

/// The first venue that is neither up nor can be brought up.
pub open spec fn blocked(m: ManagerModel, venues: Seq<Exchange>) -> Option<Exchange>
    decreases venues.len(),
{
    if venues.len() == 0 {
        None
    } else {
        match blocked(m, venues.drop_last()) {
            Some(e) => Some(e),
            None => if m.venues.dom().contains(venues.last()) || m.clients.contains(venues.last()) {
                None
            } else {
                Some(venues.last())
            },
        }
    }
}

/// The venues to bring up, as far as none is in the way.
pub open spec fn creating(m: ManagerModel, venues: Seq<Exchange>) -> Seq<AddStep>
    decreases venues.len(),
{
    if venues.len() == 0 {
        Seq::empty()
    } else {
        let earlier = creating(m, venues.drop_last());
        if blocked(m, venues) is None && !m.venues.dom().contains(venues.last()) {
            earlier.push(AddStep::CreateVenue(venues.last()))
        } else {
            earlier
        }
    }
}

/// The requests for the streams.
pub open spec fn requests(streams: Seq<((Exchange, SubscriptionKind), ())>) -> Seq<AddStep> {
    streams.map_values(|s: ((Exchange, SubscriptionKind), ())| AddStep::Subscribe(s.0.0, s.0.1))
}

/// Whether the result is this failure.
pub open spec fn fails(r: Result<(), ExchangeError>, text: Seq<char>) -> bool {
    r matches Err(e) && (e matches ExchangeError::Other(s) && s@ == text)
}

/// Whether a plan is the one to put a strategy to work that wants these streams and names this
/// without one.
pub open spec fn is_plan(
    m: ManagerModel,
    streams: Seq<((Exchange, SubscriptionKind), ())>,
    bare: Seq<(Exchange, Option<Symbol>)>,
    plan: AddPlan,
) -> bool {
    let venues = all_venues(streams, bare);
    if !m.started {
        plan.steps@.len() == 0 && fails(plan.outcome, "self_ref not set"@)
    } else if m.processor is None {
        plan.steps@.len() == 0 && fails(plan.outcome, "ProcessorActor not initialized"@)
    } else if m.signal_processor is None {
        plan.steps@.len() == 0 && fails(plan.outcome, "SignalProcessorActor not initialized"@)
    } else if exists|k: int| #[trigger] is_first_unknown(m.metas, streams, k) {
        plan.steps@.len() == 0 && exists|k: int|
            #[trigger] is_first_unknown(m.metas, streams, k) && fails(plan.outcome, unknown_text(streams[k].0))
    } else if blocked(m, venues) is Some {
        plan.steps@ == creating(m, venues) && fails(
            plan.outcome,
            domain::exchange_name(blocked(m, venues)->0) + " client not configured"@,
        )
    } else {
        plan.outcome is Ok && plan.steps@ == creating(m, venues) + seq![
            AddStep::SpawnExecutor,
            AddStep::RegisterProcessor(m.processor->0),
        ] + clock_steps(m) + requests(streams)
    }
}

/// The engine once a part has come up.
pub open spec fn with_child(m: ManagerModel, id: ActorId, kind: ChildActorKind) -> ManagerModel {
    let m = ManagerModel { kinds: m.kinds.insert(id, kind), ..m };
    match kind {
        ChildActorKind::Exchange(e) => ManagerModel { venues: m.venues.insert(e, id), ..m },
        ChildActorKind::Executor(_) => ManagerModel { executors: m.executors.push(id), ..m },
        ChildActorKind::SignalProcessor => ManagerModel { signal_processor: Some(id), ..m },
        ChildActorKind::Processor => ManagerModel { processor: Some(id), ..m },
        ChildActorKind::Clock => ManagerModel { clock: Some(id), ..m },
        ChildActorKind::IncomePubSub => m,
        ChildActorKind::OutcomePubSub => m,
    }
}

/// The engine once a part has gone. A strategy keeps its place in the list. On buses only the venues
/// are forgotten.
pub open spec fn without_child(m: ManagerModel, id: ActorId) -> ManagerModel {
    if !m.kinds.dom().contains(id) {
        m
    } else {
        let kind = m.kinds[id];
        let m = ManagerModel { kinds: m.kinds.remove(id), ..m };
        match kind {
            ChildActorKind::Exchange(e) => ManagerModel { venues: m.venues.remove(e), ..m },
            ChildActorKind::Executor(_) => m,
            ChildActorKind::SignalProcessor => if m.on_buses {
                m
            } else {
                ManagerModel { signal_processor: None, ..m }
            },
            ChildActorKind::Processor => if m.on_buses {
                m
            } else {
                ManagerModel { processor: None, ..m }
            },
            ChildActorKind::Clock => if m.on_buses {
                m
            } else {
                ManagerModel { clock: None, ..m }
            },
            ChildActorKind::IncomePubSub => m,
            ChildActorKind::OutcomePubSub => m,
        }
    }
}

/// The engine's top.
pub struct ManagerActor {
    clients: Table<Exchange, ()>,
    on_buses: bool,
    symbol_metas: SymbolMetas,
    started: bool,
    processor: Option<ActorId>,
    signal_processor: Option<ActorId>,
    clock_actor: Option<ActorId>,
    exchange_actors: Table<Exchange, ActorId>,
    executors: Vec<ActorId>,
    actor_kinds: Table<u64, ChildActorKind>,
}

impl View for ManagerActor {
    type V = ManagerModel;

    closed spec fn view(&self) -> ManagerModel {
        ManagerModel {
            clients: self.clients@.dom(),
            on_buses: self.on_buses,
            metas: self.symbol_metas@,
            started: self.started,
            processor: self.processor,
            signal_processor: self.signal_processor,
            clock: self.clock_actor,
            venues: self.exchange_actors@,
            executors: self.executors@,
            kinds: self.actor_kinds@,
        }
    }
}

fn text_error(s: &str) -> (e: ExchangeError)
    ensures
        e matches ExchangeError::Other(t) && t@ == s@,
{
    ExchangeError::Other(s.to_owned())
}

fn contains(list: &Vec<Exchange>, exchange: Exchange) -> (b: bool)
    ensures
        b == list@.contains(exchange),
{
    let mut i: usize = 0;
    while i < list.len()
        invariant
            i <= list.len(),
            forall|j: int| 0 <= j < i ==> #[trigger] list@[j] != exchange,
        decreases list.len() - i,
    {
        if list[i] == exchange {
            return true;
        }
        i = i + 1;
    }
    false
}

/// The venues of streams, each once, in the order in which they first come.
pub fn stream_venues(streams: &StreamSet) -> (v: Vec<Exchange>)
    ensures
        v@ == venues_in(streams.entries()),
{
    let n = streams.len();
    let ghost all = streams.entries();
    let mut v: Vec<Exchange> = Vec::new();
    let mut i: usize = 0;
    assert(v@ =~= venues_in(all.take(0)));
    while i < n
        invariant
            i <= n,
            n == all.len(),
            all == streams.entries(),
            v@ == venues_in(all.take(i as int)),
        decreases n - i,
    {
        assert(all.take(i + 1).drop_last() =~= all.take(i as int));
        let exchange = streams.key_at(i).0;
        if !contains(&v, exchange) {
            v.push(exchange);
        }
        i = i + 1;
    }
    assert(all.take(i as int) =~= all);
    v
}

/// All venues that are named, with a stream or without, each once.
pub fn named_venues(streams: &StreamSet, bare: &Vec<(Exchange, Option<Symbol>)>) -> (v: Vec<Exchange>)
    ensures
        v@ == all_venues(streams.entries(), bare@),
{
    let mut v = stream_venues(streams);
    let ghost first = v@;
    let mut i: usize = 0;
    assert(bare@.take(0).len() == 0);
    while i < bare.len()
        invariant
            i <= bare.len(),
            v@ == with_bare(first, bare@.take(i as int)),
        decreases bare.len() - i,
    {
        assert(bare@.take(i + 1).drop_last() =~= bare@.take(i as int));
        let exchange = bare[i].0;
        if !contains(&v, exchange) {
            v.push(exchange);
        }
        i = i + 1;
    }
    assert(bare@.take(i as int) =~= bare@);
    v
}

/// Whether a venue is named, with a stream or without.
pub fn names_venue(streams: &StreamSet, bare: &Vec<(Exchange, Option<Symbol>)>, exchange: Exchange) -> (b: bool)
    ensures
        b == all_venues(streams.entries(), bare@).contains(exchange),
{
    contains(&named_venues(streams, bare), exchange)
}

/// The same venues in the fixed order.
pub fn in_fixed_order(venues: &Vec<Exchange>) -> (v: Vec<Exchange>)
    ensures
        v@ == among(venues@.to_set()),
{
    let mut v: Vec<Exchange> = Vec::new();
    if contains(venues, Exchange::Binance) {
        v.push(Exchange::Binance);
    }
    if contains(venues, Exchange::OKX) {
        v.push(Exchange::OKX);
    }
    if contains(venues, Exchange::Hyperliquid) {
        v.push(Exchange::Hyperliquid);
    }
    if contains(venues, Exchange::IBKR) {
        v.push(Exchange::IBKR);
    }
    assert(v@ =~= among(venues@.to_set()));
    v
}

impl ManagerActor {
    /// An engine that has not come up.
    pub fn new(args: ManagerActorArgs) -> (m: Self)
        ensures
            m@ == (ManagerModel {
                clients: args.clients@.dom(),
                on_buses: args.on_buses,
                metas: Map::empty(),
                started: false,
                processor: None,
                signal_processor: None,
                clock: None,
                venues: Map::empty(),
                executors: Seq::empty(),
                kinds: Map::empty(),
            }),
    {
        let m = ManagerActor {
            clients: args.clients,
            on_buses: args.on_buses,
            symbol_metas: Table::new(),
            started: false,
            processor: None,
            signal_processor: None,
            clock_actor: None,
            exchange_actors: Table::new(),
            executors: Vec::new(),
            actor_kinds: Table::new(),
        };
        assert(m@.executors =~= Seq::<ActorId>::empty());
        m
    }

    /// The engine is coming up.
    pub fn begin(&mut self)
        ensures
            final(self)@ == (ManagerModel { started: true, ..old(self)@ }),
    {
        self.started = true;
    }

    /// The engine is coming up, without buses: what is to be done, in this order.
    pub fn on_start(&mut self) -> (v: Vec<CoreStep>)
        ensures
            final(self)@ == (ManagerModel { started: true, ..old(self)@ }),
            v@ == direct_startup(old(self)@.clients),
    {
        self.begin();
        let mut v: Vec<CoreStep> = Vec::new();
        if self.clients.contains_key(&Exchange::Binance) {
            v.push(CoreStep::LoadMetas(Exchange::Binance));
        }
        if self.clients.contains_key(&Exchange::OKX) {
            v.push(CoreStep::LoadMetas(Exchange::OKX));
        }
        if self.clients.contains_key(&Exchange::Hyperliquid) {
            v.push(CoreStep::LoadMetas(Exchange::Hyperliquid));
        }
        if self.clients.contains_key(&Exchange::IBKR) {
            v.push(CoreStep::LoadMetas(Exchange::IBKR));
        }
        v.push(CoreStep::Start(ChildActorKind::Processor));
        v.push(CoreStep::Start(ChildActorKind::SignalProcessor));
        v.push(CoreStep::Start(ChildActorKind::Clock));
        assert(v@ =~= direct_startup(old(self)@.clients));
        v
    }

    /// Takes in the rules that a venue told.
    pub fn preload_symbol_metas(&mut self, exchange: Exchange, metas: &Vec<SymbolMeta>)
        ensures
            final(self)@ == (ManagerModel {
                metas: manager::with_metas(old(self)@.metas, exchange, metas@),
                ..old(self)@
            }),
    {
        preload_symbol_metas(&mut self.symbol_metas, exchange, metas);
    }

    /// A part has come up.
    pub fn child_started(&mut self, id: ActorId, kind: ChildActorKind)
        ensures
            final(self)@ == with_child(old(self)@, id, kind),
    {
        self.actor_kinds.insert(id, kind);
        match kind {
            ChildActorKind::Exchange(e) => {
                self.exchange_actors.insert(e, id);
            },
            ChildActorKind::Executor(_) => {
                self.executors.push(id);
            },
            ChildActorKind::SignalProcessor => {
                self.signal_processor = Some(id);
            },
            ChildActorKind::Processor => {
                self.processor = Some(id);
            },
            ChildActorKind::Clock => {
                self.clock_actor = Some(id);
            },
            ChildActorKind::IncomePubSub => {},
            ChildActorKind::OutcomePubSub => {},
        }
    }

    /// A part has gone. The engine goes with any part that it knows, whatever ended it.
    pub fn on_link_died(&mut self, id: ActorId) -> (goes: bool)
        ensures
            goes == old(self)@.kinds.dom().contains(id),
            final(self)@ == without_child(old(self)@, id),
    {
        match self.actor_kinds.remove(&id) {
            None => {
                assert(self@ =~= old(self)@);
                false
            },
            Some(kind) => {
                match kind {
                    ChildActorKind::Exchange(e) => {
                        self.exchange_actors.remove(&e);
                    },
                    ChildActorKind::Executor(_) => {},
                    ChildActorKind::SignalProcessor => {
                        if !self.on_buses {
                            self.signal_processor = None;
                        }
                    },
                    ChildActorKind::Processor => {
                        if !self.on_buses {
                            self.processor = None;
                        }
                    },
                    ChildActorKind::Clock => {
                        if !self.on_buses {
                            self.clock_actor = None;
                        }
                    },
                    ChildActorKind::IncomePubSub => {},
                    ChildActorKind::OutcomePubSub => {},
                }
                true
            },
        }
    }

    /// Whether the rules of all legs are known.
    pub fn check_required_symbols(&self, streams: &StreamSet) -> (res: Result<(), ExchangeError>)
        ensures
            match res {
                Ok(()) => forall|k: int| 0 <= k < streams.entries().len() ==> is_known(self@.metas, (#[trigger] streams.entries()[k]).0),
                Err(_) => exists|k: int| #[trigger] is_first_unknown(self@.metas, streams.entries(), k) && fails(res, unknown_text(streams.entries()[k].0)),
            },
    {
        let n = streams.len();
        let mut i: usize = 0;
        while i < n
            invariant
                i <= n,
                n == streams.entries().len(),
                forall|k: int| 0 <= k < i ==> is_known(self@.metas, (#[trigger] streams.entries()[k]).0),
            decreases n - i,
        {
            let (exchange, kind) = streams.key_at(i);
            if !self.symbol_metas.contains_key(&(*exchange, kind.symbol().clone())) {
                let mut s = joined("Symbol ", quote(kind.symbol().as_str()).as_str());
                s.append(" not found on ");
                s.append(exchange.name());
                s.append(". May be newly listed, please restart.");
                let res: Result<(), ExchangeError> = Err(ExchangeError::Other(s));
                assert(is_first_unknown(self@.metas, streams.entries(), i as int));
                assert(fails(res, unknown_text(streams.entries()[i as int].0)));
                return res;
            }
            i = i + 1;
        }
        Ok(())
    }

    /// Whether a venue must be brought up first, if it can be.
    pub fn ensure_exchange_actor(&self, exchange: Exchange) -> (res: Result<bool, ExchangeError>)
        ensures
            match res {
                Ok(create) => create == !self@.venues.dom().contains(exchange) && (create ==> self@.processor is Some && self@.clients.contains(exchange)),
                Err(e) => !self@.venues.dom().contains(exchange) && (e matches ExchangeError::Other(s) && if self@.processor is None {
                    s@ == "ProcessorActor not initialized"@
                } else {
                    !self@.clients.contains(exchange) && s@ == domain::exchange_name(exchange) + " client not configured"@
                }),
            },
    {
        if self.exchange_actors.contains_key(&exchange) {
            return Ok(false);
        }
        if self.processor.is_none() {
            return Err(text_error("ProcessorActor not initialized"));
        }
        if self.clients.contains_key(&exchange) {
            Ok(true)
        } else {
            let mut s = exchange.name().to_owned();
            s.append(" client not configured");
            Err(ExchangeError::Other(s))
        }
    }

    /// Plans how a strategy is put to work that wants these streams and names this without one.
    pub fn plan_strategy(&self, streams: &StreamSet, bare: &Vec<(Exchange, Option<Symbol>)>) -> (plan: AddPlan)
        ensures
            is_plan(self@, streams.entries(), bare@, plan),
    {
        let mut steps: Vec<AddStep> = Vec::new();
        if !self.started {
            return AddPlan { steps, outcome: Err(text_error("self_ref not set")) };
        }
        let processor = match self.processor {
            None => {
                return AddPlan { steps, outcome: Err(text_error("ProcessorActor not initialized")) };
            },
            Some(p) => p,
        };
        if self.signal_processor.is_none() {
            return AddPlan { steps, outcome: Err(text_error("SignalProcessorActor not initialized")) };
        }
        let checked = self.check_required_symbols(streams);
        if checked.is_err() {
            return AddPlan { steps, outcome: checked };
        }
        let ghost all = streams.entries();
        proof {
            assert forall|k: int| !(#[trigger] is_first_unknown(self@.metas, all, k)) by {
                if is_first_unknown(self@.metas, all, k) {
                    assert(is_known(self@.metas, all[k].0));
                }
            }
        }
        let venues = named_venues(streams, bare);
        let mut i: usize = 0;
        assert(steps@ =~= creating(self@, venues@.take(0)));
        while i < venues.len()
            invariant
                i <= venues.len(),
                self@.processor is Some,
                self@.started,
                self@.signal_processor is Some,
                all == streams.entries(),
                venues@ == all_venues(all, bare@),
                forall|k: int| !(#[trigger] is_first_unknown(self@.metas, all, k)),
                steps@ == creating(self@, venues@.take(i as int)),
                blocked(self@, venues@.take(i as int)) is None,
            decreases venues.len() - i,
        {
            assert(venues@.take(i + 1).drop_last() =~= venues@.take(i as int));
            match self.ensure_exchange_actor(venues[i]) {
                Ok(create) => {
                    if create {
                        steps.push(AddStep::CreateVenue(venues[i]));
                    }
                },
                Err(e) => {
                    proof {
                        lemma_blocked_stays(self@, venues@, i + 1);
                    }
                    return AddPlan { steps, outcome: Err(e) };
                },
            }
            i = i + 1;
        }
        assert(venues@.take(i as int) =~= venues@);
        steps.push(AddStep::SpawnExecutor);
        steps.push(AddStep::RegisterProcessor(processor));
        if let Some(c) = self.clock_actor {
            if !self.on_buses {
                steps.push(AddStep::RegisterClock(c));
            }
        }
        let ghost so_far = creating(self@, venues@) + seq![AddStep::SpawnExecutor, AddStep::RegisterProcessor(processor)] + clock_steps(self@);
        assert(steps@ =~= so_far);
        let n = streams.len();
        i = 0;
        while i < n
            invariant
                i <= n,
                n == all.len(),
                all == streams.entries(),
                steps@.len() == so_far.len() + i,
                forall|j: int| 0 <= j < so_far.len() ==> #[trigger] steps@[j] == so_far[j],
                forall|j: int| so_far.len() <= j < so_far.len() + i ==> #[trigger] steps@[j] == requests(all)[j - so_far.len()],
            decreases n - i,
        {
            let (exchange, kind) = streams.key_at(i);
            steps.push(AddStep::Subscribe(*exchange, kind.clone()));
            i = i + 1;
        }
        assert(steps@ =~= so_far + requests(all));
        AddPlan { steps, outcome: Ok(()) }
    }
}

proof fn lemma_blocked_stays(m: ManagerModel, venues: Seq<Exchange>, n: int)
    requires
        0 <= n <= venues.len(),
        blocked(m, venues.take(n)) is Some,
    ensures
        blocked(m, venues) == blocked(m, venues.take(n)),
        creating(m, venues) == creating(m, venues.take(n)),
    decreases venues.len(),
{
    if n < venues.len() {
        let shorter = venues.drop_last();
        assert(shorter.take(n) =~= venues.take(n));
        lemma_blocked_stays(m, shorter, n);
    } else {
        assert(venues.take(n) =~= venues);
    }
}

proof fn lemma_venue_has_stream(streams: Seq<((Exchange, SubscriptionKind), ())>, exchange: Exchange)
    requires
        venues_in(streams).contains(exchange),
    ensures
        exists|k: int| 0 <= k < streams.len() && (#[trigger] streams[k]).0.0 == exchange,
    decreases streams.len(),
{
    if streams.len() > 0 {
        let rest = streams.drop_last();
        if exchange == streams.last().0.0 {
            assert(streams[streams.len() - 1].0.0 == exchange);
        } else {
            let at = choose|i: int| 0 <= i < venues_in(streams).len() && venues_in(streams)[i] == exchange;
            assert(venues_in(rest)[at] == exchange);
            lemma_venue_has_stream(rest, exchange);
            let k = choose|k: int| 0 <= k < rest.len() && (#[trigger] rest[k]).0.0 == exchange;
            assert(streams[k].0.0 == exchange);
        }
    }
}

proof fn lemma_none_blocked(m: ManagerModel, venues: Seq<Exchange>)
    requires
        forall|i: int| 0 <= i < venues.len() ==> m.clients.contains(#[trigger] venues[i]),
    ensures
        blocked(m, venues) is None,
    decreases venues.len(),
{
    if venues.len() > 0 {
        let rest = venues.drop_last();
        assert forall|i: int| 0 <= i < rest.len() implies m.clients.contains(#[trigger] rest[i]) by {
            assert(venues[i] == rest[i]);
        }
        lemma_none_blocked(m, rest);
        assert(m.clients.contains(venues[venues.len() - 1]));
    }
}

proof fn lemma_bare_venue(venues: Seq<Exchange>, bare: Seq<(Exchange, Option<Symbol>)>, exchange: Exchange)
    requires
        with_bare(venues, bare).contains(exchange),
    ensures
        venues.contains(exchange) || exists|k: int| 0 <= k < bare.len() && (#[trigger] bare[k]).0 == exchange,
    decreases bare.len(),
{
    if bare.len() > 0 {
        let rest = bare.drop_last();
        if exchange == bare.last().0 {
            assert(bare[bare.len() - 1].0 == exchange);
        } else {
            let all = with_bare(venues, bare);
            let at = choose|i: int| 0 <= i < all.len() && all[i] == exchange;
            assert(with_bare(venues, rest)[at] == exchange);
            lemma_bare_venue(venues, rest, exchange);
            if !venues.contains(exchange) {
                let k = choose|k: int| 0 <= k < rest.len() && (#[trigger] rest[k]).0 == exchange;
                assert(bare[k].0 == exchange);
            }
        }
    }
}

/// Where rules come from venues that can be reached alone, a strategy all of whose legs are known
/// needs no other venue, but for those that it names without a stream.
pub proof fn known_legs_can_be_reached(
    m: ManagerModel,
    streams: Seq<((Exchange, SubscriptionKind), ())>,
    bare: Seq<(Exchange, Option<Symbol>)>,
)
    requires
        forall|k: int| 0 <= k < bare.len() ==> m.clients.contains((#[trigger] bare[k]).0),
        forall|k: (Exchange, Seq<char>)| #[trigger] m.metas.dom().contains(k) ==> m.clients.contains(k.0),
        forall|k: int| 0 <= k < streams.len() ==> is_known(m.metas, (#[trigger] streams[k]).0),
    ensures
        blocked(m, all_venues(streams, bare)) is None,
{
    let venues = all_venues(streams, bare);
    assert forall|i: int| 0 <= i < venues.len() implies m.clients.contains(#[trigger] venues[i]) by {
        assert(venues.contains(venues[i]));
        lemma_bare_venue(venues_in(streams), bare, venues[i]);
        if venues_in(streams).contains(venues[i]) {
            lemma_venue_has_stream(streams, venues[i]);
            let k = choose|k: int| 0 <= k < streams.len() && (#[trigger] streams[k]).0.0 == venues[i];
            assert(is_known(m.metas, streams[k].0));
        }
    }
    lemma_none_blocked(m, venues);
}

/// A part that comes up and goes again leaves no trace among the parts that are known, whatever it
/// is.
pub proof fn a_part_that_has_gone_is_unknown(m: ManagerModel, id: ActorId, kind: ChildActorKind)
    ensures
        with_child(m, id, kind).kinds.dom().contains(id),
        !without_child(with_child(m, id, kind), id).kinds.dom().contains(id),
{
}

/// A venue that has gone is brought up again when the next strategy needs it.
pub proof fn a_venue_that_has_gone_is_not_up(m: ManagerModel, id: ActorId, exchange: Exchange)
    ensures
        !without_child(with_child(m, id, ChildActorKind::Exchange(exchange)), id).venues.dom().contains(exchange),
{
}

/// The venues in question are all of them, each once.
pub proof fn venues_in_question_are_all_taken(venues: Set<Exchange>, exchange: Exchange)
    ensures
        among(venues).contains(exchange) <==> venues.contains(exchange),
        among(venues).no_duplicates(),
{
    let list = among(venues);
    let a: Seq<Exchange> = if venues.contains(Exchange::Binance) { seq![Exchange::Binance] } else { Seq::empty() };
    let b = if venues.contains(Exchange::OKX) { a.push(Exchange::OKX) } else { a };
    let c = if venues.contains(Exchange::Hyperliquid) { b.push(Exchange::Hyperliquid) } else { b };
    assert(venues.contains(Exchange::Binance) ==> list[0] is Binance);
    assert(venues.contains(Exchange::OKX) ==> list[a.len() as int] is OKX);
    assert(venues.contains(Exchange::Hyperliquid) ==> list[b.len() as int] is Hyperliquid);
    assert(venues.contains(Exchange::IBKR) ==> list[c.len() as int] is IBKR);
    assert forall|i: int| 0 <= i < list.len() implies venues.contains(#[trigger] list[i]) by {}
}

/// A direct start loads the rules of every venue that can be reached before it starts the parts, and
/// starts the clock last.
pub proof fn a_direct_start_loads_every_venue(clients: Set<Exchange>, exchange: Exchange)
    ensures
        clients.contains(exchange) <==> direct_startup(clients).contains(CoreStep::LoadMetas(exchange)),
        direct_startup(clients).len() == among(clients).len() + 3,
        direct_startup(clients)[among(clients).len() as int] == CoreStep::Start(ChildActorKind::Processor),
        direct_startup(clients)[among(clients).len() as int + 1] == CoreStep::Start(ChildActorKind::SignalProcessor),
        direct_startup(clients).last() == CoreStep::Start(ChildActorKind::Clock),
{
    venues_in_question_are_all_taken(clients, exchange);
    let steps = direct_startup(clients);
    let n = among(clients).len() as int;
    if clients.contains(exchange) {
        let i = choose|i: int| 0 <= i < n && among(clients)[i] == exchange;
        assert(steps[i] == CoreStep::LoadMetas(exchange));
    }
    if steps.contains(CoreStep::LoadMetas(exchange)) {
        let i = choose|i: int| 0 <= i < steps.len() && steps[i] == CoreStep::LoadMetas(exchange);
        assert(i < n);
        assert(among(clients)[i] == exchange);
    }
}

/// The venues that streams name are all of theirs, each once.
pub proof fn every_stream_names_its_venue(streams: Seq<((Exchange, SubscriptionKind), ())>, exchange: Exchange)
    ensures
        venues_in(streams).no_duplicates(),
        venues_in(streams).contains(exchange) <==> exists|i: int|
            0 <= i < streams.len() && (#[trigger] streams[i]).0.0 == exchange,
    decreases streams.len(),
{
    if streams.len() > 0 {
        let rest = streams.drop_last();
        every_stream_names_its_venue(rest, exchange);
        lemma_one_more(venues_in(rest), streams.last().0.0, exchange);
        assert(streams[streams.len() - 1] == streams.last());
        if exists|i: int| 0 <= i < streams.len() && (#[trigger] streams[i]).0.0 == exchange {
            let i = choose|i: int| 0 <= i < streams.len() && (#[trigger] streams[i]).0.0 == exchange;
            if i < rest.len() {
                assert(rest[i].0.0 == exchange);
            }
        }
        if exists|i: int| 0 <= i < rest.len() && (#[trigger] rest[i]).0.0 == exchange {
            let i = choose|i: int| 0 <= i < rest.len() && (#[trigger] rest[i]).0.0 == exchange;
            assert(streams[i].0.0 == exchange);
        }
    }
}

proof fn lemma_one_more(list: Seq<Exchange>, new: Exchange, exchange: Exchange)
    requires
        list.no_duplicates(),
    ensures
        !list.contains(new) ==> list.push(new).no_duplicates(),
        list.push(new).contains(exchange) <==> list.contains(exchange) || exchange == new,
{
    let now = list.push(new);
    assert(now[list.len() as int] == new);
    if list.contains(exchange) {
        let i = choose|i: int| 0 <= i < list.len() && list[i] == exchange;
        assert(now[i] == exchange);
    }
    if now.contains(exchange) && exchange != new {
        let i = choose|i: int| 0 <= i < now.len() && now[i] == exchange;
        assert(list[i] == exchange);
    }
}

/// The venues of a strategy are those that its streams name and those that it names besides, each once.
pub proof fn every_venue_named_is_taken(
    streams: Seq<((Exchange, SubscriptionKind), ())>,
    bare: Seq<(Exchange, Option<Symbol>)>,
    exchange: Exchange,
)
    ensures
        all_venues(streams, bare).no_duplicates(),
        all_venues(streams, bare).contains(exchange) <==> (exists|i: int|
            0 <= i < streams.len() && (#[trigger] streams[i]).0.0 == exchange) || (exists|i: int|
            0 <= i < bare.len() && (#[trigger] bare[i]).0 == exchange),
    decreases bare.len(),
{
    every_stream_names_its_venue(streams, exchange);
    if bare.len() > 0 {
        let rest = bare.drop_last();
        every_venue_named_is_taken(streams, rest, exchange);
        lemma_one_more(all_venues(streams, rest), bare.last().0, exchange);
        assert(bare[bare.len() - 1] == bare.last());
        if exists|i: int| 0 <= i < bare.len() && (#[trigger] bare[i]).0 == exchange {
            let i = choose|i: int| 0 <= i < bare.len() && (#[trigger] bare[i]).0 == exchange;
            if i < rest.len() {
                assert(rest[i].0 == exchange);
            }
        }
        if exists|i: int| 0 <= i < rest.len() && (#[trigger] rest[i]).0 == exchange {
            let i = choose|i: int| 0 <= i < rest.len() && (#[trigger] rest[i]).0 == exchange;
            assert(bare[i].0 == exchange);
        }
    }
}

/// A venue stands in the way exactly when it is neither up nor can be reached; the first such is told.
pub proof fn the_first_venue_out_of_reach_blocks(m: ManagerModel, venues: Seq<Exchange>, i: int)
    ensures
        blocked(m, venues) is None <==> forall|k: int|
            0 <= k < venues.len() ==> m.venues.dom().contains(#[trigger] venues[k]) || m.clients.contains(venues[k]),
        0 <= i < venues.len() && !m.venues.dom().contains(venues[i]) && !m.clients.contains(venues[i]) && (forall|k: int|
            0 <= k < i ==> m.venues.dom().contains(#[trigger] venues[k]) || m.clients.contains(venues[k])) ==> blocked(
            m,
            venues,
        ) == Some(venues[i]),
    decreases venues.len(),
{
    if venues.len() > 0 {
        let rest = venues.drop_last();
        the_first_venue_out_of_reach_blocks(m, rest, i);
        assert(venues[venues.len() - 1] == venues.last());
        assert forall|k: int| 0 <= k < rest.len() implies rest[k] == #[trigger] venues[k] by {}
        if forall|k: int|
            0 <= k < venues.len() ==> m.venues.dom().contains(#[trigger] venues[k]) || m.clients.contains(venues[k]) {
            assert forall|k: int| 0 <= k < rest.len() implies m.venues.dom().contains(#[trigger] rest[k])
                || m.clients.contains(rest[k]) by {
                assert(m.venues.dom().contains(venues[k]) || m.clients.contains(venues[k]));
            }
        }
        if blocked(m, venues) is None {
            assert forall|k: int| 0 <= k < venues.len() implies m.venues.dom().contains(#[trigger] venues[k])
                || m.clients.contains(venues[k]) by {
                if k < rest.len() {
                    assert(m.venues.dom().contains(rest[k]) || m.clients.contains(rest[k]));
                }
            }
        }
        if 0 <= i == rest.len() && !m.venues.dom().contains(venues[i]) && !m.clients.contains(venues[i]) && (forall|k: int|
            0 <= k < i ==> m.venues.dom().contains(#[trigger] venues[k]) || m.clients.contains(venues[k])) {
            assert forall|k: int| 0 <= k < rest.len() implies m.venues.dom().contains(#[trigger] rest[k])
                || m.clients.contains(rest[k]) by {
                assert(m.venues.dom().contains(venues[k]) || m.clients.contains(venues[k]));
            }
        }
    }
}

/// Where nothing stands in the way, every venue that is not up is brought up, in its order, and no other.
pub proof fn every_venue_not_up_is_brought_up(m: ManagerModel, venues: Seq<Exchange>)
    requires
        blocked(m, venues) is None,
    ensures
        creating(m, venues) == venues.filter(|e: Exchange| !m.venues.dom().contains(e)).map_values(
            |e: Exchange| AddStep::CreateVenue(e),
        ),
    decreases venues.len(),
{
    crate::table::lemma_picked(
        venues,
        |e: Exchange| !m.venues.dom().contains(e),
        |e: Exchange| AddStep::CreateVenue(e),
    );
    if venues.len() > 0 {
        every_venue_not_up_is_brought_up(m, venues.drop_last());
    }
}

/// Every stream is asked for on its venue, in its place.
pub proof fn every_stream_is_asked_for(streams: Seq<((Exchange, SubscriptionKind), ())>, i: int)
    requires
        0 <= i < streams.len(),
    ensures
        requests(streams).len() == streams.len(),
        requests(streams)[i] == AddStep::Subscribe(streams[i].0.0, streams[i].0.1),
{
}

/// The clock is told of an executor exactly where there is a clock and no bus carries its ticks.
pub proof fn the_clock_is_told_where_no_bus_is(m: ManagerModel)
    ensures
        m.clock is Some && !m.on_buses ==> clock_steps(m) == seq![AddStep::RegisterClock(m.clock->0)],
        m.clock is None || m.on_buses ==> clock_steps(m).len() == 0,
{
}

/// A strategy is put to work exactly when the engine is up with its parts, every leg that it streams is
/// known, and every venue that it names is up or can be reached.
pub proof fn a_strategy_is_put_to_work_where_it_can(
    m: ManagerModel,
    streams: Seq<((Exchange, SubscriptionKind), ())>,
    bare: Seq<(Exchange, Option<Symbol>)>,
    plan: AddPlan,
)
    requires
        is_plan(m, streams, bare, plan),
    ensures
        plan.outcome is Ok <==> {
            &&& m.started
            &&& m.processor is Some
            &&& m.signal_processor is Some
            &&& forall|k: int|
                0 <= k < streams.len() ==> m.metas.dom().contains(
                    ((#[trigger] streams[k]).0.0, subscription::stream_symbol(streams[k].0.1)@),
                )
            &&& blocked(m, all_venues(streams, bare)) is None
        },
        plan.outcome is Ok ==> plan.steps@.contains(AddStep::SpawnExecutor) && plan.steps@.contains(
            AddStep::RegisterProcessor(m.processor->0),
        ) && (forall|k: int|
            0 <= k < streams.len() ==> plan.steps@.contains(
                AddStep::Subscribe((#[trigger] streams[k]).0.0, streams[k].0.1),
            )),
{
    if forall|k: int| 0 <= k < streams.len() ==> is_known(m.metas, (#[trigger] streams[k]).0) {
        assert(!(exists|k: int| #[trigger] is_first_unknown(m.metas, streams, k)));
    } else {
        let k = choose|k: int| 0 <= k < streams.len() && !is_known(m.metas, (#[trigger] streams[k]).0);
        lemma_first_unknown(m.metas, streams, k);
    }
    assert forall|k: int| 0 <= k < streams.len() implies is_known(m.metas, (#[trigger] streams[k]).0)
        == m.metas.dom().contains((streams[k].0.0, subscription::stream_symbol(streams[k].0.1)@)) by {}
    if plan.outcome is Ok {
        let a = creating(m, all_venues(streams, bare));
        let c = clock_steps(m);
        let steps = plan.steps@;
        assert(steps[a.len() as int] == AddStep::SpawnExecutor);
        assert(steps[a.len() as int + 1] == AddStep::RegisterProcessor(m.processor->0));
        assert forall|k: int| 0 <= k < streams.len() implies steps.contains(
            AddStep::Subscribe((#[trigger] streams[k]).0.0, streams[k].0.1),
        ) by {
            assert(steps[a.len() + 2 + c.len() + k] == AddStep::Subscribe(streams[k].0.0, streams[k].0.1));
        }
    }
}

proof fn lemma_first_unknown(
    metas: Map<(Exchange, Seq<char>), SymbolMeta>,
    streams: Seq<((Exchange, SubscriptionKind), ())>,
    k: int,
)
    requires
        0 <= k < streams.len(),
        !is_known(metas, streams[k].0),
    ensures
        exists|j: int| #[trigger] is_first_unknown(metas, streams, j),
    decreases k,
{
    if exists|j: int| 0 <= j < k && !is_known(metas, (#[trigger] streams[j]).0) {
        let j = choose|j: int| 0 <= j < k && !is_known(metas, (#[trigger] streams[j]).0);
        lemma_first_unknown(metas, streams, j);
    } else {
        assert(is_first_unknown(metas, streams, k));
    }
}

/// A part that comes up is known as what it is: a venue as that venue, an executor last in the list, and
/// each other part in its own place.
pub proof fn a_part_is_known_as_what_it_is(m: ManagerModel, id: ActorId, kind: ChildActorKind)
    ensures
        ({
            let after = with_child(m, id, kind);
            &&& after.kinds.dom().contains(id)
            &&& after.kinds[id] == kind
            &&& kind matches ChildActorKind::Exchange(e) ==> after.venues.dom().contains(e) && after.venues[e] == id
            &&& !(kind is Exchange) ==> after.venues == m.venues
            &&& kind is Executor ==> after.executors == m.executors.push(id)
            &&& !(kind is Executor) ==> after.executors == m.executors
            &&& after.processor == if kind is Processor { Some(id) } else { m.processor }
            &&& after.signal_processor == if kind is SignalProcessor { Some(id) } else { m.signal_processor }
            &&& after.clock == if kind is Clock { Some(id) } else { m.clock }
            &&& after.metas == m.metas
            &&& after.clients == m.clients
            &&& after.started == m.started
            &&& after.on_buses == m.on_buses
            &&& forall|other: ActorId| other != id ==> after.kinds.dom().contains(other) == m.kinds.dom().contains(other)
                && #[trigger] after.kinds[other] == m.kinds[other]
        }),
{
}

/// A part that goes leaves its place, unless a bus stands between it and the others; one that was never
/// known changes nothing.
pub proof fn a_part_that_goes_leaves_its_place(m: ManagerModel, id: ActorId)
    ensures
        ({
            let after = without_child(m, id);
            let kind = m.kinds[id];
            &&& !m.kinds.dom().contains(id) ==> after == m
            &&& m.kinds.dom().contains(id) ==> {
                &&& !after.kinds.dom().contains(id)
                &&& kind matches ChildActorKind::Exchange(e) ==> after.venues == m.venues.remove(e)
                &&& !(kind is Exchange) ==> after.venues == m.venues
                &&& after.processor == if kind is Processor && !m.on_buses { None } else { m.processor }
                &&& after.signal_processor == if kind is SignalProcessor && !m.on_buses { None } else { m.signal_processor }
                &&& after.clock == if kind is Clock && !m.on_buses { None } else { m.clock }
            }
            &&& forall|other: ActorId| other != id ==> after.kinds.dom().contains(other) == m.kinds.dom().contains(other)
                && #[trigger] after.kinds[other] == m.kinds[other]
            &&& after.metas == m.metas
            &&& after.clients == m.clients
            &&& after.executors == m.executors
        }),
{
}

} // verus!
