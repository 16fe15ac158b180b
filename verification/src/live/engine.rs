//! How an engine with two buses comes up: everything but the venues at once, the venues when a
//! strategy needs them.

use vstd::prelude::*;
use crate::actor::engine;
use crate::actor::engine::{ChildActorKind, ManagerActor, ManagerModel};
use crate::domain::{Exchange, SymbolMeta};
use crate::live::income_processor::ActorId;
use crate::live::manager;
use crate::table::{Key, Table};

verus! {

/// For which venues there are credentials.
#[derive(Clone, Copy, Debug, PartialEq, Eq, Structural)]
pub struct ManagerActorArgs {
    pub binance_credentials: bool,
    pub okx_credentials: bool,
    pub hyperliquid_credentials: bool,
}

/// The parts that an engine starts with.
#[derive(Clone, Copy, Debug, PartialEq, Eq, Structural)]
pub struct CoreParts {
    pub income_pubsub: ActorId,
    pub outcome_pubsub: ActorId,
    pub processor: ActorId,
    pub signal_processor: ActorId,
    pub clock: ActorId,
}

/// One thing to do on the way up.
#[derive(Clone, Copy, Debug, PartialEq, Eq, Structural)]
pub enum CoreStep {
    /// Ask a venue for the rules of its instruments.
    LoadMetas(Exchange),
    Start(ChildActorKind),
    /// Let a part listen to a bus.
    Subscribe(ChildActorKind, ChildActorKind),
    /// Have the engine told when a part goes.
    Link(ChildActorKind),
}

/// The venues for which there are credentials.
pub open spec fn configured(args: ManagerActorArgs) -> Set<Exchange> {
    Set::new(
        |e: Exchange|
            match e {
                Exchange::Binance => args.binance_credentials,
                Exchange::OKX => args.okx_credentials,
                Exchange::Hyperliquid => args.hyperliquid_credentials,
                Exchange::IBKR => false,
            },
    )
}

/// The venues for which there are credentials, in a fixed order.
pub open spec fn configured_list(args: ManagerActorArgs) -> Seq<Exchange> {
    let a = if args.binance_credentials {
        seq![Exchange::Binance]
    } else {
        Seq::empty()
    };
    let b = if args.okx_credentials {
        a.push(Exchange::OKX)
    } else {
        a
    };
    if args.hyperliquid_credentials {
        b.push(Exchange::Hyperliquid)
    } else {
        b
    }
}

/// The venues for which there are credentials.
pub fn modules(args: &ManagerActorArgs) -> (v: Vec<Exchange>)
    ensures
        v@ == configured_list(*args),
{
    let mut v: Vec<Exchange> = Vec::new();
    if args.binance_credentials {
        v.push(Exchange::Binance);
    }
    if args.okx_credentials {
        v.push(Exchange::OKX);
    }
    if args.hyperliquid_credentials {
        v.push(Exchange::Hyperliquid);
    }
    assert(v@ =~= configured_list(*args));
    v
}

/// What comes up after the rules are known.
pub open spec fn core_steps() -> Seq<CoreStep> {
    seq![
        CoreStep::Start(ChildActorKind::IncomePubSub),
        CoreStep::Start(ChildActorKind::OutcomePubSub),
        CoreStep::Start(ChildActorKind::Processor),
        CoreStep::Subscribe(ChildActorKind::Processor, ChildActorKind::IncomePubSub),
        CoreStep::Start(ChildActorKind::SignalProcessor),
        CoreStep::Subscribe(ChildActorKind::SignalProcessor, ChildActorKind::OutcomePubSub),
        CoreStep::Start(ChildActorKind::Clock),
        CoreStep::Link(ChildActorKind::IncomePubSub),
        CoreStep::Link(ChildActorKind::OutcomePubSub),
        CoreStep::Link(ChildActorKind::Processor),
        CoreStep::Link(ChildActorKind::SignalProcessor),
        CoreStep::Link(ChildActorKind::Clock),
    ]
}

/// All steps on the way up.
pub open spec fn startup_plan(args: ManagerActorArgs) -> Seq<CoreStep> {
    configured_list(args).map_values(|e: Exchange| CoreStep::LoadMetas(e)) + core_steps()
}

/// The steps on the way up.
pub fn startup(args: &ManagerActorArgs) -> (v: Vec<CoreStep>)
    ensures
        v@ == startup_plan(*args),
{
    let venues = modules(args);
    let mut v: Vec<CoreStep> = Vec::new();
    let mut i: usize = 0;
    while i < venues.len()
        invariant
            i <= venues.len(),
            venues@ == configured_list(*args),
            v@.len() == i,
            forall|j: int| 0 <= j < i ==> #[trigger] v@[j] == CoreStep::LoadMetas(venues@[j]),
        decreases venues.len() - i,
    {
        v.push(CoreStep::LoadMetas(venues[i]));
        i = i + 1;
    }
    v.push(CoreStep::Start(ChildActorKind::IncomePubSub));
    v.push(CoreStep::Start(ChildActorKind::OutcomePubSub));
    v.push(CoreStep::Start(ChildActorKind::Processor));
    v.push(CoreStep::Subscribe(ChildActorKind::Processor, ChildActorKind::IncomePubSub));
    v.push(CoreStep::Start(ChildActorKind::SignalProcessor));
    v.push(CoreStep::Subscribe(ChildActorKind::SignalProcessor, ChildActorKind::OutcomePubSub));
    v.push(CoreStep::Start(ChildActorKind::Clock));
    v.push(CoreStep::Link(ChildActorKind::IncomePubSub));
    v.push(CoreStep::Link(ChildActorKind::OutcomePubSub));
    v.push(CoreStep::Link(ChildActorKind::Processor));
    v.push(CoreStep::Link(ChildActorKind::SignalProcessor));
    v.push(CoreStep::Link(ChildActorKind::Clock));
    assert(v@ =~= startup_plan(*args));
    v
}

/// The parts that the engine knows from the start.
pub open spec fn with_core(m: ManagerModel, parts: CoreParts) -> ManagerModel {
    let a = engine::with_child(m, parts.income_pubsub, ChildActorKind::IncomePubSub);
    let b = engine::with_child(a, parts.outcome_pubsub, ChildActorKind::OutcomePubSub);
    let c = engine::with_child(b, parts.processor, ChildActorKind::Processor);
    let d = engine::with_child(c, parts.signal_processor, ChildActorKind::SignalProcessor);
    engine::with_child(d, parts.clock, ChildActorKind::Clock)
}

/// The rules that venues told, one venue after the other.
pub open spec fn all_metas(told: Seq<(Exchange, Vec<SymbolMeta>)>) -> Map<(Exchange, Seq<char>), SymbolMeta>
    decreases told.len(),
{
    if told.len() == 0 {
        Map::empty()
    } else {
        manager::with_metas(all_metas(told.drop_last()), told.last().0, told.last().1@)
    }
}

/// The engine once its parts are up and the venues have told their rules.
pub fn start_manager(args: &ManagerActorArgs, told: &Vec<(Exchange, Vec<SymbolMeta>)>, parts: &CoreParts) -> (m: ManagerActor)
    ensures
        m@ == with_core(
            ManagerModel {
                clients: configured(*args),
                on_buses: true,
                metas: all_metas(told@),
                started: true,
                processor: None,
                signal_processor: None,
                clock: None,
                venues: Map::empty(),
                executors: Seq::empty(),
                kinds: Map::empty(),
            },
            *parts,
        ),
{
    let mut clients: Table<Exchange, ()> = Table::new();
    if args.binance_credentials {
        clients.insert(Exchange::Binance, ());
    }
    if args.okx_credentials {
        clients.insert(Exchange::OKX, ());
    }
    if args.hyperliquid_credentials {
        clients.insert(Exchange::Hyperliquid, ());
    }
    assert(clients@.dom() =~= configured(*args));
    let mut m = ManagerActor::new(engine::ManagerActorArgs { clients, on_buses: true });
    m.begin();
    let ghost start = m@;
    let mut i: usize = 0;
    assert(told@.take(0) =~= Seq::<(Exchange, Vec<SymbolMeta>)>::empty());
    while i < told.len()
        invariant
            i <= told.len(),
            m@ == (ManagerModel { metas: all_metas(told@.take(i as int)), ..start }),
        decreases told.len() - i,
    {
        assert(told@.take(i + 1).drop_last() =~= told@.take(i as int));
        m.preload_symbol_metas(told[i].0, &told[i].1);
        i = i + 1;
    }
    assert(told@.take(i as int) =~= told@);
    m.child_started(parts.income_pubsub, ChildActorKind::IncomePubSub);
    m.child_started(parts.outcome_pubsub, ChildActorKind::OutcomePubSub);
    m.child_started(parts.processor, ChildActorKind::Processor);
    m.child_started(parts.signal_processor, ChildActorKind::SignalProcessor);
    m.child_started(parts.clock, ChildActorKind::Clock);
    m
}

/// Over the bus the clock reaches every strategy: none is registered with it.
pub proof fn the_bus_carries_the_clock(m: ManagerModel, parts: CoreParts)
    requires
        m.on_buses,
    ensures
        engine::clock_steps(with_core(m, parts)).len() == 0,
{
}

/// From the start the engine goes with any of its parts.
pub proof fn every_core_part_is_known(m: ManagerModel, parts: CoreParts)
    ensures
        with_core(m, parts).kinds.dom().contains(parts.income_pubsub),
        with_core(m, parts).kinds.dom().contains(parts.outcome_pubsub),
        with_core(m, parts).kinds.dom().contains(parts.processor),
        with_core(m, parts).kinds.dom().contains(parts.signal_processor),
        with_core(m, parts).kinds.dom().contains(parts.clock),
{
}

/// A venue is configured exactly when there are credentials for it.
pub proof fn a_venue_is_configured_by_its_credentials(args: ManagerActorArgs)
    ensures
        configured(args).contains(Exchange::Binance) == args.binance_credentials,
        configured(args).contains(Exchange::OKX) == args.okx_credentials,
        configured(args).contains(Exchange::Hyperliquid) == args.hyperliquid_credentials,
        !configured(args).contains(Exchange::IBKR),
{
}

/// The configured venues are listed, each once.
pub proof fn configured_venues_are_listed_once(args: ManagerActorArgs, exchange: Exchange)
    ensures
        configured_list(args).contains(exchange) <==> configured(args).contains(exchange),
        configured_list(args).no_duplicates(),
{
    let list = configured_list(args);
    let a: Seq<Exchange> = if args.binance_credentials { seq![Exchange::Binance] } else { Seq::empty() };
    let b = if args.okx_credentials { a.push(Exchange::OKX) } else { a };
    assert(args.binance_credentials ==> list[0] is Binance);
    assert(args.okx_credentials ==> list[a.len() as int] is OKX);
    assert(args.hyperliquid_credentials ==> list[b.len() as int] is Hyperliquid);
    assert forall|i: int| 0 <= i < list.len() implies configured(args).contains(#[trigger] list[i]) by {}
}

/// A start loads the rules of each configured venue before any part comes up.
pub proof fn rules_are_loaded_before_anything_starts(args: ManagerActorArgs, i: int)
    requires
        0 <= i < startup_plan(args).len(),
    ensures
        i < configured_list(args).len() ==> startup_plan(args)[i] == CoreStep::LoadMetas(configured_list(args)[i]),
        i >= configured_list(args).len() ==> !(startup_plan(args)[i] is LoadMetas),
{
}

/// A part hears a bus once both are up: the processor the one that brings events in, the signal processor
/// the one that takes decisions out. Every part that is up is linked.
pub proof fn parts_hear_their_bus(kind: ChildActorKind)
    requires
        kind is IncomePubSub || kind is OutcomePubSub || kind is Processor || kind is SignalProcessor || kind is Clock,
    ensures
        exists|i: int, j: int|
            0 <= i < j < core_steps().len() && #[trigger] core_steps()[i] == CoreStep::Start(kind)
                && #[trigger] core_steps()[j] == CoreStep::Link(kind),
        kind is Processor ==> exists|i: int, j: int, k: int|
            0 <= i < k && 0 <= j < k && k < core_steps().len() && #[trigger] core_steps()[i] == CoreStep::Start(kind)
                && #[trigger] core_steps()[j] == CoreStep::Start(ChildActorKind::IncomePubSub)
                && #[trigger] core_steps()[k] == CoreStep::Subscribe(kind, ChildActorKind::IncomePubSub),
        kind is SignalProcessor ==> exists|i: int, j: int, k: int|
            0 <= i < k && 0 <= j < k && k < core_steps().len() && #[trigger] core_steps()[i] == CoreStep::Start(kind)
                && #[trigger] core_steps()[j] == CoreStep::Start(ChildActorKind::OutcomePubSub)
                && #[trigger] core_steps()[k] == CoreStep::Subscribe(kind, ChildActorKind::OutcomePubSub),
{
    let s = core_steps();
    assert(s[0] == CoreStep::Start(ChildActorKind::IncomePubSub));
    assert(s[1] == CoreStep::Start(ChildActorKind::OutcomePubSub));
    assert(s[2] == CoreStep::Start(ChildActorKind::Processor));
    assert(s[3] == CoreStep::Subscribe(ChildActorKind::Processor, ChildActorKind::IncomePubSub));
    assert(s[4] == CoreStep::Start(ChildActorKind::SignalProcessor));
    assert(s[5] == CoreStep::Subscribe(ChildActorKind::SignalProcessor, ChildActorKind::OutcomePubSub));
    assert(s[6] == CoreStep::Start(ChildActorKind::Clock));
    assert(s[7] == CoreStep::Link(ChildActorKind::IncomePubSub));
    assert(s[8] == CoreStep::Link(ChildActorKind::OutcomePubSub));
    assert(s[9] == CoreStep::Link(ChildActorKind::Processor));
    assert(s[10] == CoreStep::Link(ChildActorKind::SignalProcessor));
    assert(s[11] == CoreStep::Link(ChildActorKind::Clock));
}

/// The core's parts are in their places once it is up; nothing else of the engine moves.
pub proof fn core_parts_take_their_places(m: ManagerModel, parts: CoreParts)
    ensures
        with_core(m, parts).processor == Some(parts.processor),
        with_core(m, parts).signal_processor == Some(parts.signal_processor),
        with_core(m, parts).clock == Some(parts.clock),
        with_core(m, parts).venues == m.venues,
        with_core(m, parts).executors == m.executors,
        with_core(m, parts).metas == m.metas,
        with_core(m, parts).clients == m.clients,
        with_core(m, parts).started == m.started,
{
}

/// The rules known are those told by the venues: an instrument that no venue told of is not known, and
/// what the last venue told stands.
pub proof fn rules_are_those_told(told: Seq<(Exchange, Vec<SymbolMeta>)>, leg: (Exchange, Seq<char>))
    ensures
        all_metas(told).dom().contains(leg) <==> exists|i: int, j: int|
            0 <= i < told.len() && told[i].0 == leg.0 && 0 <= j < told[i].1@.len() && (#[trigger] told[i].1@[j]).symbol@
                == leg.1,
    decreases told.len(),
{
    if told.len() > 0 {
        let rest = told.drop_last();
        let (on, metas) = told.last();
        rules_are_those_told(rest, leg);
        assert(told[told.len() - 1] == told.last());
        lemma_told(all_metas(rest), on, metas@, leg);
        if exists|i: int, j: int|
            0 <= i < rest.len() && rest[i].0 == leg.0 && 0 <= j < rest[i].1@.len() && (#[trigger] rest[i].1@[j]).symbol@
                == leg.1 {
            let (i, j) = choose|i: int, j: int|
                0 <= i < rest.len() && rest[i].0 == leg.0 && 0 <= j < rest[i].1@.len() && (
                #[trigger] rest[i].1@[j]).symbol@ == leg.1;
            assert(told[i].1@[j].symbol@ == leg.1);
        }
        if exists|j: int| on == leg.0 && 0 <= j < metas@.len() && (#[trigger] metas@[j]).symbol@ == leg.1 {
            let j = choose|j: int| on == leg.0 && 0 <= j < metas@.len() && (#[trigger] metas@[j]).symbol@ == leg.1;
            assert(told[told.len() - 1].1@[j].symbol@ == leg.1);
        }
        if exists|i: int, j: int|
            0 <= i < told.len() && told[i].0 == leg.0 && 0 <= j < told[i].1@.len() && (#[trigger] told[i].1@[j]).symbol@
                == leg.1 {
            let (i, j) = choose|i: int, j: int|
                0 <= i < told.len() && told[i].0 == leg.0 && 0 <= j < told[i].1@.len() && (
                #[trigger] told[i].1@[j]).symbol@ == leg.1;
            if i < rest.len() {
                assert(rest[i].1@[j].symbol@ == leg.1);
            } else {
                assert(metas@[j].symbol@ == leg.1);
            }
        }
    }
}

proof fn lemma_told(
    m: Map<(Exchange, Seq<char>), SymbolMeta>,
    exchange: Exchange,
    metas: Seq<SymbolMeta>,
    leg: (Exchange, Seq<char>),
)
    ensures
        manager::with_metas(m, exchange, metas).dom().contains(leg) <==> m.dom().contains(leg) || exists|j: int|
            exchange == leg.0 && 0 <= j < metas.len() && (#[trigger] metas[j]).symbol@ == leg.1,
    decreases metas.len(),
{
    if metas.len() > 0 {
        let rest = metas.drop_last();
        lemma_told(m, exchange, rest, leg);
        assert(metas[metas.len() - 1] == metas.last());
        if exists|j: int| exchange == leg.0 && 0 <= j < rest.len() && (#[trigger] rest[j]).symbol@ == leg.1 {
            let j = choose|j: int| exchange == leg.0 && 0 <= j < rest.len() && (#[trigger] rest[j]).symbol@ == leg.1;
            assert(metas[j] == rest[j]);
        }
        if exists|j: int| exchange == leg.0 && 0 <= j < metas.len() && (#[trigger] metas[j]).symbol@ == leg.1 {
            let j = choose|j: int| exchange == leg.0 && 0 <= j < metas.len() && (#[trigger] metas[j]).symbol@ == leg.1;
            if j < rest.len() {
                assert(rest[j] == metas[j]);
            }
        }
    }
}

} // verus!
