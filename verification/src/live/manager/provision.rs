//! Puts strategies to work, step by step.
//!
//! A strategy knows what is held before it sees the first event, and so does everything that
//! mirrors its positions. Either all strategies of a batch end up at work, or none does.

use vstd::prelude::*;
use vstd::string::StringExecFns;
use crate::domain;
use crate::domain::{AccountId, Exchange, ExchangeError, Position, PositionBaseline, Symbol};
use crate::domain::{SymbolMeta, SymbolMetas, Timestamp};
use crate::live::income_processor::ActorId;
use crate::live::manager::provisioning;
use crate::live::manager::provisioning::{executor_baselines, validate_subscriptions, StreamSet};
use crate::live::manager::removal::RegisteredExecutor;
use crate::scope;
use crate::scope::{symbols_of, SubscriptionScope};
use crate::subscription;
use crate::subscription::{legs, Capabilities, SubscriptionKind};
use crate::table;
use crate::table::{Key, Table};
use crate::text::joined;

verus! {

/// A strategy that is to be put to work.
pub struct StrategyWants {
    pub account: AccountId,
    pub streams: Vec<(Exchange, SubscriptionKind)>,
    /// What it names without a stream. Nothing is brought up for that here.
    pub bare: Vec<(Exchange, Option<Symbol>)>,
}

/// The next thing to do. Strategies are meant by their place in the batch.
#[derive(Debug)]
pub enum ProvisionStep {
    /// Cancel the orders that an earlier run left open on a leg.
    CancelLeftovers(Exchange, Symbol),
    /// Ask a venue what is held.
    FetchPositions(Exchange),
    /// Start a strategy from its baselines; it gets no events yet.
    Spawn(usize),
    /// Tell the metrics what is followed, and from where.
    RegisterMetrics,
    /// Tell the ledger what is followed, and from where.
    RegisterLedger,
    /// Let a strategy get its events.
    RegisterExecutor(usize),
    /// Let a venue send the streams.
    Subscribe(Exchange),
    /// Let a strategy get no more events.
    Unregister(usize),
    /// Stop a strategy, and wait until it has stopped.
    Stop(usize),
    Done(Result<(), ExchangeError>),
}

/// What a step came to.
#[derive(Debug)]
pub enum ProvisionReply {
    LeftoversCancelled(Result<(), ExchangeError>),
    /// What a venue said is held, and when it was asked.
    Positions(Exchange, Timestamp, Result<Vec<Position>, ExchangeError>),
    Spawned(ActorId),
    MetricsRegistered(Result<(), String>),
    LedgerRegistered(Result<(), String>),
    ExecutorRegistered(usize, Result<(), String>),
    Subscribed(Result<(), String>),
    Unregistered,
    Stopped,
}

/// The cancellations: the legs of venues on which the engine has an account.
pub open spec fn clearing(legs: Seq<(Exchange, Symbol)>, accounts: Set<Exchange>) -> Seq<ProvisionStep>
    decreases legs.len(),
{
    if legs.len() == 0 {
        Seq::empty()
    } else {
        let earlier = clearing(legs.drop_last(), accounts);
        if accounts.contains(legs.last().0) {
            earlier.push(ProvisionStep::CancelLeftovers(legs.last().0, legs.last().1))
        } else {
            earlier
        }
    }
}

/// The questions to the venues on which the engine has an account.
pub open spec fn reading(venues: Seq<Exchange>, accounts: Set<Exchange>) -> Seq<ProvisionStep>
    decreases venues.len(),
{
    if venues.len() == 0 {
        Seq::empty()
    } else {
        let earlier = reading(venues.drop_last(), accounts);
        if accounts.contains(venues.last()) {
            earlier.push(ProvisionStep::FetchPositions(venues.last()))
        } else {
            earlier
        }
    }
}

/// The subscriptions: the venues that have an adapter at work.
pub open spec fn subscribing(venues: Seq<Exchange>, adapters: Set<Exchange>) -> Seq<ProvisionStep>
    decreases venues.len(),
{
    if venues.len() == 0 {
        Seq::empty()
    } else {
        let earlier = subscribing(venues.drop_last(), adapters);
        if adapters.contains(venues.last()) {
            earlier.push(ProvisionStep::Subscribe(venues.last()))
        } else {
            earlier
        }
    }
}

/// The strategies' starts.
pub open spec fn spawning(n: nat) -> Seq<ProvisionStep> {
    Seq::new(n, |i: int| ProvisionStep::Spawn(i as usize))
}

/// The strategies' registrations.
pub open spec fn registering(n: nat) -> Seq<ProvisionStep> {
    Seq::new(n, |i: int| ProvisionStep::RegisterExecutor(i as usize))
}

/// All steps, as long as none fails.
pub open spec fn plan(
    legs: Seq<(Exchange, Symbol)>,
    venues: Seq<Exchange>,
    strategies: nat,
    accounts: Set<Exchange>,
    adapters: Set<Exchange>,
) -> Seq<ProvisionStep> {
    clearing(legs, accounts) + reading(venues, accounts) + spawning(strategies) + seq![
        ProvisionStep::RegisterMetrics,
        ProvisionStep::RegisterLedger,
    ] + registering(strategies) + subscribing(venues, adapters)
}

/// The steps that undo what was done: every strategy that was started gets no more events and
/// stops.
pub open spec fn undoing(started: nat) -> Seq<ProvisionStep>
    decreases started,
{
    if started == 0 {
        Seq::empty()
    } else {
        undoing((started - 1) as nat).push(ProvisionStep::Unregister((started - 1) as usize)).push(
            ProvisionStep::Stop((started - 1) as usize),
        )
    }
}

/// Where a step stands in the order of things.
pub open spec fn rank(step: ProvisionStep) -> int {
    match step {
        ProvisionStep::CancelLeftovers(..) => 0,
        ProvisionStep::FetchPositions(_) => 1,
        ProvisionStep::Spawn(_) => 2,
        ProvisionStep::RegisterMetrics => 3,
        ProvisionStep::RegisterLedger => 4,
        ProvisionStep::RegisterExecutor(_) => 5,
        ProvisionStep::Subscribe(_) => 6,
        ProvisionStep::Unregister(_) => 7,
        ProvisionStep::Stop(_) => 8,
        ProvisionStep::Done(_) => 9,
    }
}

/// Whether all steps are of one rank.
pub open spec fn all_ranked(steps: Seq<ProvisionStep>, r: int) -> bool {
    forall|i: int| 0 <= i < steps.len() ==> rank(#[trigger] steps[i]) == r
}

proof fn lemma_ranks(
    legs: Seq<(Exchange, Symbol)>,
    venues: Seq<Exchange>,
    accounts: Set<Exchange>,
    adapters: Set<Exchange>,
)
    ensures
        all_ranked(clearing(legs, accounts), 0),
        all_ranked(reading(venues, accounts), 1),
        all_ranked(subscribing(venues, adapters), 6),
    decreases legs.len() + venues.len(),
{
    if legs.len() > 0 {
        lemma_ranks(legs.drop_last(), venues, accounts, adapters);
    } else if venues.len() > 0 {
        lemma_ranks(legs, venues.drop_last(), accounts, adapters);
    }
    if legs.len() > 0 && venues.len() > 0 {
        lemma_ranks(Seq::empty(), venues, accounts, adapters);
    }
}

/// What is held is known before anything else: old orders go before positions are read, positions
/// are read before strategies start, strategies start and their mirrors are told before any event
/// can reach them, and only then do the venues send.
pub proof fn steps_keep_their_order(
    legs: Seq<(Exchange, Symbol)>,
    venues: Seq<Exchange>,
    strategies: nat,
    accounts: Set<Exchange>,
    adapters: Set<Exchange>,
    i: int,
    j: int,
)
    requires
        0 <= i <= j < plan(legs, venues, strategies, accounts, adapters).len(),
    ensures
        rank(plan(legs, venues, strategies, accounts, adapters)[i]) <= rank(
            plan(legs, venues, strategies, accounts, adapters)[j],
        ),
{
    lemma_ranks(legs, venues, accounts, adapters);
    let p = plan(legs, venues, strategies, accounts, adapters);
    let a = clearing(legs, accounts);
    let b = reading(venues, accounts);
    let c = spawning(strategies);
    let d = seq![ProvisionStep::RegisterMetrics, ProvisionStep::RegisterLedger];
    let e = registering(strategies);
    let f = subscribing(venues, adapters);
    lemma_rank_at(a, b, c, d, e, f, i);
    lemma_rank_at(a, b, c, d, e, f, j);
}

/// The rank of a step, by the part in which it stands.
spec fn rank_at(a: int, b: int, c: int, e: int, i: int) -> int {
    if i < a {
        0
    } else if i < a + b {
        1
    } else if i < a + b + c {
        2
    } else if i < a + b + c + 1 {
        3
    } else if i < a + b + c + 2 {
        4
    } else if i < a + b + c + 2 + e {
        5
    } else {
        6
    }
}

proof fn lemma_rank_at(
    a: Seq<ProvisionStep>,
    b: Seq<ProvisionStep>,
    c: Seq<ProvisionStep>,
    d: Seq<ProvisionStep>,
    e: Seq<ProvisionStep>,
    f: Seq<ProvisionStep>,
    i: int,
)
    requires
        all_ranked(a, 0),
        all_ranked(b, 1),
        all_ranked(c, 2),
        d == seq![ProvisionStep::RegisterMetrics, ProvisionStep::RegisterLedger],
        all_ranked(e, 5),
        all_ranked(f, 6),
        0 <= i < (a + b + c + d + e + f).len(),
    ensures
        rank((a + b + c + d + e + f)[i]) == rank_at(a.len() as int, b.len() as int, c.len() as int, e.len() as int, i),
{
    let p = a + b + c + d + e + f;
    let (la, lb, lc, le) = (a.len() as int, b.len() as int, c.len() as int, e.len() as int);
    if i < la {
        assert(p[i] == a[i]);
    } else if i < la + lb {
        assert(p[i] == b[i - la]);
    } else if i < la + lb + lc {
        assert(p[i] == c[i - la - lb]);
    } else if i < la + lb + lc + 2 {
        assert(p[i] == d[i - la - lb - lc]);
    } else if i < la + lb + lc + 2 + le {
        assert(p[i] == e[i - la - lb - lc - 2]);
    } else {
        assert(p[i] == f[i - la - lb - lc - 2 - le]);
    }
}

/// Undoing reaches every strategy that was started.
pub proof fn undoing_reaches_every_strategy(started: nat, i: nat)
    requires
        i < started,
        started <= usize::MAX,
    ensures
        undoing(started).contains(ProvisionStep::Unregister(i as usize)),
        undoing(started).contains(ProvisionStep::Stop(i as usize)),
    decreases started,
{
    let s = undoing(started);
    if i == started - 1 {
        assert(s[s.len() - 2] == ProvisionStep::Unregister(i as usize));
        assert(s[s.len() - 1] == ProvisionStep::Stop(i as usize));
    } else {
        let rest = undoing((started - 1) as nat);
        undoing_reaches_every_strategy((started - 1) as nat, i);
        let a = choose|k: int| 0 <= k < rest.len() && rest[k] == ProvisionStep::Unregister(i as usize);
        let b = choose|k: int| 0 <= k < rest.len() && rest[k] == ProvisionStep::Stop(i as usize);
        assert(s[a] == ProvisionStep::Unregister(i as usize));
        assert(s[b] == ProvisionStep::Stop(i as usize));
    }
}

/// What a venue says is held of an instrument: the last position under its name, or none.
pub open spec fn held_as_told(exchange: Exchange, symbol: Symbol, positions: Seq<Position>) -> Position
    decreases positions.len(),
{
    if positions.len() == 0 {
        Position { exchange, symbol, size: 0 }
    } else if positions.last().symbol@ == symbol@ {
        positions.last()
    } else {
        held_as_told(exchange, symbol, positions.drop_last())
    }
}

/// The baselines with those of a venue: one for each of its legs.
pub open spec fn with_venue(
    m: Map<(Exchange, Seq<char>), PositionBaseline>,
    legs: Seq<(Exchange, Symbol)>,
    exchange: Exchange,
    positions: Seq<Position>,
    at: Timestamp,
) -> Map<(Exchange, Seq<char>), PositionBaseline>
    decreases legs.len(),
{
    if legs.len() == 0 {
        m
    } else {
        let earlier = with_venue(m, legs.drop_last(), exchange, positions, at);
        let leg = legs.last();
        if leg.0 == exchange {
            earlier.insert(
                leg.id(),
                PositionBaseline {
                    position: held_as_told(exchange, leg.1, positions),
                    snapshot_req_ts: at,
                },
            )
        } else {
            earlier
        }
    }
}

/// Every leg of a venue that was read has a baseline.
pub proof fn every_leg_of_a_venue_gets_a_baseline(
    m: Map<(Exchange, Seq<char>), PositionBaseline>,
    legs: Seq<(Exchange, Symbol)>,
    exchange: Exchange,
    positions: Seq<Position>,
    at: Timestamp,
    i: int,
)
    requires
        0 <= i < legs.len(),
        legs[i].0 == exchange,
    ensures
        with_venue(m, legs, exchange, positions, at).dom().contains(legs[i].id()),
    decreases legs.len(),
{
    if i < legs.len() - 1 {
        assert(legs.drop_last()[i] == legs[i]);
        every_leg_of_a_venue_gets_a_baseline(m, legs.drop_last(), exchange, positions, at, i);
    }
}

/// Whether a reply is a failure, and this is its error.
pub open spec fn fails_with(reply: ProvisionReply, e: ExchangeError) -> bool {
    match reply {
        ProvisionReply::LeftoversCancelled(Err(x)) => e == x,
        ProvisionReply::Positions(exchange, _, Err(x)) => e matches ExchangeError::Other(s) && s@
            == "无法获取 "@ + domain::exchange_name(exchange)
            + " 的初始持仓基线，拒绝启动（基线只有一次机会，错了之后无从纠正）: "@ + domain::error_text(x),
        ProvisionReply::MetricsRegistered(Err(x)) => e matches ExchangeError::Other(s) && s@
            == "向 MetricsActor 注册 symbol 失败（盈亏基线将丢失）: "@ + x@,
        ProvisionReply::LedgerRegistered(Err(x)) => e matches ExchangeError::Other(s) && s@
            == "向 PositionLedgerActor 注册 symbol 失败（对账通道静默失效，且这批 symbol 不会出现在对外持仓快照里）: "@
            + x@,
        ProvisionReply::ExecutorRegistered(_, Err(x)) => e matches ExchangeError::Other(s) && s@
            == "向 IncomeProcessor 注册策略实例失败（该实例将收不到任何事件）: "@ + x@,
        ProvisionReply::Subscribed(Err(x)) => e == ExchangeError::Other(x),
        _ => false,
    }
}

/// Whether a reply is a failure.
pub open spec fn is_failure(reply: ProvisionReply) -> bool {
    match reply {
        ProvisionReply::LeftoversCancelled(Err(_)) => true,
        ProvisionReply::Positions(_, _, Err(_)) => true,
        ProvisionReply::MetricsRegistered(Err(_)) => true,
        ProvisionReply::LedgerRegistered(Err(_)) => true,
        ProvisionReply::ExecutorRegistered(_, Err(_)) => true,
        ProvisionReply::Subscribed(Err(_)) => true,
        _ => false,
    }
}

fn failure_of(reply: &ProvisionReply) -> (r: Option<ExchangeError>)
    ensures
        match r {
            Some(e) => is_failure(*reply) && fails_with(*reply, e),
            None => !is_failure(*reply),
        },
{
    match reply {
        ProvisionReply::LeftoversCancelled(Err(x)) => Some(x.clone()),
        ProvisionReply::Positions(exchange, _, Err(x)) => {
            let mut s = joined("无法获取 ", exchange.name());
            s.append(" 的初始持仓基线，拒绝启动（基线只有一次机会，错了之后无从纠正）: ");
            s.append(x.message().as_str());
            Some(ExchangeError::Other(s))
        },
        ProvisionReply::MetricsRegistered(Err(x)) => Some(
            ExchangeError::Other(
                joined("向 MetricsActor 注册 symbol 失败（盈亏基线将丢失）: ", x.as_str()),
            ),
        ),
        ProvisionReply::LedgerRegistered(Err(x)) => Some(
            ExchangeError::Other(
                joined(
                    "向 PositionLedgerActor 注册 symbol 失败（对账通道静默失效，且这批 symbol 不会出现在对外持仓快照里）: ",
                    x.as_str(),
                ),
            ),
        ),
        ProvisionReply::ExecutorRegistered(_, Err(x)) => Some(
            ExchangeError::Other(
                joined("向 IncomeProcessor 注册策略实例失败（该实例将收不到任何事件）: ", x.as_str()),
            ),
        ),
        ProvisionReply::Subscribed(Err(x)) => Some(ExchangeError::Other(x.clone())),
        _ => None,
    }
}

/// Whether one of the legs is on a venue.
pub open spec fn on_venue(legs: Seq<(Exchange, Symbol)>, exchange: Exchange) -> bool {
    exists|i: int| 0 <= i < legs.len() && (#[trigger] legs[i]).0 == exchange
}

/// The venues of these legs, each once.
pub fn venues_of(legs: &Vec<(Exchange, Symbol)>) -> (v: Vec<Exchange>)
    ensures
        v@.no_duplicates(),
        forall|e: Exchange| #[trigger] v@.contains(e) == on_venue(legs@, e),
{
    let mut v: Vec<Exchange> = Vec::new();
    let mut i: usize = 0;
    while i < legs.len()
        invariant
            i <= legs.len(),
            v@.no_duplicates(),
            forall|e: Exchange| #[trigger] v@.contains(e) ==> on_venue(legs@, e),
            forall|j: int| 0 <= j < i ==> v@.contains((#[trigger] legs@[j]).0),
        decreases legs.len() - i,
    {
        let exchange = legs[i].0;
        let mut known = false;
        let mut k: usize = 0;
        while k < v.len()
            invariant
                k <= v.len(),
                known == exists|j: int| 0 <= j < k && #[trigger] v@[j] == exchange,
            decreases v.len() - k,
        {
            if v[k] == exchange {
                known = true;
            }
            k = k + 1;
        }
        let ghost was = v@;
        if !known {
            v.push(exchange);
            proof {
                assert(!was.contains(exchange));
                assert(v@[was.len() as int] == exchange);
                assert(legs@[i as int].0 == exchange);
                assert forall|e: Exchange| #[trigger] v@.contains(e) implies on_venue(legs@, e) by {
                    if e != exchange {
                        let j = choose|j: int| 0 <= j < v@.len() && v@[j] == e;
                        assert(was[j] == e);
                        assert(was.contains(e));
                    }
                }
                assert forall|j: int| 0 <= j < i implies v@.contains((#[trigger] legs@[j]).0) by {
                    let x = legs@[j].0;
                    assert(was.contains(x));
                    let k = choose|k: int| 0 <= k < was.len() && was[k] == x;
                    assert(v@[k] == x);
                }
                assert forall|a: int, b: int| 0 <= a < v@.len() && 0 <= b < v@.len() && a != b implies v@[a] != v@[b] by {
                    if a == was.len() {
                        assert(was[b] == v@[b]);
                        assert(was.contains(was[b]));
                    } else if b == was.len() {
                        assert(was[a] == v@[a]);
                        assert(was.contains(was[a]));
                    }
                }
            }
        } else {
            assert(v@.contains(exchange));
        }
        i = i + 1;
    }
    v
}

/// All streams of a batch, each once.
pub open spec fn wanted(wants: Seq<StrategyWants>, id: (Exchange, subscription::StreamKey)) -> bool {
    exists|i: int, j: int| 0 <= i < wants.len() && 0 <= j < wants[i].streams@.len() && (#[trigger] wants[i].streams@[j]).id() == id
}

/// A batch of strategies that is being put to work.
pub struct Provisioning {
    wants: Vec<StrategyWants>,
    legs: Vec<(Exchange, Symbol)>,
    venues: Vec<Exchange>,
    streams: StreamSet,
    todo: Vec<ProvisionStep>,
    at: usize,
    failure: Option<ExchangeError>,
    baselines: Table<(Exchange, Symbol), PositionBaseline>,
    created: Vec<ActorId>,
    registered: Vec<RegisteredExecutor>,
}

impl Provisioning {
    /// The strategies.
    pub closed spec fn batch(&self) -> Seq<StrategyWants> {
        self.wants@
    }

    /// The legs of all streams, each once.
    pub closed spec fn leg_list(&self) -> Seq<(Exchange, Symbol)> {
        self.legs@
    }

    /// The venues of the legs, each once.
    pub closed spec fn venue_list(&self) -> Seq<Exchange> {
        self.venues@
    }

    /// All streams, each once.
    pub closed spec fn stream_list(&self) -> Seq<((Exchange, SubscriptionKind), ())> {
        self.streams.entries()
    }

    /// The steps that are being taken.
    pub closed spec fn steps(&self) -> Seq<ProvisionStep> {
        self.todo@
    }

    /// How many of them have been given out.
    pub closed spec fn given(&self) -> nat {
        self.at as nat
    }

    /// What went wrong, if anything did.
    pub closed spec fn failure(&self) -> Option<ExchangeError> {
        self.failure
    }

    /// What is held on the legs that were read.
    pub closed spec fn known(&self) -> Map<(Exchange, Seq<char>), PositionBaseline> {
        self.baselines@
    }

    /// The strategies that were started.
    pub closed spec fn started(&self) -> Seq<ActorId> {
        self.created@
    }

    /// The strategies that get their events.
    pub closed spec fn at_work(&self) -> Seq<RegisteredExecutor> {
        self.registered@
    }

    /// No more steps have been given out than there are, none of them is the end, and the legs and
    /// venues are those of the streams.
    pub closed spec fn inv(&self) -> bool {
        &&& self.at <= self.todo@.len()
        &&& forall|i: int| 0 <= i < self.todo@.len() ==> !(#[trigger] self.todo@[i] is Done)
        &&& scope::distinct_legs(self.legs@)
    }

    /// Plans how a batch is put to work, if the venues can serve its streams. `accounts` are the
    /// venues on which the engine has an account, `adapters` those whose adapter is at work.
    pub fn new(
        wants: Vec<StrategyWants>,
        accounts: &Table<Exchange, ()>,
        adapters: &Table<Exchange, ()>,
        capabilities: &Table<Exchange, Capabilities>,
        symbol_metas: &SymbolMetas,
    ) -> (res: Result<Provisioning, ExchangeError>)
        ensures
            match res {
                Ok(p) => is_planned(
                    p,
                    wants@,
                    accounts@.dom(),
                    adapters@.dom(),
                    capabilities@,
                    symbol_metas@,
                ),
                Err(e) => is_refused(e, wants@, capabilities@, symbol_metas@),
            },
    {
        let streams = aggregate(&wants);
        proof {
            assert(is_stream_list(streams.entries(), wants@));
        }
        match validate_subscriptions(&streams, capabilities, symbol_metas) {
            Err(s) => {
                return Err(ExchangeError::Other(s));
            },
            Ok(()) => {},
        }
        let list = stream_vec(&streams);
        let scope = SubscriptionScope::from_pairs(&legs(&list));
        let pairs = scope.pairs();
        proof {
            assert forall|leg: (Exchange, Seq<char>)| #[trigger] scope::leg_set(pairs@).contains(leg) == leg_wanted(wants@, leg) by {
                lemma_legs_wanted(streams.entries(), list@, wants@, leg);
            }
        }
        let venues = venues_of(&pairs);
        let n = wants.len();
        let todo = if n > 0 {
            plan_steps(&pairs, &venues, n, accounts, adapters)
        } else {
            Vec::new()
        };
        proof {
            lemma_plan_has_no_end(pairs@, venues@, n as nat, accounts@.dom(), adapters@.dom());
            assert(n == 0 ==> todo@ =~= Seq::<ProvisionStep>::empty());
        }
        Ok(
            Provisioning {
                wants,
                legs: pairs,
                venues,
                streams,
                todo,
                at: 0,
                failure: None,
                baselines: Table::new(),
                created: Vec::new(),
                registered: Vec::new(),
            },
        )
    }

    /// Gives out the next step; after the last, the end.
    pub fn next(&mut self) -> (step: ProvisionStep)
        requires
            old(self).inv(),
        ensures
            final(self).inv(),
            same_but_given(*old(self), *final(self)),
            old(self).given() < old(self).steps().len() ==> step == old(self).steps()[old(self).given() as int] && final(self).given() == old(self).given() + 1,
            old(self).given() == old(self).steps().len() ==> {
                &&& step == ProvisionStep::Done(match old(self).failure() {
                    Some(e) => Err(e),
                    None => Ok(()),
                })
                &&& final(self).given() == old(self).given()
            },
    {
        if self.at < self.todo.len() {
            let step = copy_step(&self.todo[self.at]);
            self.at = self.at + 1;
            step
        } else {
            match &self.failure {
                Some(e) => ProvisionStep::Done(Err(e.clone())),
                None => ProvisionStep::Done(Ok(())),
            }
        }
    }

    /// What a strategy starts from.
    pub fn baselines_for(&self, i: usize) -> (v: Vec<PositionBaseline>)
        requires
            i < self.batch().len(),
        ensures
            exists|legs: Seq<(Exchange, Symbol)>| {
                &&& #[trigger] scope::leg_set(legs) == scope::leg_set(subscription::legs_of(self.batch()[i as int].streams@))
                &&& scope::distinct_legs(legs)
                &&& v@ == Seq::new(legs.len(), |k: int| provisioning::starting_position(self.batch()[i as int].account, self.known(), legs[k]))
            },
    {
        let w = &self.wants[i];
        let scope = SubscriptionScope::from_pairs(&legs(&w.streams));
        executor_baselines(&w.account, &scope, &self.baselines)
    }

    /// The streams that a strategy was planned on.
    pub fn streams_for(&self, i: usize) -> (v: &Vec<(Exchange, SubscriptionKind)>)
        requires
            i < self.batch().len(),
        ensures
            *v == self.batch()[i as int].streams,
    {
        &self.wants[i].streams
    }

    /// The instruments of the batch, each once.
    pub fn symbols(&self) -> (v: Vec<Symbol>)
        ensures
            scope::no_repeats(v@),
            forall|s: Seq<char>| #[trigger] scope::listed(v@, s) == scope::traded(scope::leg_set(self.leg_list()), s),
    {
        symbols_of(&self.legs)
    }

    /// What is held on the legs that were read, each leg once.
    pub fn baselines(&self) -> (v: Vec<PositionBaseline>)
        ensures
            lists_each(v@, self.known()),
            v@.len() == self.known().dom().len(),
            forall|b: PositionBaseline| #[trigger] v@.contains(b) == exists|leg: (Exchange, Seq<char>)| self.known().dom().contains(leg) && #[trigger] self.known()[leg] == b,
    {
        let n = self.baselines.len();
        let mut v: Vec<PositionBaseline> = Vec::new();
        let mut i: usize = 0;
        while i < n
            invariant
                i <= n,
                n == self.baselines.entries().len(),
                self.baselines.inv(),
                v@.len() == i,
                forall|j: int| 0 <= j < i ==> #[trigger] v@[j] == self.baselines.entries()[j].1,
            decreases n - i,
        {
            v.push(self.baselines.value_at(i).clone());
            i = i + 1;
        }
        proof {
            let e = self.baselines.entries();
            let legs = Seq::new(e.len(), |j: int| e[j].0.id());
            assert(legs.no_duplicates());
            assert forall|leg: (Exchange, Seq<char>)| #[trigger] legs.to_set().contains(leg) == self.known().dom().contains(leg) by {
                if legs.contains(leg) {
                    let j = choose|j: int| 0 <= j < legs.len() && legs[j] == leg;
                    table::lemma_entry_in_map(e, j);
                }
                if self.known().dom().contains(leg) {
                    let j = choose|j: int| #[trigger] table::names(e, j, leg);
                    assert(legs[j] == leg);
                }
            }
            assert(legs.to_set() =~= self.known().dom());
            legs.unique_seq_to_set();
            assert forall|j: int| 0 <= j < v@.len() implies #[trigger] v@[j] == self.known()[legs[j]] by {
                table::lemma_entry_in_map(e, j);
            }
            assert(lists(v@, self.known(), legs));
            assert forall|b: PositionBaseline| #[trigger] v@.contains(b) == exists|leg: (Exchange, Seq<char>)| self.known().dom().contains(leg) && #[trigger] self.known()[leg] == b by {
                if v@.contains(b) {
                    let j = choose|j: int| 0 <= j < v@.len() && v@[j] == b;
                    table::lemma_entry_in_map(e, j);
                    assert(self.known()[e[j].0.id()] == b);
                }
                if exists|leg: (Exchange, Seq<char>)| self.known().dom().contains(leg) && #[trigger] self.known()[leg] == b {
                    let leg = choose|leg: (Exchange, Seq<char>)| self.known().dom().contains(leg) && #[trigger] self.known()[leg] == b;
                    let j = choose|j: int| #[trigger] table::names(e, j, leg);
                    table::lemma_entry_in_map(e, j);
                    assert(v@[j] == b);
                }
            }
        }
        v
    }

    /// The streams that a venue is to send.
    pub fn streams_on(&self, exchange: Exchange) -> (v: Vec<SubscriptionKind>)
        ensures
            v@ == kinds_on(self.stream_list(), exchange),
    {
        let n = self.streams.len();
        let ghost all = self.streams.entries();
        let mut v: Vec<SubscriptionKind> = Vec::new();
        let mut i: usize = 0;
        assert(v@ =~= kinds_on(all.take(0), exchange));
        while i < n
            invariant
                i <= n,
                n == all.len(),
                all == self.streams.entries(),
                v@ == kinds_on(all.take(i as int), exchange),
            decreases n - i,
        {
            assert(all.take(i + 1).drop_last() =~= all.take(i as int));
            let (on, kind) = self.streams.key_at(i);
            if *on == exchange {
                v.push(kind.clone());
            }
            i = i + 1;
        }
        assert(all.take(i as int) =~= all);
        v
    }

    fn add_baselines(&mut self, exchange: Exchange, at: Timestamp, positions: &Vec<Position>)
        requires
            old(self).inv(),
        ensures
            final(self).inv(),
            final(self).baselines@ == with_venue(old(self).baselines@, old(self).legs@, exchange, positions@, at),
            final(self).wants == old(self).wants,
            final(self).legs == old(self).legs,
            final(self).venues == old(self).venues,
            final(self).streams == old(self).streams,
            final(self).todo == old(self).todo,
            final(self).at == old(self).at,
            final(self).failure == old(self).failure,
            final(self).created == old(self).created,
            final(self).registered == old(self).registered,
    {
        let ghost m = self.baselines@;
        let mut i: usize = 0;
        while i < self.legs.len()
            invariant
                i <= self.legs.len(),
                self.inv(),
                self.baselines@ == with_venue(m, self.legs@.take(i as int), exchange, positions@, at),
                self.wants == old(self).wants,
                self.legs == old(self).legs,
                self.venues == old(self).venues,
                self.streams == old(self).streams,
                self.todo == old(self).todo,
                self.at == old(self).at,
                self.failure == old(self).failure,
                self.created == old(self).created,
                self.registered == old(self).registered,
            decreases self.legs.len() - i,
        {
            assert(self.legs@.take(i + 1).drop_last() =~= self.legs@.take(i as int));
            if self.legs[i].0 == exchange {
                let leg = self.legs[i].copy();
                let position = told(exchange, &leg.1, positions);
                self.baselines.insert(leg, PositionBaseline { position, snapshot_req_ts: at });
            }
            i = i + 1;
        }
        assert(self.legs@.take(i as int) =~= self.legs@);
    }

    /// Takes in what a step came to. The first failure turns the batch back: strategies that were
    /// started are stopped, and nothing else is done.
    pub fn report(&mut self, reply: ProvisionReply)
        requires
            old(self).inv(),
            reply is Spawned ==> old(self).started().len() < usize::MAX,
            reply matches ProvisionReply::ExecutorRegistered(i, _) ==> i < old(self).started().len() && i < old(self).batch().len(),
        ensures
            final(self).inv(),
            final(self).batch() == old(self).batch(),
            final(self).leg_list() == old(self).leg_list(),
            final(self).venue_list() == old(self).venue_list(),
            final(self).stream_list() == old(self).stream_list(),
            is_failure(reply) && old(self).failure() is None ==> {
                &&& final(self).failure() matches Some(e)
                &&& fails_with(reply, e)
                &&& final(self).steps() == undoing(old(self).started().len())
                &&& final(self).given() == 0
            },
            !is_failure(reply) || old(self).failure() is Some ==> {
                &&& final(self).failure() == old(self).failure()
                &&& final(self).steps() == old(self).steps()
                &&& final(self).given() == old(self).given()
            },
            final(self).known() == (match reply {
                ProvisionReply::Positions(exchange, at, Ok(v)) => with_venue(old(self).known(), old(self).leg_list(), exchange, v@, at),
                _ => old(self).known(),
            }),
            final(self).started() == (match reply {
                ProvisionReply::Spawned(id) => old(self).started().push(id),
                _ => old(self).started(),
            }),
            match reply {
                ProvisionReply::ExecutorRegistered(i, Ok(())) => {
                    &&& final(self).at_work().len() == old(self).at_work().len() + 1
                    &&& final(self).at_work().drop_last() == old(self).at_work()
                    &&& is_registration(final(self).at_work().last(), old(self).started()[i as int], old(self).batch()[i as int])
                },
                _ => final(self).at_work() == old(self).at_work(),
            },
    {
        if self.failure.is_none() {
            if let Some(e) = failure_of(&reply) {
                self.failure = Some(e);
                let started = self.created.len();
                self.todo = undo_steps(started);
                self.at = 0;
                return;
            }
        }
        match reply {
            ProvisionReply::Positions(exchange, at, Ok(v)) => {
                self.add_baselines(exchange, at, &v);
            },
            ProvisionReply::Spawned(id) => {
                self.created.push(id);
            },
            ProvisionReply::ExecutorRegistered(i, Ok(())) => {
                let w = &self.wants[i];
                let reg = RegisteredExecutor {
                    executor: self.created[i],
                    account: w.account.clone(),
                    symbols: symbols_of(&legs(&w.streams)),
                };
                let ghost was = self.registered@;
                self.registered.push(reg);
                assert(self.registered@.drop_last() =~= was);
            },
            _ => {},
        }
    }

    /// Whether the batch was turned back.
    pub fn failed(&self) -> (b: bool)
        ensures
            b == (self.failure() is Some),
    {
        self.failure.is_some()
    }

    /// The strategies that are at work, once all are.
    pub fn into_registered(self) -> (v: Vec<RegisteredExecutor>)
        ensures
            v@ == self.at_work(),
    {
        self.registered
    }
}

/// Whether this is how a batch starts out: nothing is done yet, all its streams can be served, and
/// the steps are those of the plan.
pub open spec fn is_planned(
    p: Provisioning,
    wants: Seq<StrategyWants>,
    accounts: Set<Exchange>,
    adapters: Set<Exchange>,
    capabilities: Map<Exchange, Capabilities>,
    metas: Map<(Exchange, Seq<char>), SymbolMeta>,
) -> bool {
    &&& p.inv()
    &&& p.batch() == wants
    &&& p.given() == 0
    &&& p.failure() is None
    &&& p.known() == Map::<(Exchange, Seq<char>), PositionBaseline>::empty()
    &&& p.started().len() == 0
    &&& p.at_work().len() == 0
    &&& provisioning::problems(p.stream_list(), capabilities, metas).len() == 0
    &&& is_stream_list(p.stream_list(), wants)
    &&& scope::distinct_legs(p.leg_list())
    &&& forall|leg: (Exchange, Seq<char>)|
        #[trigger] scope::leg_set(p.leg_list()).contains(leg) == leg_wanted(wants, leg)
    &&& p.venue_list().no_duplicates()
    &&& forall|e: Exchange| #[trigger] p.venue_list().contains(e) == on_venue(p.leg_list(), e)
    &&& p.steps() == (if wants.len() == 0 {
        Seq::empty()
    } else {
        plan(p.leg_list(), p.venue_list(), wants.len(), accounts, adapters)
    })
}

/// Whether the error tells all that stands in the way of a batch's streams.
pub open spec fn is_refused(
    e: ExchangeError,
    wants: Seq<StrategyWants>,
    capabilities: Map<Exchange, Capabilities>,
    metas: Map<(Exchange, Seq<char>), SymbolMeta>,
) -> bool {
    exists|list: Seq<((Exchange, SubscriptionKind), ())>| {
        &&& #[trigger] is_stream_list(list, wants)
        &&& provisioning::problems(list, capabilities, metas).len() > 0
        &&& e matches ExchangeError::Other(s)
        &&& provisioning::tells_all(s@, provisioning::problems(list, capabilities, metas))
    }
}

/// Whether nothing differs but how many steps were given out.
pub open spec fn same_but_given(a: Provisioning, b: Provisioning) -> bool {
    &&& a.batch() == b.batch()
    &&& a.leg_list() == b.leg_list()
    &&& a.venue_list() == b.venue_list()
    &&& a.stream_list() == b.stream_list()
    &&& a.steps() == b.steps()
    &&& a.failure() == b.failure()
    &&& a.known() == b.known()
    &&& a.started() == b.started()
    &&& a.at_work() == b.at_work()
}

/// Whether this is how a strategy of the batch is registered.
pub open spec fn is_registration(reg: RegisteredExecutor, id: ActorId, w: StrategyWants) -> bool {
    &&& reg.executor == id
    &&& reg.account == w.account
    &&& scope::no_repeats(reg.symbols@)
    &&& forall|s: Seq<char>| #[trigger] scope::listed(reg.symbols@, s) == scope::traded(scope::leg_set(subscription::legs_of(w.streams@)), s)
}

/// The streams of a venue, in their order.
pub open spec fn kinds_on(list: Seq<((Exchange, SubscriptionKind), ())>, exchange: Exchange) -> Seq<SubscriptionKind>
    decreases list.len(),
{
    if list.len() == 0 {
        Seq::empty()
    } else {
        let earlier = kinds_on(list.drop_last(), exchange);
        if list.last().0.0 == exchange {
            earlier.push(list.last().0.1)
        } else {
            earlier
        }
    }
}

/// Whether a list holds the streams of a batch, each once.
pub open spec fn is_stream_list(list: Seq<((Exchange, SubscriptionKind), ())>, wants: Seq<StrategyWants>) -> bool {
    &&& table::distinct_keys(list)
    &&& forall|id: (Exchange, subscription::StreamKey)| #[trigger] table::entries_map(list).dom().contains(id) == wanted(wants, id)
}

/// Whether these are the baselines of the legs, one for one.
pub open spec fn lists(
    v: Seq<PositionBaseline>,
    known: Map<(Exchange, Seq<char>), PositionBaseline>,
    legs: Seq<(Exchange, Seq<char>)>,
) -> bool {
    &&& legs.no_duplicates()
    &&& legs.to_set() == known.dom()
    &&& v.len() == legs.len()
    &&& forall|j: int| 0 <= j < v.len() ==> #[trigger] v[j] == known[legs[j]]
}

/// Whether each leg's baseline is there once.
pub open spec fn lists_each(v: Seq<PositionBaseline>, known: Map<(Exchange, Seq<char>), PositionBaseline>) -> bool {
    exists|legs: Seq<(Exchange, Seq<char>)>| #[trigger] lists(v, known, legs)
}

/// Whether a strategy of the batch trades a leg.
pub open spec fn leg_wanted(wants: Seq<StrategyWants>, leg: (Exchange, Seq<char>)) -> bool {
    exists|i: int, j: int| 0 <= i < wants.len() && 0 <= j < wants[i].streams@.len() && (#[trigger] wants[i].streams@[j]).0 == leg.0 && subscription::stream_symbol(wants[i].streams@[j].1)@ == leg.1
}

fn copy_step(step: &ProvisionStep) -> (r: ProvisionStep)
    ensures
        !(step is Done) ==> r == *step,
{
    match step {
        ProvisionStep::CancelLeftovers(e, s) => ProvisionStep::CancelLeftovers(*e, s.clone()),
        ProvisionStep::FetchPositions(e) => ProvisionStep::FetchPositions(*e),
        ProvisionStep::Spawn(i) => ProvisionStep::Spawn(*i),
        ProvisionStep::RegisterMetrics => ProvisionStep::RegisterMetrics,
        ProvisionStep::RegisterLedger => ProvisionStep::RegisterLedger,
        ProvisionStep::RegisterExecutor(i) => ProvisionStep::RegisterExecutor(*i),
        ProvisionStep::Subscribe(e) => ProvisionStep::Subscribe(*e),
        ProvisionStep::Unregister(i) => ProvisionStep::Unregister(*i),
        ProvisionStep::Stop(i) => ProvisionStep::Stop(*i),
        ProvisionStep::Done(_) => ProvisionStep::Done(Ok(())),
    }
}

fn told(exchange: Exchange, symbol: &Symbol, positions: &Vec<Position>) -> (p: Position)
    ensures
        p == held_as_told(exchange, *symbol, positions@),
{
    let mut i: usize = positions.len();
    assert(positions@.take(i as int) =~= positions@);
    while i > 0
        invariant
            i <= positions.len(),
            held_as_told(exchange, *symbol, positions@) == held_as_told(exchange, *symbol, positions@.take(i as int)),
        decreases i,
    {
        assert(positions@.take(i as int).drop_last() =~= positions@.take(i - 1));
        if positions[i - 1].symbol == *symbol {
            return positions[i - 1].clone();
        }
        i = i - 1;
    }
    Position { exchange, symbol: symbol.clone(), size: 0 }
}

fn undo_steps(started: usize) -> (v: Vec<ProvisionStep>)
    ensures
        v@ == undoing(started as nat),
        forall|i: int| 0 <= i < v@.len() ==> !(#[trigger] v@[i] is Done),
{
    let mut v: Vec<ProvisionStep> = Vec::new();
    let mut i: usize = 0;
    while i < started
        invariant
            i <= started,
            v@ == undoing(i as nat),
            forall|j: int| 0 <= j < v@.len() ==> !(#[trigger] v@[j] is Done),
        decreases started - i,
    {
        v.push(ProvisionStep::Unregister(i));
        v.push(ProvisionStep::Stop(i));
        i = i + 1;
    }
    v
}

/// Whether a strategy of a part of the batch wants a stream.
spec fn wanted_so_far(wants: Seq<StrategyWants>, n: int, m: int, id: (Exchange, subscription::StreamKey)) -> bool {
    exists|i: int, j: int|
        0 <= i < wants.len() && 0 <= j < wants[i].streams@.len() && (i < n || (i == n && j < m))
            && (#[trigger] wants[i].streams@[j]).id() == id
}

/// The streams of a batch, each once.
pub fn aggregate(wants: &Vec<StrategyWants>) -> (t: StreamSet)
    ensures
        is_stream_list(t.entries(), wants@),
{
    let mut t: StreamSet = Table::new();
    let mut i: usize = 0;
    while i < wants.len()
        invariant
            i <= wants.len(),
            forall|id: (Exchange, subscription::StreamKey)| #[trigger] t@.dom().contains(id) == wanted_so_far(wants@, i as int, 0, id),
        decreases wants.len() - i,
    {
        let streams = &wants[i].streams;
        let mut j: usize = 0;
        while j < streams.len()
            invariant
                i < wants.len(),
                j <= streams.len(),
                streams@ == wants@[i as int].streams@,
                forall|id: (Exchange, subscription::StreamKey)| #[trigger] t@.dom().contains(id) == wanted_so_far(wants@, i as int, j as int, id),
            decreases streams.len() - j,
        {
            let ghost was = t@.dom();
            t.insert(streams[j].copy(), ());
            proof {
                let new = wants@[i as int].streams@[j as int].id();
                assert forall|id: (Exchange, subscription::StreamKey)| #[trigger] t@.dom().contains(id) == wanted_so_far(wants@, i as int, j + 1, id) by {
                    assert(t@.dom().contains(id) == (was.contains(id) || id == new));
                    if wanted_so_far(wants@, i as int, j as int, id) {
                        let (a, b) = choose|a: int, b: int|
                            0 <= a < wants@.len() && 0 <= b < wants@[a].streams@.len() && (a < i || (a == i && b < j))
                                && (#[trigger] wants@[a].streams@[b]).id() == id;
                        assert(wants@[a].streams@[b].id() == id);
                    }
                    if wanted_so_far(wants@, i as int, j + 1, id) && id != new {
                        let (a, b) = choose|a: int, b: int|
                            0 <= a < wants@.len() && 0 <= b < wants@[a].streams@.len() && (a < i || (a == i && b < j + 1))
                                && (#[trigger] wants@[a].streams@[b]).id() == id;
                        assert(wants@[a].streams@[b].id() == id);
                    }
                }
            }
            j = j + 1;
        }
        proof {
            assert forall|id: (Exchange, subscription::StreamKey)| #[trigger] t@.dom().contains(id) == wanted_so_far(wants@, i + 1, 0, id) by {
                if wanted_so_far(wants@, i as int, j as int, id) {
                    let (a, b) = choose|a: int, b: int|
                        0 <= a < wants@.len() && 0 <= b < wants@[a].streams@.len() && (a < i || (a == i && b < j))
                            && (#[trigger] wants@[a].streams@[b]).id() == id;
                    assert(wants@[a].streams@[b].id() == id);
                }
                if wanted_so_far(wants@, i + 1, 0, id) {
                    let (a, b) = choose|a: int, b: int|
                        0 <= a < wants@.len() && 0 <= b < wants@[a].streams@.len() && (a < i + 1 || (a == i + 1 && b < 0))
                            && (#[trigger] wants@[a].streams@[b]).id() == id;
                    assert(wants@[a].streams@[b].id() == id);
                }
            }
        }
        i = i + 1;
    }
    proof {
        use_type_invariant(&t);
        assert forall|id: (Exchange, subscription::StreamKey)| #[trigger] table::entries_map(t.entries()).dom().contains(id) == wanted(wants@, id) by {
            assert(t@.dom().contains(id) == wanted_so_far(wants@, i as int, 0, id));
            if wanted(wants@, id) {
                let (a, b) = choose|a: int, b: int|
                    0 <= a < wants@.len() && 0 <= b < wants@[a].streams@.len() && (#[trigger] wants@[a].streams@[b]).id() == id;
                assert(wants@[a].streams@[b].id() == id);
            }
        }
    }
    t
}

/// The streams, in their order.
pub(crate) fn stream_vec(t: &StreamSet) -> (v: Vec<(Exchange, SubscriptionKind)>)
    ensures
        v@.len() == t.entries().len(),
        forall|j: int| 0 <= j < v@.len() ==> #[trigger] v@[j] == t.entries()[j].0,
{
    let n = t.len();
    let mut v: Vec<(Exchange, SubscriptionKind)> = Vec::new();
    let mut i: usize = 0;
    while i < n
        invariant
            i <= n,
            n == t.entries().len(),
            v@.len() == i,
            forall|j: int| 0 <= j < i ==> #[trigger] v@[j] == t.entries()[j].0,
        decreases n - i,
    {
        v.push(t.key_at(i).copy());
        i = i + 1;
    }
    v
}

/// The instrument that identifies a stream.
spec fn key_symbol(key: subscription::StreamKey) -> Seq<char> {
    match key {
        subscription::StreamKey::BBO(s) => s,
        subscription::StreamKey::Trades(s) => s,
        subscription::StreamKey::MarkPrice(s) => s,
        subscription::StreamKey::FundingRate(s) => s,
        subscription::StreamKey::Candle(s, _) => s,
    }
}

proof fn lemma_legs_wanted(
    list: Seq<((Exchange, SubscriptionKind), ())>,
    v: Seq<(Exchange, SubscriptionKind)>,
    wants: Seq<StrategyWants>,
    leg: (Exchange, Seq<char>),
)
    requires
        is_stream_list(list, wants),
        v.len() == list.len(),
        forall|j: int| 0 <= j < v.len() ==> #[trigger] v[j] == list[j].0,
    ensures
        scope::leg_set(subscription::legs_of(v)).contains(leg) == leg_wanted(wants, leg),
{
    let legs = subscription::legs_of(v);
    assert(forall|k: SubscriptionKind| #[trigger] subscription::stream_symbol(k)@ == key_symbol(k@));
    if scope::leg_set(legs).contains(leg) {
        let j = choose|j: int| 0 <= j < legs.len() && (#[trigger] legs[j]).id() == leg;
        let id = list[j].0.id();
        table::lemma_entry_in_map(list, j);
        assert(table::entries_map(list).dom().contains(id));
        assert(wanted(wants, id));
        let (a, b) = choose|a: int, b: int|
            0 <= a < wants.len() && 0 <= b < wants[a].streams@.len() && (#[trigger] wants[a].streams@[b]).id() == id;
        assert(legs[j] == (v[j].0, subscription::stream_symbol(v[j].1)));
        assert(wants[a].streams@[b].0 == leg.0 && subscription::stream_symbol(wants[a].streams@[b].1)@ == leg.1);
    }
    if leg_wanted(wants, leg) {
        let (a, b) = choose|a: int, b: int|
            0 <= a < wants.len() && 0 <= b < wants[a].streams@.len() && (#[trigger] wants[a].streams@[b]).0 == leg.0
                && subscription::stream_symbol(wants[a].streams@[b].1)@ == leg.1;
        let id = wants[a].streams@[b].id();
        assert(wanted(wants, id));
        assert(table::entries_map(list).dom().contains(id));
        let j = choose|j: int| #[trigger] table::names(list, j, id);
        assert(v[j] == list[j].0);
        assert(legs[j].id() == leg);
    }
}

fn plan_steps(
    legs: &Vec<(Exchange, Symbol)>,
    venues: &Vec<Exchange>,
    strategies: usize,
    accounts: &Table<Exchange, ()>,
    adapters: &Table<Exchange, ()>,
) -> (v: Vec<ProvisionStep>)
    ensures
        v@ == plan(legs@, venues@, strategies as nat, accounts@.dom(), adapters@.dom()),
{
    let mut v: Vec<ProvisionStep> = Vec::new();
    let ghost a = clearing(legs@, accounts@.dom());
    let ghost b = reading(venues@, accounts@.dom());
    let mut i: usize = 0;
    assert(v@ =~= clearing(legs@.take(0), accounts@.dom()));
    while i < legs.len()
        invariant
            i <= legs.len(),
            v@ == clearing(legs@.take(i as int), accounts@.dom()),
        decreases legs.len() - i,
    {
        assert(legs@.take(i + 1).drop_last() =~= legs@.take(i as int));
        if accounts.contains_key(&legs[i].0) {
            v.push(ProvisionStep::CancelLeftovers(legs[i].0, legs[i].1.clone()));
        }
        i = i + 1;
    }
    assert(legs@.take(i as int) =~= legs@);
    i = 0;
    assert(v@ =~= a + reading(venues@.take(0), accounts@.dom()));
    while i < venues.len()
        invariant
            i <= venues.len(),
            v@ == a + reading(venues@.take(i as int), accounts@.dom()),
        decreases venues.len() - i,
    {
        let ghost earlier = reading(venues@.take(i as int), accounts@.dom());
        assert(venues@.take(i + 1).drop_last() =~= venues@.take(i as int));
        if accounts.contains_key(&venues[i]) {
            v.push(ProvisionStep::FetchPositions(venues[i]));
            assert(v@ =~= a + earlier.push(ProvisionStep::FetchPositions(venues@[i as int])));
        }
        i = i + 1;
    }
    assert(venues@.take(i as int) =~= venues@);
    i = 0;
    assert(v@ =~= a + b + spawning(0));
    while i < strategies
        invariant
            i <= strategies,
            v@ == a + b + spawning(i as nat),
        decreases strategies - i,
    {
        v.push(ProvisionStep::Spawn(i));
        assert(v@ =~= a + b + spawning((i + 1) as nat));
        i = i + 1;
    }
    v.push(ProvisionStep::RegisterMetrics);
    v.push(ProvisionStep::RegisterLedger);
    let ghost c = a + b + spawning(strategies as nat) + seq![ProvisionStep::RegisterMetrics, ProvisionStep::RegisterLedger];
    i = 0;
    assert(v@ =~= c + registering(0));
    while i < strategies
        invariant
            i <= strategies,
            v@ == c + registering(i as nat),
        decreases strategies - i,
    {
        v.push(ProvisionStep::RegisterExecutor(i));
        assert(v@ =~= c + registering((i + 1) as nat));
        i = i + 1;
    }
    let ghost d = c + registering(strategies as nat);
    i = 0;
    assert(v@ =~= d + subscribing(venues@.take(0), adapters@.dom()));
    while i < venues.len()
        invariant
            i <= venues.len(),
            v@ == d + subscribing(venues@.take(i as int), adapters@.dom()),
        decreases venues.len() - i,
    {
        let ghost earlier = subscribing(venues@.take(i as int), adapters@.dom());
        assert(venues@.take(i + 1).drop_last() =~= venues@.take(i as int));
        if adapters.contains_key(&venues[i]) {
            v.push(ProvisionStep::Subscribe(venues[i]));
            assert(v@ =~= d + earlier.push(ProvisionStep::Subscribe(venues@[i as int])));
        }
        i = i + 1;
    }
    assert(venues@.take(i as int) =~= venues@);
    v
}

proof fn lemma_plan_has_no_end(
    legs: Seq<(Exchange, Symbol)>,
    venues: Seq<Exchange>,
    strategies: nat,
    accounts: Set<Exchange>,
    adapters: Set<Exchange>,
)
    ensures
        forall|i: int|
            0 <= i < plan(legs, venues, strategies, accounts, adapters).len() ==> !(
            #[trigger] plan(legs, venues, strategies, accounts, adapters)[i] is Done),
{
    lemma_ranks(legs, venues, accounts, adapters);
    let p = plan(legs, venues, strategies, accounts, adapters);
    assert forall|i: int| 0 <= i < p.len() implies !(#[trigger] p[i] is Done) by {
        lemma_rank_at(
            clearing(legs, accounts),
            reading(venues, accounts),
            spawning(strategies),
            seq![ProvisionStep::RegisterMetrics, ProvisionStep::RegisterLedger],
            registering(strategies),
            subscribing(venues, adapters),
            i,
        );
    }
}

/// What is left over is cancelled on each leg of a venue with an account, each such venue is asked for
/// what is held, and each venue with an adapter sends its streams; in the order given, and no other.
pub proof fn venues_are_prepared_in_order(
    legs: Seq<(Exchange, Symbol)>,
    venues: Seq<Exchange>,
    accounts: Set<Exchange>,
    adapters: Set<Exchange>,
)
    ensures
        clearing(legs, accounts) == legs.filter(|l: (Exchange, Symbol)| accounts.contains(l.0)).map_values(
            |l: (Exchange, Symbol)| ProvisionStep::CancelLeftovers(l.0, l.1),
        ),
        reading(venues, accounts) == venues.filter(|e: Exchange| accounts.contains(e)).map_values(
            |e: Exchange| ProvisionStep::FetchPositions(e),
        ),
        subscribing(venues, adapters) == venues.filter(|e: Exchange| adapters.contains(e)).map_values(
            |e: Exchange| ProvisionStep::Subscribe(e),
        ),
    decreases legs.len(), venues.len(),
{
    table::lemma_picked(
        legs,
        |l: (Exchange, Symbol)| accounts.contains(l.0),
        |l: (Exchange, Symbol)| ProvisionStep::CancelLeftovers(l.0, l.1),
    );
    table::lemma_picked(venues, |e: Exchange| accounts.contains(e), |e: Exchange| ProvisionStep::FetchPositions(e));
    table::lemma_picked(venues, |e: Exchange| adapters.contains(e), |e: Exchange| ProvisionStep::Subscribe(e));
    if legs.len() > 0 {
        venues_are_prepared_in_order(legs.drop_last(), venues, accounts, adapters);
    }
    if venues.len() > 0 {
        venues_are_prepared_in_order(legs, venues.drop_last(), accounts, adapters);
    }
}

/// Between what is held being read and the streams being let in, every strategy is started, the metrics
/// and the ledger are told, and every strategy is let hear, each once and in its turn.
pub proof fn every_strategy_is_started_and_let_hear(
    legs: Seq<(Exchange, Symbol)>,
    venues: Seq<Exchange>,
    strategies: nat,
    accounts: Set<Exchange>,
    adapters: Set<Exchange>,
    i: int,
)
    requires
        0 <= i < strategies,
    ensures
        ({
            let steps = plan(legs, venues, strategies, accounts, adapters);
            let a = clearing(legs, accounts).len() as int + reading(venues, accounts).len();
            &&& steps.len() == a + 2 * strategies + 2 + subscribing(venues, adapters).len()
            &&& steps.take(a) == clearing(legs, accounts) + reading(venues, accounts)
            &&& steps[a + i] == ProvisionStep::Spawn(i as usize)
            &&& steps[a + strategies] is RegisterMetrics
            &&& steps[a + strategies + 1] is RegisterLedger
            &&& steps[a + strategies + 2 + i] == ProvisionStep::RegisterExecutor(i as usize)
            &&& steps.skip(a + 2 * strategies + 2) == subscribing(venues, adapters)
        }),
{
    let steps = plan(legs, venues, strategies, accounts, adapters);
    let a = clearing(legs, accounts).len() as int + reading(venues, accounts).len();
    assert(steps.take(a) =~= clearing(legs, accounts) + reading(venues, accounts));
    assert(steps.skip(a + 2 * strategies + 2) =~= subscribing(venues, adapters));
}

/// Undoing takes each strategy that was started off its events and then stops it, the first first.
pub proof fn each_started_strategy_is_undone_in_turn(started: nat, i: int)
    requires
        0 <= i < started,
    ensures
        undoing(started).len() == 2 * started,
        undoing(started)[2 * i] == ProvisionStep::Unregister(i as usize),
        undoing(started)[2 * i + 1] == ProvisionStep::Stop(i as usize),
    decreases started,
{
    reveal_with_fuel(undoing, 2);
    if started > 1 {
        each_started_strategy_is_undone_in_turn((started - 1) as nat, if i < started - 1 { i } else { 0 });
    }
}

/// What a venue says is held of an instrument is its last word on it, and nothing where it has none.
pub proof fn a_venues_last_word_is_held(exchange: Exchange, symbol: Symbol, positions: Seq<Position>, i: int)
    ensures
        0 <= i < positions.len() && positions[i].symbol@ == symbol@ && (forall|j: int|
            i < j < positions.len() ==> (#[trigger] positions[j]).symbol@ != symbol@) ==> held_as_told(
            exchange,
            symbol,
            positions,
        ) == positions[i],
        (forall|j: int| 0 <= j < positions.len() ==> (#[trigger] positions[j]).symbol@ != symbol@) ==> {
            let p = held_as_told(exchange, symbol, positions);
            p.exchange == exchange && p.symbol == symbol && p.size == 0
        },
    decreases positions.len(),
{
    if positions.len() > 0 {
        let rest = positions.drop_last();
        a_venues_last_word_is_held(exchange, symbol, rest, i);
        assert(positions[positions.len() - 1] == positions.last());
        assert forall|j: int| 0 <= j < rest.len() implies rest[j] == #[trigger] positions[j] by {}
    }
}

/// Each leg of the venue starts from what the venue said is held of it, as of when it was asked; what is
/// known of other legs stays.
pub proof fn a_venue_gives_the_baselines_of_its_legs(
    m: Map<(Exchange, Seq<char>), PositionBaseline>,
    legs: Seq<(Exchange, Symbol)>,
    exchange: Exchange,
    positions: Seq<Position>,
    at: Timestamp,
    i: int,
    other: (Exchange, Seq<char>),
)
    requires
        scope::distinct_legs(legs),
        0 <= i < legs.len(),
    ensures
        ({
            let after = with_venue(m, legs, exchange, positions, at);
            let leg = legs[i];
            &&& leg.0 == exchange ==> after[leg.id()].position == held_as_told(exchange, leg.1, positions)
                && after[leg.id()].snapshot_req_ts == at
            &&& other.0 != exchange || !scope::leg_set(legs).contains(other) ==> after.dom().contains(other)
                == m.dom().contains(other) && after[other] == m[other]
        }),
    decreases legs.len(),
{
    let rest = legs.drop_last();
    assert(legs.last() == legs[legs.len() - 1]);
    assert forall|a: int, b: int| 0 <= a < b < rest.len() implies (#[trigger] rest[a]).id() != (#[trigger] rest[b]).id() by {
        assert(legs[a].id() != legs[b].id());
    }
    if !scope::leg_set(legs).contains(other) {
        assert(legs[legs.len() - 1].id() != other);
        assert forall|a: int| 0 <= a < rest.len() implies (#[trigger] rest[a]).id() != other by {
            assert(legs[a].id() != other);
        }
        assert(!scope::leg_set(rest).contains(other));
    }
    if rest.len() > 0 {
        a_venue_gives_the_baselines_of_its_legs(
            m,
            rest,
            exchange,
            positions,
            at,
            if i < rest.len() { i } else { 0 },
            other,
        );
    } else {
        assert(with_venue(m, rest, exchange, positions, at) == m);
    }
    if i < rest.len() {
        assert(rest[i] == legs[i]);
        assert(legs[i].id() != legs[legs.len() - 1].id());
    }
}

/// A reply stops the start exactly when it tells of a failure, and what is given as the reason is the
/// failure told.
pub proof fn a_start_fails_for_what_it_was_told(reply: ProvisionReply, e: ExchangeError)
    ensures
        is_failure(reply) <==> match reply {
            ProvisionReply::LeftoversCancelled(r) => r is Err,
            ProvisionReply::Positions(_, _, r) => r is Err,
            ProvisionReply::MetricsRegistered(r) => r is Err,
            ProvisionReply::LedgerRegistered(r) => r is Err,
            ProvisionReply::ExecutorRegistered(_, r) => r is Err,
            ProvisionReply::Subscribed(r) => r is Err,
            _ => false,
        },
        fails_with(reply, e) ==> is_failure(reply),
        fails_with(reply, e) && reply is LeftoversCancelled ==> reply->LeftoversCancelled_0 == Err::<(), ExchangeError>(e),
        fails_with(reply, e) && reply is Subscribed ==> e == ExchangeError::Other(reply->Subscribed_0->Err_0),
{
}

/// The streams of a venue are all that are listed for it, in their order.
pub proof fn a_venue_gets_all_its_streams(list: Seq<((Exchange, SubscriptionKind), ())>, exchange: Exchange)
    ensures
        kinds_on(list, exchange) == list.filter(|s: ((Exchange, SubscriptionKind), ())| s.0.0 == exchange).map_values(
            |s: ((Exchange, SubscriptionKind), ())| s.0.1,
        ),
    decreases list.len(),
{
    table::lemma_picked(
        list,
        |s: ((Exchange, SubscriptionKind), ())| s.0.0 == exchange,
        |s: ((Exchange, SubscriptionKind), ())| s.0.1,
    );
    if list.len() > 0 {
        a_venue_gets_all_its_streams(list.drop_last(), exchange);
    }
}

/// A start as planned covers what its strategies want and nothing else: each leg that a stream names,
/// each venue with such a leg, and every stream once, each of which can be served. Nothing has been done
/// of it yet, and where there is no strategy there is nothing to do.
pub proof fn a_planned_start_covers_what_is_wanted(
    p: Provisioning,
    wants: Seq<StrategyWants>,
    accounts: Set<Exchange>,
    adapters: Set<Exchange>,
    capabilities: Map<Exchange, Capabilities>,
    metas: Map<(Exchange, Seq<char>), SymbolMeta>,
    exchange: Exchange,
    symbol: Seq<char>,
)
    requires
        is_planned(p, wants, accounts, adapters, capabilities, metas),
    ensures
        p.batch() == wants,
        p.given() == 0,
        p.failure() is None,
        p.started().len() == 0,
        p.at_work().len() == 0,
        p.known().dom() == Set::<(Exchange, Seq<char>)>::empty(),
        scope::distinct_legs(p.leg_list()),
        scope::leg_set(p.leg_list()).contains((exchange, symbol)) <==> exists|i: int, j: int|
            0 <= i < wants.len() && 0 <= j < wants[i].streams@.len() && (#[trigger] wants[i].streams@[j]).0 == exchange
                && subscription::stream_symbol(wants[i].streams@[j].1)@ == symbol,
        p.venue_list().no_duplicates(),
        p.venue_list().contains(exchange) <==> exists|i: int|
            0 <= i < p.leg_list().len() && (#[trigger] p.leg_list()[i]).0 == exchange,
        wants.len() == 0 ==> p.steps().len() == 0,
        wants.len() > 0 ==> p.steps() == plan(p.leg_list(), p.venue_list(), wants.len(), accounts, adapters),
        forall|k: int|
            0 <= k < p.stream_list().len() ==> provisioning::problem(
                (#[trigger] p.stream_list()[k]).0.0,
                p.stream_list()[k].0.1,
                capabilities,
                metas,
            ) is None,
{
    provisioning::accepted_means_every_stream_can_be_served(p.stream_list(), capabilities, metas);
    assert(scope::leg_set(p.leg_list()).contains((exchange, symbol)) == leg_wanted(wants, (exchange, symbol)));
    assert(p.venue_list().contains(exchange) == on_venue(p.leg_list(), exchange));
}

/// A strategy at work is registered as such: under its own id, for its account, with exactly the
/// instruments that its streams name.
pub proof fn a_strategy_is_registered_with_its_instruments(
    reg: RegisteredExecutor,
    id: ActorId,
    w: StrategyWants,
    symbol: Seq<char>,
)
    requires
        is_registration(reg, id, w),
    ensures
        reg.executor == id,
        reg.account == w.account,
        scope::listed(reg.symbols@, symbol) <==> exists|j: int|
            0 <= j < w.streams@.len() && subscription::stream_symbol((#[trigger] w.streams@[j]).1)@ == symbol,
{
    let legs = subscription::legs_of(w.streams@);
    assert(scope::listed(reg.symbols@, symbol) == scope::traded(scope::leg_set(legs), symbol));
    if scope::traded(scope::leg_set(legs), symbol) {
        let e = choose|e: Exchange| #[trigger] scope::leg_set(legs).contains((e, symbol));
        let i = choose|i: int| 0 <= i < legs.len() && (#[trigger] legs[i]).id() == (e, symbol);
        assert(subscription::stream_symbol(w.streams@[i].1)@ == symbol);
    }
    if exists|j: int| 0 <= j < w.streams@.len() && subscription::stream_symbol((#[trigger] w.streams@[j]).1)@ == symbol {
        let j = choose|j: int|
            0 <= j < w.streams@.len() && subscription::stream_symbol((#[trigger] w.streams@[j]).1)@ == symbol;
        assert(legs[j].id() == (w.streams@[j].0, symbol));
        assert(scope::leg_set(legs).contains((w.streams@[j].0, symbol)));
    }
}

/// Handing out a step changes nothing but how far the start has come.
pub proof fn handing_out_a_step_changes_nothing_else(a: Provisioning, b: Provisioning)
    requires
        same_but_given(a, b),
    ensures
        a.batch() == b.batch(),
        a.leg_list() == b.leg_list(),
        a.venue_list() == b.venue_list(),
        a.stream_list() == b.stream_list(),
        a.steps() == b.steps(),
        a.failure() == b.failure(),
        a.known() == b.known(),
        a.started() == b.started(),
        a.at_work() == b.at_work(),
{
}

/// Baselines that are told are those known, each of its own leg.
pub proof fn each_known_baseline_is_told(
    v: Seq<PositionBaseline>,
    known: Map<(Exchange, Seq<char>), PositionBaseline>,
    leg: (Exchange, Seq<char>),
)
    requires
        lists_each(v, known),
        known.dom().contains(leg),
    ensures
        v.contains(known[leg]),
{
    let legs = choose|legs: Seq<(Exchange, Seq<char>)>| #[trigger] lists(v, known, legs);
    assert(legs.to_set().contains(leg));
    let j = choose|j: int| 0 <= j < legs.len() && legs[j] == leg;
    assert(v[j] == known[legs[j]]);
}

/// A start is refused only for a stream that is wanted and cannot be served, and the refusal says so.
pub proof fn a_refused_start_names_its_problems(
    e: ExchangeError,
    wants: Seq<StrategyWants>,
    capabilities: Map<Exchange, Capabilities>,
    metas: Map<(Exchange, Seq<char>), SymbolMeta>,
)
    requires
        is_refused(e, wants, capabilities, metas),
    ensures
        exists|list: Seq<((Exchange, SubscriptionKind), ())>, k: int| {
            &&& is_stream_list(list, wants)
            &&& 0 <= k < list.len()
            &&& provisioning::problem((#[trigger] list[k]).0.0, list[k].0.1, capabilities, metas) is Some
            &&& crate::text::holds(
                domain::error_text(e),
                provisioning::problem(list[k].0.0, list[k].0.1, capabilities, metas)->0,
            )
        },
{
    let list = choose|list: Seq<((Exchange, SubscriptionKind), ())>| {
        &&& #[trigger] is_stream_list(list, wants)
        &&& provisioning::problems(list, capabilities, metas).len() > 0
        &&& e matches ExchangeError::Other(s)
        &&& provisioning::tells_all(s@, provisioning::problems(list, capabilities, metas))
    };
    let found = provisioning::problems(list, capabilities, metas);
    provisioning::accepted_means_every_stream_can_be_served(list, capabilities, metas);
    let k = choose|k: int|
        0 <= k < list.len() && !(provisioning::problem(
            (#[trigger] list[k]).0.0,
            list[k].0.1,
            capabilities,
            metas,
        ) is None);
    lemma_problem_is_found(list, capabilities, metas, k);
    let told = provisioning::problem(list[k].0.0, list[k].0.1, capabilities, metas)->0;
    let n = choose|n: int| 0 <= n < found.len() && found[n] == told;
    provisioning::a_refusal_names_every_problem(domain::error_text(e), found, n);
    assert(is_stream_list(list, wants) && provisioning::problem(list[k].0.0, list[k].0.1, capabilities, metas) is Some);
}

proof fn lemma_problem_is_found(
    list: Seq<((Exchange, SubscriptionKind), ())>,
    capabilities: Map<Exchange, Capabilities>,
    metas: Map<(Exchange, Seq<char>), SymbolMeta>,
    k: int,
)
    requires
        0 <= k < list.len(),
        provisioning::problem(list[k].0.0, list[k].0.1, capabilities, metas) is Some,
    ensures
        provisioning::problems(list, capabilities, metas).contains(
            provisioning::problem(list[k].0.0, list[k].0.1, capabilities, metas)->0,
        ),
    decreases list.len(),
{
    let told = provisioning::problem(list[k].0.0, list[k].0.1, capabilities, metas)->0;
    let rest = list.drop_last();
    let earlier = provisioning::problems(rest, capabilities, metas);
    let all = provisioning::problems(list, capabilities, metas);
    if k < rest.len() {
        assert(rest[k] == list[k]);
        lemma_problem_is_found(rest, capabilities, metas, k);
        let n = choose|n: int| 0 <= n < earlier.len() && earlier[n] == told;
        assert(all[n] == told);
    } else {
        assert(list[k] == list.last());
        assert(all[earlier.len() as int] == told);
    }
}

} // verus!
