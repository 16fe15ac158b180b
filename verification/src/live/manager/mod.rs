//! The engine's top: it puts strategies to work, takes them off, and watches over its parts.

use vstd::prelude::*;
use crate::domain::{AccountId, CustomEvent, Exchange, ExchangeError, OutcomeEvent, Symbol, SymbolMeta};
use crate::domain::{SymbolMetas, Timestamp};
use crate::event::{IncomeEvent, MarketData, MarketEvent};
use crate::live::income_processor;
use crate::live::income_processor::ActorId;
use crate::state::StateModel;
use crate::strategy::{AnyStrategy, Held, Strategy};
use crate::subscription::{Capabilities, SubscriptionKind};
use crate::table;
use crate::table::{Key, Table};

pub mod provision;
pub mod provisioning;
pub mod removal;
pub mod startup;

use provision::{Provisioning, StrategyWants};
use removal::{RegisteredExecutor, Removal};
use startup::{accounts_of, capabilities_of, Children, ExchangeSetup};

verus! {

/// Takes an account's strategies on some instruments off, and closes their positions if asked.
#[derive(Debug)]
pub struct RemoveStrategies {
    pub account: AccountId,
    pub symbols: Vec<Symbol>,
    /// Where positions are closed.
    pub exchange: Exchange,
    pub flatten: bool,
}

/// A strategy and the account that it trades for. One strategy may be put to work twice, on a
/// simulated account and on the real one.
pub struct StrategySpec {
    pub strategy: AnyStrategy,
    pub account: AccountId,
}

impl StrategySpec {
    /// A strategy on the real account.
    pub fn live(strategy: Box<dyn Strategy>) -> (s: Self)
        ensures
            s.account == AccountId::Live,
            forall|kinds: Seq<(Exchange, SubscriptionKind)>, bare: Seq<(Exchange, Option<Symbol>)>| #[trigger]
                s.strategy.may_want(kinds, bare) == strategy.may_want(kinds, bare),
            forall|ms: u64| #[trigger] s.strategy.may_wait(ms) == strategy.may_wait(ms),
            forall|k: nat, event: IncomeEvent, known: StateModel, ds: Seq<OutcomeEvent>| #[trigger]
                s.strategy.judgement()(k, event, known, ds) == strategy.may_decide(k, event, known, ds),
    {
        let held = Held { strategy };
        StrategySpec { strategy: held, account: AccountId::Live }
    }

    /// A strategy on the simulated account with this label.
    pub fn paper(strategy: Box<dyn Strategy>, label: String) -> (s: Self)
        ensures
            s.account == AccountId::Paper(label),
            forall|kinds: Seq<(Exchange, SubscriptionKind)>, bare: Seq<(Exchange, Option<Symbol>)>| #[trigger]
                s.strategy.may_want(kinds, bare) == strategy.may_want(kinds, bare),
            forall|ms: u64| #[trigger] s.strategy.may_wait(ms) == strategy.may_wait(ms),
            forall|k: nat, event: IncomeEvent, known: StateModel, ds: Seq<OutcomeEvent>| #[trigger]
                s.strategy.judgement()(k, event, known, ds) == strategy.may_decide(k, event, known, ds),
    {
        let held = Held { strategy };
        StrategySpec { strategy: held, account: AccountId::Paper(label) }
    }
}

/// Puts a strategy to work.
pub struct AddStrategy(pub StrategySpec);

/// Puts strategies to work, all or none.
pub struct AddStrategies(pub Vec<StrategySpec>);

/// Lets the engine wait for a part that was started elsewhere when it goes down.
#[derive(Clone, Copy, Debug, PartialEq, Eq, Structural)]
pub struct RegisterSupervisedChild(pub ActorId);

/// Sends strategies an event of one's own.
#[derive(Debug)]
pub struct PublishCustomEvent(pub CustomEvent);

/// Asks for the rules of all instruments.
#[derive(Clone, Copy, Debug, PartialEq, Eq, Structural)]
pub struct GetAllSymbolMetas;

/// A list of rules, put under their venue; of two under one name, the later counts.
pub open spec fn with_metas(
    m: Map<(Exchange, Seq<char>), SymbolMeta>,
    exchange: Exchange,
    metas: Seq<SymbolMeta>,
) -> Map<(Exchange, Seq<char>), SymbolMeta>
    decreases metas.len(),
{
    if metas.len() == 0 {
        m
    } else {
        with_metas(m, exchange, metas.drop_last()).insert((exchange, metas.last().symbol@), metas.last())
    }
}

/// Takes in the rules that a venue told.
pub fn preload_symbol_metas(symbol_metas: &mut SymbolMetas, exchange: Exchange, metas: &Vec<SymbolMeta>)
    ensures
        final(symbol_metas)@ == with_metas(old(symbol_metas)@, exchange, metas@),
{
    let ghost m = symbol_metas@;
    let mut i: usize = 0;
    assert(metas@.take(0) =~= Seq::<SymbolMeta>::empty());
    while i < metas.len()
        invariant
            i <= metas.len(),
            symbol_metas@ == with_metas(m, exchange, metas@.take(i as int)),
        decreases metas.len() - i,
    {
        assert(metas@.take(i + 1).drop_last() =~= metas@.take(i as int));
        symbol_metas.insert((exchange, metas[i].symbol.clone()), metas[i].clone());
        i = i + 1;
    }
    assert(metas@.take(i as int) =~= metas@);
}

/// The rules of one venue, by instrument.
pub open spec fn is_part(
    part: Map<Seq<char>, SymbolMeta>,
    all: Map<(Exchange, Seq<char>), SymbolMeta>,
    exchange: Exchange,
) -> bool {
    forall|symbol: Seq<char>|
        #![trigger part.dom().contains(symbol)]
        part.dom().contains(symbol) == all.dom().contains((exchange, symbol)) && (part.dom().contains(symbol)
            ==> part[symbol] == all[(exchange, symbol)])
}

/// The rules of one venue, by instrument.
pub fn get_symbol_metas_for(symbol_metas: &SymbolMetas, exchange: Exchange) -> (t: Table<Symbol, SymbolMeta>)
    ensures
        is_part(t@, symbol_metas@, exchange),
{
    let n = symbol_metas.len();
    let ghost e = symbol_metas.entries();
    let mut t: Table<Symbol, SymbolMeta> = Table::new();
    let mut i: usize = 0;
    while i < n
        invariant
            i <= n,
            n == e.len(),
            e == symbol_metas.entries(),
            table::distinct_keys(e),
            forall|j: int| 0 <= j < i && (#[trigger] e[j]).0.0 == exchange ==> t@.dom().contains(e[j].0.1@) && t@[e[j].0.1@] == e[j].1,
            forall|s: Seq<char>| #[trigger] t@.dom().contains(s) ==> symbol_metas@.dom().contains((exchange, s)),
        decreases n - i,
    {
        let (on, symbol) = symbol_metas.key_at(i);
        proof {
            table::lemma_entry_in_map(e, i as int);
            assert(e[i as int].0.id() == (e[i as int].0.0, e[i as int].0.1@));
        }
        if *on == exchange {
            let ghost was = t@;
            t.insert(symbol.clone(), symbol_metas.value_at(i).clone());
            proof {
                assert forall|j: int| 0 <= j < i + 1 && (#[trigger] e[j]).0.0 == exchange implies t@.dom().contains(e[j].0.1@) && t@[e[j].0.1@] == e[j].1 by {
                    if j < i {
                        assert(e[j].0.id() != e[i as int].0.id());
                    }
                }
            }
        }
        i = i + 1;
    }
    assert forall|s: Seq<char>| #![trigger t@.dom().contains(s)] t@.dom().contains(s) == symbol_metas@.dom().contains((exchange, s)) && (t@.dom().contains(s) ==> t@[s] == symbol_metas@[(exchange, s)]) by {
        if symbol_metas@.dom().contains((exchange, s)) {
            let j = choose|j: int| #[trigger] table::names(e, j, (exchange, s));
            table::lemma_entry_in_map(e, j);
            assert(e[j].0.0 == exchange);
        }
    }
    t
}

/// The rules on a venue, in the order in which they came.
pub open spec fn metas_on(entries: Seq<((Exchange, Symbol), SymbolMeta)>, exchange: Exchange) -> Seq<SymbolMeta>
    decreases entries.len(),
{
    if entries.len() == 0 {
        Seq::empty()
    } else {
        let earlier = metas_on(entries.drop_last(), exchange);
        if entries.last().0.0 == exchange {
            earlier.push(entries.last().1)
        } else {
            earlier
        }
    }
}

/// Whether the rules are grouped by venue: each venue that has rules is there, with all of them.
pub open spec fn is_grouped(
    groups: Map<Exchange, Vec<SymbolMeta>>,
    entries: Seq<((Exchange, Symbol), SymbolMeta)>,
) -> bool {
    forall|e: Exchange|
        #![trigger groups.dom().contains(e)]
        groups.dom().contains(e) == (metas_on(entries, e).len() > 0) && (groups.dom().contains(e) ==> groups[e]@
            == metas_on(entries, e))
}

/// What the engine keeps to put strategies to work and to take them off.
pub struct Provisioner {
    accounts: Table<Exchange, ()>,
    capabilities: Table<Exchange, Capabilities>,
    adapters: Table<Exchange, ()>,
    executors: Vec<RegisteredExecutor>,
}

impl Provisioner {
    /// The venues on which the engine has an account.
    pub closed spec fn account_set(&self) -> Set<Exchange> {
        self.accounts@.dom()
    }

    /// What the venues' adapters carry.
    pub closed spec fn carried(&self) -> Map<Exchange, Capabilities> {
        self.capabilities@
    }

    /// The venues whose adapter is at work.
    pub closed spec fn adapter_set(&self) -> Set<Exchange> {
        self.adapters@.dom()
    }

    /// The strategies that are at work.
    pub closed spec fn at_work(&self) -> Seq<RegisteredExecutor> {
        self.executors@
    }

    /// No strategy is at work.
    pub fn new(
        accounts: Table<Exchange, ()>,
        capabilities: Table<Exchange, Capabilities>,
        adapters: Table<Exchange, ()>,
    ) -> (p: Self)
        ensures
            p.account_set() == accounts@.dom(),
            p.carried() == capabilities@,
            p.adapter_set() == adapters@.dom(),
            p.at_work().len() == 0,
    {
        Provisioner { accounts, capabilities, adapters, executors: Vec::new() }
    }

    /// Whether something of the engine's may be left on a venue: only with an account can an order
    /// be placed there or a fill come from there. Putting strategies to work and taking them off
    /// both go by this.
    pub fn exchange_side_cleanup(accounts: &Table<Exchange, ()>, exchange: Exchange) -> (b: bool)
        ensures
            b == accounts@.dom().contains(exchange),
    {
        accounts.contains_key(&exchange)
    }

    /// Plans how strategies are put to work.
    pub fn plan_batch(&self, wants: Vec<StrategyWants>, symbol_metas: &SymbolMetas) -> (res: Result<
        Provisioning,
        ExchangeError,
    >)
        ensures
            match res {
                Ok(p) => provision::is_planned(
                    p,
                    wants@,
                    self.account_set(),
                    self.adapter_set(),
                    self.carried(),
                    symbol_metas@,
                ),
                Err(e) => provision::is_refused(e, wants@, self.carried(), symbol_metas@),
            },
    {
        Provisioning::new(wants, &self.accounts, &self.adapters, &self.capabilities, symbol_metas)
    }

    /// Takes over the strategies of a batch that came through; of one that did not, none.
    pub fn adopt(&mut self, batch: Provisioning)
        ensures
            final(self).account_set() == old(self).account_set(),
            final(self).carried() == old(self).carried(),
            final(self).adapter_set() == old(self).adapter_set(),
            final(self).at_work() == old(self).at_work() + (if batch.failure() is None {
                batch.at_work()
            } else {
                Seq::empty()
            }),
    {
        if batch.failed() {
            assert(self.executors@ + Seq::<RegisteredExecutor>::empty() =~= self.executors@);
            return;
        }
        let mut new = batch.into_registered();
        self.executors.append(&mut new);
    }

    /// Plans how strategies are taken off; those that go are no longer at work.
    pub fn remove(&mut self, msg: RemoveStrategies) -> (r: Removal)
        ensures
            final(self).account_set() == old(self).account_set(),
            final(self).carried() == old(self).carried(),
            final(self).adapter_set() == old(self).adapter_set(),
            final(self).at_work() == removal::staying(old(self).at_work(), msg.account@, msg.symbols@),
            removal::is_planned(r, msg, old(self).at_work(), old(self).account_set()),
    {
        let mut executors: Vec<RegisteredExecutor> = Vec::new();
        std::mem::swap(&mut executors, &mut self.executors);
        let has_account = Self::exchange_side_cleanup(&self.accounts, msg.exchange);
        let (removal, kept) = Removal::new(msg, executors, has_account);
        self.executors = kept;
        removal
    }
}

/// Taking strategies off goes by the same test as putting them to work: on a venue without an
/// account no order is cancelled by either.
pub proof fn both_ways_agree_on_a_venue_without_account(
    legs: Seq<(Exchange, Symbol)>,
    accounts: Set<Exchange>,
    exchange: Exchange,
    ids: Seq<ActorId>,
    ask: bool,
    targets: Seq<Symbol>,
    symbol: Symbol,
)
    requires
        !accounts.contains(exchange),
    ensures
        !provision::clearing(legs, accounts).contains(provision::ProvisionStep::CancelLeftovers(exchange, symbol)),
        !removal::plan(ids, ask, targets, accounts.contains(exchange)).contains(removal::RemovalStep::CancelLeftovers(symbol)),
{
    lemma_clearing(legs, accounts, exchange, symbol);
    lemma_stopping(ids, ask, symbol);
    let p = removal::plan(ids, ask, targets, false);
    let s = removal::stopping(ids, ask);
    assert forall|i: int| 0 <= i < p.len() implies p[i] != removal::RemovalStep::CancelLeftovers(symbol) by {
        assert(p[i] == s[i]);
        assert(s.contains(s[i]));
    }
}

proof fn lemma_clearing(legs: Seq<(Exchange, Symbol)>, accounts: Set<Exchange>, exchange: Exchange, symbol: Symbol)
    requires
        !accounts.contains(exchange),
    ensures
        !provision::clearing(legs, accounts).contains(provision::ProvisionStep::CancelLeftovers(exchange, symbol)),
    decreases legs.len(),
{
    if legs.len() > 0 {
        lemma_clearing(legs.drop_last(), accounts, exchange, symbol);
        let earlier = provision::clearing(legs.drop_last(), accounts);
        let all = provision::clearing(legs, accounts);
        assert forall|i: int| 0 <= i < all.len() implies all[i] != provision::ProvisionStep::CancelLeftovers(exchange, symbol) by {
            if i < earlier.len() {
                assert(all[i] == earlier[i]);
                assert(earlier.contains(earlier[i]));
            }
        }
    }
}

proof fn lemma_stopping(ids: Seq<ActorId>, ask: bool, symbol: Symbol)
    ensures
        !removal::stopping(ids, ask).contains(removal::RemovalStep::CancelLeftovers(symbol)),
    decreases ids.len(),
{
    if ids.len() > 0 {
        lemma_stopping(ids.drop_last(), ask, symbol);
        let earlier = removal::stopping(ids.drop_last(), ask);
        let all = removal::stopping(ids, ask);
        assert forall|i: int| 0 <= i < all.len() implies all[i] != removal::RemovalStep::CancelLeftovers(symbol) by {
            if i < earlier.len() {
                assert(all[i] == earlier[i]);
                assert(earlier.contains(earlier[i]));
            }
        }
    }
}

/// What the engine is set up with.
pub struct ManagerActorArgs {
    pub exchanges: Vec<ExchangeSetup>,
}

/// The engine's top.
pub struct ManagerActor {
    symbol_metas: SymbolMetas,
    provisioner: Provisioner,
    children: Children,
}

impl ManagerActor {
    /// The rules of every known leg.
    pub closed spec fn metas(&self) -> Map<(Exchange, Seq<char>), SymbolMeta> {
        self.symbol_metas@
    }

    /// The rules, in the order in which they came.
    pub closed spec fn meta_list(&self) -> Seq<((Exchange, Symbol), SymbolMeta)> {
        self.symbol_metas.entries()
    }

    /// What is kept to put strategies to work.
    pub closed spec fn provisioner(&self) -> Provisioner {
        self.provisioner
    }

    /// The parts that are running.
    pub closed spec fn children(&self) -> Children {
        self.children
    }

    /// The engine once its parts are up. `adapters` are the venues whose adapter came up.
    pub fn new(args: &ManagerActorArgs, symbol_metas: SymbolMetas, adapters: Table<Exchange, ()>, children: Children) -> (m: Self)
        ensures
            m.metas() == symbol_metas@,
            m.meta_list() == symbol_metas.entries(),
            m.children() == children,
            m.provisioner().account_set() == startup::account_venues(args.exchanges@),
            m.provisioner().carried() == startup::carried(args.exchanges@),
            m.provisioner().adapter_set() == adapters@.dom(),
            m.provisioner().at_work().len() == 0,
    {
        let provisioner = Provisioner::new(
            accounts_of(&args.exchanges),
            capabilities_of(&args.exchanges),
            adapters,
        );
        ManagerActor { symbol_metas, provisioner, children }
    }

    /// Plans how strategies are put to work. What a strategy wants is its own to say.
    pub fn add_strategies(&self, specs: &Vec<StrategySpec>) -> (res: Result<Provisioning, ExchangeError>)
        ensures
            exists|wants: Seq<StrategyWants>| #[trigger] are_of(wants, specs@) && match res {
                Ok(p) => provision::is_planned(
                    p,
                    wants,
                    self.provisioner().account_set(),
                    self.provisioner().adapter_set(),
                    self.provisioner().carried(),
                    self.metas(),
                ),
                Err(e) => provision::is_refused(e, wants, self.provisioner().carried(), self.metas()),
            },
    {
        let wants = wants_of(specs);
        assert(are_of(wants@, specs@));
        self.provisioner.plan_batch(wants, &self.symbol_metas)
    }

    /// Takes over the strategies of a batch that came through; of one that did not, none.
    pub fn adopt(&mut self, batch: Provisioning)
        ensures
            final(self).metas() == old(self).metas(),
            final(self).meta_list() == old(self).meta_list(),
            final(self).children() == old(self).children(),
            final(self).provisioner().account_set() == old(self).provisioner().account_set(),
            final(self).provisioner().carried() == old(self).provisioner().carried(),
            final(self).provisioner().adapter_set() == old(self).provisioner().adapter_set(),
            final(self).provisioner().at_work() == old(self).provisioner().at_work() + (
            if batch.failure() is None {
                batch.at_work()
            } else {
                Seq::empty()
            }),
    {
        self.provisioner.adopt(batch);
    }

    /// Plans how strategies are taken off.
    pub fn remove_strategies(&mut self, msg: RemoveStrategies) -> (r: Removal)
        ensures
            final(self).metas() == old(self).metas(),
            final(self).meta_list() == old(self).meta_list(),
            final(self).children() == old(self).children(),
            final(self).provisioner().account_set() == old(self).provisioner().account_set(),
            final(self).provisioner().carried() == old(self).provisioner().carried(),
            final(self).provisioner().adapter_set() == old(self).provisioner().adapter_set(),
            final(self).provisioner().at_work() == removal::staying(
                old(self).provisioner().at_work(),
                msg.account@,
                msg.symbols@,
            ),
            removal::is_planned(
                r,
                msg,
                old(self).provisioner().at_work(),
                old(self).provisioner().account_set(),
            ),
    {
        self.provisioner.remove(msg)
    }

    /// Has a strategy waited for when the engine goes down.
    pub fn producer_started(&mut self, id: ActorId)
        ensures
            final(self).children().producers@ == old(self).children().producers@.push(id),
            final(self).children().buses == old(self).children().buses,
            final(self).children().consumers == old(self).children().consumers,
            final(self).metas() == old(self).metas(),
            final(self).meta_list() == old(self).meta_list(),
            final(self).provisioner() == old(self).provisioner(),
    {
        self.children.producers.push(id);
    }

    /// Forgets a strategy, but only once it is sure to have stopped: one that has not is still to
    /// be waited for.
    pub fn producer_stopped(&mut self, id: ActorId, sure: bool)
        ensures
            final(self).children().producers@ == (if sure {
                income_processor::without(old(self).children().producers@, id)
            } else {
                old(self).children().producers@
            }),
            final(self).children().buses == old(self).children().buses,
            final(self).children().consumers == old(self).children().consumers,
            final(self).metas() == old(self).metas(),
            final(self).meta_list() == old(self).meta_list(),
            final(self).provisioner() == old(self).provisioner(),
    {
        if sure {
            self.children.remove_producer(id);
        }
    }

    /// Has a part that was started elsewhere waited for when the engine goes down.
    pub fn register_supervised_child(&mut self, msg: RegisterSupervisedChild)
        ensures
            final(self).children().consumers@ == old(self).children().consumers@.push(msg.0),
            final(self).children().buses == old(self).children().buses,
            final(self).children().producers == old(self).children().producers,
            final(self).metas() == old(self).metas(),
            final(self).meta_list() == old(self).meta_list(),
            final(self).provisioner() == old(self).provisioner(),
    {
        self.children.consumers.push(msg.0);
    }

    /// The groups of parts in the order in which they stop.
    pub fn on_stop(self) -> (groups: Vec<Vec<ActorId>>)
        ensures
            groups@ == seq![
                self.children().producers,
                self.children().buses,
                self.children().consumers,
            ],
    {
        self.children.shutdown()
    }

    /// The rules of all instruments, by venue.
    pub fn get_all_symbol_metas(&self) -> (groups: Table<Exchange, Vec<SymbolMeta>>)
        ensures
            is_grouped(groups@, self.meta_list()),
    {
        let n = self.symbol_metas.len();
        let ghost all = self.symbol_metas.entries();
        let mut groups: Table<Exchange, Vec<SymbolMeta>> = Table::new();
        let mut i: usize = 0;
        while i < n
            invariant
                i <= n,
                n == all.len(),
                all == self.symbol_metas.entries(),
                is_grouped(groups@, all.take(i as int)),
            decreases n - i,
        {
            let ghost before = groups@;
            let ghost now = all.take(i + 1);
            assert(now.drop_last() =~= all.take(i as int));
            let (exchange, _) = self.symbol_metas.key_at(i);
            assert(before.dom().contains(*exchange) == (metas_on(all.take(i as int), *exchange).len() > 0));
            let mut list = match groups.remove(exchange) {
                Some(list) => list,
                None => Vec::new(),
            };
            assert(list@ =~= metas_on(all.take(i as int), *exchange));
            list.push(self.symbol_metas.value_at(i).clone());
            groups.insert(*exchange, list);
            assert forall|e: Exchange| #![trigger groups@.dom().contains(e)] groups@.dom().contains(e) == (metas_on(now, e).len() > 0) && (groups@.dom().contains(e) ==> groups@[e]@ == metas_on(now, e)) by {
                assert(before.dom().contains(e) == (metas_on(all.take(i as int), e).len() > 0));
            }
            i = i + 1;
        }
        assert(all.take(i as int) =~= all);
        groups
    }
}

/// Whether these are what the strategies answer that they want, each with its account.
pub open spec fn are_of(wants: Seq<StrategyWants>, specs: Seq<StrategySpec>) -> bool {
    &&& wants.len() == specs.len()
    &&& forall|j: int| 0 <= j < wants.len() ==> (#[trigger] wants[j]).account == specs[j].account
        && specs[j].strategy.may_want(wants[j].streams@, wants[j].bare@)
}

/// Asks strategies what they want.
pub fn wants_of(specs: &Vec<StrategySpec>) -> (wants: Vec<StrategyWants>)
    ensures
        are_of(wants@, specs@),
{
    let mut wants: Vec<StrategyWants> = Vec::new();
    let mut i: usize = 0;
    while i < specs.len()
        invariant
            i <= specs.len(),
            wants@.len() == i,
            forall|j: int| 0 <= j < i ==> (#[trigger] wants@[j]).account == specs@[j].account
                && specs@[j].strategy.may_want(wants@[j].streams@, wants@[j].bare@),
        decreases specs.len() - i,
    {
        let streams = specs[i].strategy.public_streams();
        wants.push(
            StrategyWants { account: specs[i].account.clone(), streams: streams.kinds, bare: streams.bare },
        );
        i = i + 1;
    }
    wants
}

/// The event that carries one's own event to strategies, at the moment it is sent.
pub fn custom_market_event(msg: PublishCustomEvent, now: Timestamp) -> (e: MarketEvent)
    ensures
        e == (MarketEvent { exchange_ts: now, local_ts: now, data: MarketData::Custom(msg.0) }),
{
    MarketEvent { exchange_ts: now, local_ts: now, data: MarketData::Custom(msg.0) }
}

/// Of each instrument that a venue lists, the last rules listed are known from then on; rules of other
/// venues and of instruments that it does not list stay.
pub proof fn the_last_rules_listed_are_known(
    m: Map<(Exchange, Seq<char>), SymbolMeta>,
    exchange: Exchange,
    metas: Seq<SymbolMeta>,
    i: int,
    leg: (Exchange, Seq<char>),
)
    ensures
        0 <= i < metas.len() && leg == (exchange, metas[i].symbol@) && (forall|j: int|
            i < j < metas.len() ==> (#[trigger] metas[j]).symbol@ != metas[i].symbol@) ==> with_metas(
            m,
            exchange,
            metas,
        ).dom().contains(leg) && with_metas(m, exchange, metas)[leg] == metas[i],
        leg.0 != exchange || (forall|j: int| 0 <= j < metas.len() ==> (#[trigger] metas[j]).symbol@ != leg.1) ==> {
            &&& with_metas(m, exchange, metas).dom().contains(leg) == m.dom().contains(leg)
            &&& with_metas(m, exchange, metas)[leg] == m[leg]
        },
    decreases metas.len(),
{
    if metas.len() > 0 {
        let rest = metas.drop_last();
        the_last_rules_listed_are_known(m, exchange, rest, i, leg);
        assert(metas[metas.len() - 1] == metas.last());
        assert forall|j: int| 0 <= j < rest.len() implies rest[j] == #[trigger] metas[j] by {}
    }
}

/// The rules on a venue are all that are kept for it, in their order.
pub proof fn the_rules_on_a_venue_are_all_told(entries: Seq<((Exchange, Symbol), SymbolMeta)>, exchange: Exchange)
    ensures
        metas_on(entries, exchange) == entries.filter(
            |e: ((Exchange, Symbol), SymbolMeta)| e.0.0 == exchange,
        ).map_values(|e: ((Exchange, Symbol), SymbolMeta)| e.1),
    decreases entries.len(),
{
    table::lemma_picked(
        entries,
        |e: ((Exchange, Symbol), SymbolMeta)| e.0.0 == exchange,
        |e: ((Exchange, Symbol), SymbolMeta)| e.1,
    );
    if entries.len() > 0 {
        the_rules_on_a_venue_are_all_told(entries.drop_last(), exchange);
    }
}

/// The rules of one venue are those known of its legs, under their instruments.
pub proof fn a_venues_part_of_the_rules_is_its_own(
    part: Map<Seq<char>, SymbolMeta>,
    all: Map<(Exchange, Seq<char>), SymbolMeta>,
    exchange: Exchange,
    symbol: Seq<char>,
)
    requires
        is_part(part, all, exchange),
    ensures
        part.dom().contains(symbol) <==> all.dom().contains((exchange, symbol)),
        part.dom().contains(symbol) ==> part[symbol] == all[(exchange, symbol)],
{
}

/// Rules grouped by venue are all there, each with its venue, and no venue without rules is there.
pub proof fn rules_are_grouped_by_venue(
    groups: Map<Exchange, Vec<SymbolMeta>>,
    entries: Seq<((Exchange, Symbol), SymbolMeta)>,
    i: int,
)
    requires
        is_grouped(groups, entries),
        0 <= i < entries.len(),
    ensures
        groups.dom().contains(entries[i].0.0),
        groups[entries[i].0.0]@.contains(entries[i].1),
        forall|e: Exchange| #[trigger] groups.dom().contains(e) ==> groups[e]@.len() > 0,
{
    let e = entries[i].0.0;
    lemma_meta_on(entries, i);
    let p = choose|p: int| 0 <= p < metas_on(entries, e).len() && metas_on(entries, e)[p] == entries[i].1;
    assert(metas_on(entries, e).len() > 0);
    assert(groups.dom().contains(e));
    assert(groups[e]@[p] == entries[i].1);
}

proof fn lemma_meta_on(entries: Seq<((Exchange, Symbol), SymbolMeta)>, i: int)
    requires
        0 <= i < entries.len(),
    ensures
        metas_on(entries, entries[i].0.0).contains(entries[i].1),
    decreases entries.len(),
{
    let e = entries[i].0.0;
    let rest = entries.drop_last();
    let earlier = metas_on(rest, e);
    let all = metas_on(entries, e);
    if i < rest.len() {
        assert(rest[i] == entries[i]);
        lemma_meta_on(rest, i);
        let p = choose|p: int| 0 <= p < earlier.len() && earlier[p] == entries[i].1;
        assert(all[p] == entries[i].1);
    } else {
        assert(entries[i] == entries.last());
        assert(all[earlier.len() as int] == entries[i].1);
    }
}

/// What strategies want is asked of each in its place, for its own account.
pub proof fn wants_are_asked_of_each_strategy(wants: Seq<StrategyWants>, specs: Seq<StrategySpec>, i: int)
    requires
        are_of(wants, specs),
        0 <= i < specs.len(),
    ensures
        wants.len() == specs.len(),
        wants[i].account == specs[i].account,
        specs[i].strategy.may_want(wants[i].streams@, wants[i].bare@),
{
}

} // verus!
