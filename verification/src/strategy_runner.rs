//! Runs a strategy: keeps its state, hands it the events that concern it, and turns its decisions
//! into orders that a venue can take.
//!
//! Orders leave here in coins, rounded to what the venue trades; turning coins into lots is the
//! gateway's part.

use vstd::prelude::*;
use crate::amount;
use crate::domain;
use crate::domain::{Exchange, Order, OrderType, OutcomeEvent, PositionBaseline, Symbol, SymbolMeta};
use crate::domain::{SymbolMetas, Timestamp};
use crate::event;
use crate::event::{IncomeEvent, MarketStatus};
use crate::scope;
use crate::scope::SubscriptionScope;
use crate::state;
use crate::state::{StateManager, StateModel};
use crate::strategy;
use crate::strategy::{AnyStrategy, Held, Judgement, Strategy};
use crate::subscription;
use crate::table::Key;
use crate::subscription::{legs, SubscriptionKind};
use crate::text;
use crate::text::{joined, natural};

verus! {

/// Which ids a venue's order may get: the first argument says how many ids are given out before.
pub type IdSource = spec_fn(nat, Exchange, Seq<char>) -> bool;

/// What is left of a source once some ids have been given out.
pub open spec fn later(source: IdSource, given: nat) -> IdSource {
    |k: nat, exchange: Exchange, id: Seq<char>| source((k + given) as nat, exchange, id)
}

/// Gives out client order ids.
pub trait ClientOrderIdGen: Send {
    /// Whether it may give out this id on a venue, once it has given out `k` others.
    open spec fn may_give(&self, k: nat, exchange: Exchange, id: Seq<char>) -> bool {
        true
    }

    /// Gives out the next id.
    fn next_id(&mut self, exchange: Exchange) -> (id: String)
        ensures
            old(self).may_give(0, exchange, id@),
            forall|k: nat, e: Exchange, i: Seq<char>| #[trigger]
                final(self).may_give(k, e, i) == old(self).may_give((k + 1) as nat, e, i),
    ;
}

/// Holds a generator, whichever it is.
pub struct HeldGen<G> {
    pub id_gen: G,
}

/// A generator, whichever it is.
pub type AnyIdGen = HeldGen<Box<dyn ClientOrderIdGen>>;

impl HeldGen<Box<dyn ClientOrderIdGen>> {
    /// The ids that it may give out.
    pub open spec fn source(&self) -> IdSource {
        |k: nat, exchange: Exchange, id: Seq<char>| self.id_gen.may_give(k, exchange, id)
    }

    /// One that gives out random ids.
    pub fn random() -> (g: Self)
        ensures
            g.source() == own_ids(),
    {
        let id_gen: Box<dyn ClientOrderIdGen> = Box::new(ExchangeUuidGen);
        let g = HeldGen { id_gen };
        assert(g.source() =~= own_ids());
        g
    }

    /// Gives out the next id.
    pub fn next_id(&mut self, exchange: Exchange) -> (id: String)
        ensures
            old(self).source()(0, exchange, id@),
            final(self).source() == later(old(self).source(), 1),
    {
        let id = self.id_gen.next_id(exchange);
        assert(self.source() =~= later(old(self).source(), 1));
        id
    }
}

/// The ids that the engine knows as its own on each venue.
pub open spec fn own_ids() -> IdSource {
    |k: nat, exchange: Exchange, id: Seq<char>| domain::owns_id(exchange, id)
}

/// Random ids, as the venues want them.
pub struct ExchangeUuidGen;

impl ClientOrderIdGen for ExchangeUuidGen {
    open spec fn may_give(&self, k: nat, exchange: Exchange, id: Seq<char>) -> bool {
        domain::owns_id(exchange, id)
    }

    fn next_id(&mut self, exchange: Exchange) -> (id: String)
        ensures
            domain::owns_id(exchange, id@),
    {
        exchange.new_cli_order_id()
    }
}

/// Counted ids, the same in every run.
pub struct SequentialClientOrderIdGen {
    pub next: u64,
}

/// The number of the id that is given out after `k` others; the last number is given out again and
/// again.
pub open spec fn counted(next: u64, k: nat) -> nat {
    if next + k <= u64::MAX {
        (next + k) as nat
    } else {
        u64::MAX as nat
    }
}

/// Counted ids from a number on.
pub open spec fn counted_ids(next: u64) -> IdSource {
    |k: nat, exchange: Exchange, id: Seq<char>| id == "bt"@ + text::digits(counted(next, k))
}

impl Default for SequentialClientOrderIdGen {
    fn default() -> (g: Self)
        ensures
            g.next == 0,
    {
        SequentialClientOrderIdGen { next: 0 }
    }
}

impl ClientOrderIdGen for SequentialClientOrderIdGen {
    open spec fn may_give(&self, k: nat, exchange: Exchange, id: Seq<char>) -> bool {
        counted_ids(self.next)(k, exchange, id)
    }

    fn next_id(&mut self, exchange: Exchange) -> (id: String)
        ensures
            id@ == "bt"@ + text::digits(old(self).next as nat),
            final(self).next == if old(self).next < u64::MAX {
                old(self).next + 1
            } else {
                u64::MAX as int
            },
    {
        let id = joined("bt", natural(self.next as u128).as_str());
        self.next = self.next.saturating_add(1);
        id
    }
}

/// Runs a strategy.
pub struct StrategyRunner {
    strategy: AnyStrategy,
    state: StateManager,
    symbol_metas: SymbolMetas,
    subscriptions: SubscriptionScope,
    id_gen: AnyIdGen,
}

/// The order at the venue's precision: a quantity that it can trade, at a price that it quotes.
/// An order on a leg whose rules are not known stays as it is.
pub open spec fn at_precision(metas: Map<(Exchange, Seq<char>), SymbolMeta>, order: Order) -> Order {
    let leg = (order.exchange, order.symbol@);
    if metas.dom().contains(leg) {
        let meta = metas[leg];
        Order {
            quantity: amount::rounded_down(order.quantity as int, domain::coin_step(meta)) as i128,
            order_type: match order.order_type {
                OrderType::Market => OrderType::Market,
                OrderType::Limit { price, tif } => OrderType::Limit {
                    price: amount::clamp(
                        amount::rounded(price as int, meta.price_formatter.step as int),
                    ) as i128,
                    tif,
                },
            },
            ..order
        }
    } else {
        order
    }
}

/// The order under a client order id.
pub open spec fn named(order: Order, id: String) -> Order {
    Order { client_order_id: id, ..order }
}

/// What becomes of a decision's orders, given the ids that they get.
pub open spec fn sent_orders(
    metas: Map<(Exchange, Seq<char>), SymbolMeta>,
    orders: Seq<Order>,
    ids: Seq<String>,
) -> Seq<Order> {
    Seq::new(orders.len(), |i: int| at_precision(metas, named(orders[i], ids[i])))
}

/// The orders are noted as they were asked for, before rounding.
pub open spec fn noted(s: StateModel, orders: Seq<Order>, ids: Seq<String>, at: Timestamp) -> StateModel
    decreases orders.len(),
{
    if orders.len() == 0 {
        s
    } else {
        state::with_pending(
            noted(s, orders.drop_last(), ids.drop_last(), at),
            named(orders.last(), ids.last()),
            at,
        )
    }
}

/// The orders of a decision.
pub open spec fn orders_of(d: OutcomeEvent) -> Seq<Order> {
    match d {
        OutcomeEvent::PlaceOrders { orders, .. } => orders@,
        _ => Seq::empty(),
    }
}

/// Whether `out` is what becomes of the decision: its orders under their ids and at the venues'
/// precision, anything else as it is.
pub open spec fn is_carried_out(
    metas: Map<(Exchange, Seq<char>), SymbolMeta>,
    d: OutcomeEvent,
    ids: Seq<String>,
    out: OutcomeEvent,
) -> bool {
    match d {
        OutcomeEvent::PlaceOrders { orders, comment } => {
            &&& ids.len() == orders@.len()
            &&& out matches OutcomeEvent::PlaceOrders { orders: o, comment: c }
            &&& o@ == sent_orders(metas, orders@, ids)
            &&& c == comment
        },
        _ => ids.len() == 0 && out == d,
    }
}

/// The orders of several decisions are noted in turn.
pub open spec fn all_noted(
    s: StateModel,
    ds: Seq<OutcomeEvent>,
    ids: Seq<Seq<String>>,
    at: Timestamp,
) -> StateModel
    decreases ds.len(),
{
    if ds.len() == 0 {
        s
    } else {
        noted(
            all_noted(s, ds.drop_last(), ids.drop_last(), at),
            orders_of(ds.last()),
            ids.last(),
            at,
        )
    }
}

/// Whether `out` is what becomes of the decisions, one for one.
pub open spec fn all_carried_out(
    metas: Map<(Exchange, Seq<char>), SymbolMeta>,
    ds: Seq<OutcomeEvent>,
    ids: Seq<Seq<String>>,
    out: Seq<OutcomeEvent>,
) -> bool {
    &&& ids.len() == ds.len()
    &&& out.len() == ds.len()
    &&& forall|i: int| 0 <= i < ds.len() ==> is_carried_out(metas, ds[i], ids[i], #[trigger] out[i])
}

/// How many orders decisions ask for.
pub open spec fn order_count(ds: Seq<OutcomeEvent>) -> nat
    decreases ds.len(),
{
    if ds.len() == 0 {
        0
    } else {
        order_count(ds.drop_last()) + orders_of(ds.last()).len()
    }
}

/// Whether the orders of one decision have the next ids of a source, each an id for its venue.
pub open spec fn are_named(source: IdSource, orders: Seq<Order>, ids: Seq<String>) -> bool {
    &&& ids.len() == orders.len()
    &&& forall|j: int| 0 <= j < orders.len() ==> source(j as nat, orders[j].exchange, (#[trigger] ids[j])@)
}

/// Whether the orders of decisions have the next ids of a source, in turn.
pub open spec fn all_named(source: IdSource, ds: Seq<OutcomeEvent>, ids: Seq<Seq<String>>) -> bool {
    &&& ids.len() == ds.len()
    &&& forall|i: int| 0 <= i < ds.len() ==> are_named(
        later(source, order_count(ds.take(i))),
        orders_of(ds[i]),
        #[trigger] ids[i],
    )
}

/// Whether nothing is known yet but which instruments are followed: those of the legs.
pub open spec fn starts_blank(s: StateModel, legs: Set<(Exchange, Seq<char>)>) -> bool {
    &&& s.accounts == Map::<Exchange, state::AccountInfo>::empty()
    &&& s.statuses == Map::<Exchange, MarketStatus>::empty()
    &&& forall|name: Seq<char>| #[trigger]
        s.symbols.dom().contains(name) ==> scope::traded(legs, name) && s.symbols[name]
            == state::unknown_symbol()
    &&& forall|name: Seq<char>| #[trigger] scope::traded(legs, name) ==> s.symbols.dom().contains(name)
}

/// Whether the legs and the patience with orders are what the strategy answers with.
pub open spec fn follows(strategy: AnyStrategy, known: StateModel, legs: Set<(Exchange, Seq<char>)>) -> bool {
    &&& strategy.may_wait(known.order_timeout_ms)
    &&& exists|streams: Seq<(Exchange, SubscriptionKind)>, bare: Seq<(Exchange, Option<Symbol>)>| #[trigger]
        strategy.may_want(streams, bare) && legs == scope::leg_set(subscription::legs_of(streams))
}

impl StrategyRunner {
    /// The rules of the known legs.
    pub closed spec fn metas(&self) -> Map<(Exchange, Seq<char>), SymbolMeta> {
        self.symbol_metas@
    }

    /// What the strategy knows.
    pub closed spec fn known(&self) -> StateModel {
        self.state@
    }

    /// The legs that the strategy subscribes to.
    pub closed spec fn legs(&self) -> Set<(Exchange, Seq<char>)> {
        self.subscriptions@
    }

    /// The ids that the next orders may get.
    pub closed spec fn ids(&self) -> IdSource {
        self.id_gen.source()
    }

    /// What the strategy may decide.
    pub closed spec fn judgement(&self) -> Judgement {
        self.strategy.judgement()
    }

    /// A runner that gives out random ids.
    pub fn new(strategy: Box<dyn Strategy>, symbol_metas: SymbolMetas) -> (r: Self)
        ensures
            r.metas() == symbol_metas@,
            starts_blank(r.known(), r.legs()),
            strategy.may_wait(r.known().order_timeout_ms),
            exists|streams: Seq<(Exchange, SubscriptionKind)>, bare: Seq<(Exchange, Option<Symbol>)>| #[trigger]
                strategy.may_want(streams, bare) && r.legs() == scope::leg_set(subscription::legs_of(streams)),
            forall|k: nat, event: IncomeEvent, known: StateModel, ds: Seq<OutcomeEvent>| #[trigger]
                r.judgement()(k, event, known, ds) == strategy.may_decide(k, event, known, ds),
            r.ids() == own_ids(),
    {
        let held = Held { strategy };
        Self::asked(held, symbol_metas, AnyIdGen::random())
    }

    /// A runner with its own way to give out ids. It follows the instruments of the streams that
    /// the strategy wants, and knows nothing of them yet.
    pub fn with_id_gen(
        strategy: Box<dyn Strategy>,
        symbol_metas: SymbolMetas,
        id_gen: Box<dyn ClientOrderIdGen>,
    ) -> (r: Self)
        ensures
            r.metas() == symbol_metas@,
            starts_blank(r.known(), r.legs()),
            strategy.may_wait(r.known().order_timeout_ms),
            exists|streams: Seq<(Exchange, SubscriptionKind)>, bare: Seq<(Exchange, Option<Symbol>)>| #[trigger]
                strategy.may_want(streams, bare) && r.legs() == scope::leg_set(subscription::legs_of(streams)),
            forall|k: nat, event: IncomeEvent, known: StateModel, ds: Seq<OutcomeEvent>| #[trigger]
                r.judgement()(k, event, known, ds) == strategy.may_decide(k, event, known, ds),
            forall|k: nat, exchange: Exchange, id: Seq<char>| #[trigger]
                r.ids()(k, exchange, id) == id_gen.may_give(k, exchange, id),
    {
        let held = Held { strategy };
        let ids = HeldGen { id_gen };
        Self::asked(held, symbol_metas, ids)
    }

    pub(crate) fn asked(strategy: AnyStrategy, symbol_metas: SymbolMetas, id_gen: AnyIdGen) -> (r: Self)
        ensures
            r.metas() == symbol_metas@,
            starts_blank(r.known(), r.legs()),
            follows(strategy, r.known(), r.legs()),
            r.judgement() == strategy.judgement(),
            r.ids() == id_gen.source(),
    {
        let streams = strategy.public_streams();
        let order_timeout_ms = strategy.order_timeout_ms();
        Self::assembled(strategy, &legs(&streams.kinds), order_timeout_ms, symbol_metas, id_gen)
    }

    /// A runner for a strategy that wants these streams and gives up on an order after this long.
    /// It follows the instruments of the streams, and knows nothing of them yet.
    pub fn on_streams(
        strategy: Box<dyn Strategy>,
        streams: &Vec<(Exchange, SubscriptionKind)>,
        order_timeout_ms: u64,
        symbol_metas: SymbolMetas,
        id_gen: Box<dyn ClientOrderIdGen>,
    ) -> (r: Self)
        ensures
            r.metas() == symbol_metas@,
            r.legs() == scope::leg_set(subscription::legs_of(streams@)),
            r.known().order_timeout_ms == order_timeout_ms,
            starts_blank(r.known(), r.legs()),
            forall|k: nat, event: IncomeEvent, known: StateModel, ds: Seq<OutcomeEvent>| #[trigger]
                r.judgement()(k, event, known, ds) == strategy.may_decide(k, event, known, ds),
            forall|k: nat, exchange: Exchange, id: Seq<char>| #[trigger]
                r.ids()(k, exchange, id) == id_gen.may_give(k, exchange, id),
    {
        let held = Held { strategy };
        let ids = HeldGen { id_gen };
        Self::assembled(held, &legs(streams), order_timeout_ms, symbol_metas, ids)
    }

    pub(crate) fn assembled(
        strategy: AnyStrategy,
        pairs: &Vec<(Exchange, Symbol)>,
        order_timeout_ms: u64,
        symbol_metas: SymbolMetas,
        id_gen: AnyIdGen,
    ) -> (r: Self)
        ensures
            r.metas() == symbol_metas@,
            r.legs() == scope::leg_set(pairs@),
            r.known().order_timeout_ms == order_timeout_ms,
            starts_blank(r.known(), r.legs()),
            r.judgement() == strategy.judgement(),
            r.ids() == id_gen.source(),
    {
        let subscriptions = SubscriptionScope::from_pairs(pairs);
        let symbols = subscriptions.symbols();
        let state = StateManager::new(&symbols, order_timeout_ms);
        assert forall|name: Seq<char>| #[trigger] scope::traded(subscriptions@, name) implies state@.symbols.dom().contains(name) by {
            assert(scope::listed(symbols@, name));
        }
        assert forall|name: Seq<char>| #[trigger] state@.symbols.dom().contains(name) implies scope::traded(subscriptions@, name) && state@.symbols[name] == state::unknown_symbol() by {
            assert(scope::listed(symbols@, name));
        }
        StrategyRunner { strategy, state, symbol_metas, subscriptions, id_gen }
    }

    /// What the strategy knows.
    pub fn state(&self) -> (s: &StateManager)
        ensures
            s@ == self.known(),
    {
        &self.state
    }

    /// Writes the positions that the strategy starts from.
    pub fn seed_positions(&mut self, baselines: &Vec<PositionBaseline>)
        ensures
            final(self).known() == state::seeded_all(old(self).known(), baselines@),
            final(self).metas() == old(self).metas(),
            final(self).legs() == old(self).legs(),
            final(self).ids() == old(self).ids(),
            final(self).judgement() == old(self).judgement(),
    {
        self.state.seed_positions(baselines);
    }

    /// Whether the event concerns the strategy.
    pub fn accepts(&self, event: &IncomeEvent) -> (b: bool)
        ensures
            b == scope::concerns(self.legs(), event::reach(*event)),
    {
        self.subscriptions.accepts(event)
    }

    /// Cuts an order to the venue's precision; it stays in coins.
    fn round_to_exchange_precision(&self, order: Order) -> (r: Order)
        ensures
            r == at_precision(self.metas(), order),
            r.order_type is Market == order.order_type is Market,
            order.order_type is Limit ==> r.order_type->tif == order.order_type->tif,
    {
        let key = (order.exchange, order.symbol.clone());
        match self.symbol_metas.get(&key) {
            None => order,
            Some(meta) => {
                let quantity = meta.round_coin_size_down(order.quantity);
                let order_type = match order.order_type {
                    OrderType::Market => OrderType::Market,
                    OrderType::Limit { price, tif } => OrderType::Limit {
                        price: meta.round_price(price),
                        tif,
                    },
                };
                Order { quantity, order_type, ..order }
            },
        }
    }

    /// Makes an order ready under a client order id. It is noted as it was asked for, and comes
    /// out at the venue's precision.
    pub fn prepare_order(&mut self, order: Order, id: String, at: Timestamp) -> (r: Order)
        ensures
            r == at_precision(old(self).metas(), named(order, id)),
            is_same_request(order, r, id),
            final(self).known() == state::with_pending(old(self).known(), named(order, id), at),
            final(self).metas() == old(self).metas(),
            final(self).legs() == old(self).legs(),
            final(self).ids() == old(self).ids(),
            final(self).judgement() == old(self).judgement(),
    {
        let order = Order { client_order_id: id, ..order };
        self.state.add_pending_order(order.clone(), at);
        self.round_to_exchange_precision(order)
    }

    fn prepare_orders(&mut self, orders: &Vec<Order>, at: Timestamp) -> (res: (
        Vec<Order>,
        Ghost<Seq<String>>,
    ))
        ensures
            are_named(old(self).ids(), orders@, res.1@),
            final(self).ids() == later(old(self).ids(), orders@.len()),
            res.0@ == sent_orders(old(self).metas(), orders@, res.1@),
            final(self).known() == noted(old(self).known(), orders@, res.1@, at),
            final(self).metas() == old(self).metas(),
            final(self).legs() == old(self).legs(),
            final(self).judgement() == old(self).judgement(),
    {
        let mut out: Vec<Order> = Vec::new();
        let ghost mut ids: Seq<String> = Seq::empty();
        let ghost source = self.ids();
        let mut i: usize = 0;
        assert(later(source, 0) =~= source);
        while i < orders.len()
            invariant
                i <= orders.len(),
                source == old(self).ids(),
                are_named(source, orders@.take(i as int), ids),
                self.ids() == later(source, i as nat),
                out@ == sent_orders(old(self).metas(), orders@.take(i as int), ids),
                self.known() == noted(old(self).known(), orders@.take(i as int), ids, at),
                self.metas() == old(self).metas(),
                self.legs() == old(self).legs(),
                self.judgement() == old(self).judgement(),
            decreases orders.len() - i,
        {
            let exchange = orders[i].exchange;
            let ghost now = self.ids();
            let id = self.id_gen.next_id(exchange);
            let ghost next_ids = ids.push(id);
            proof {
                assert(now(0, exchange, id@));
                assert(later(source, i as nat)(0, exchange, id@));
                lemma_later_twice(source, i as nat, 1);
            }
            let order = self.prepare_order(orders[i].clone(), id, at);
            out.push(order);
            proof {
                assert(next_ids.drop_last() =~= ids);
                assert(orders@.take(i + 1).drop_last() =~= orders@.take(i as int));
                assert(out@ =~= sent_orders(old(self).metas(), orders@.take(i + 1), next_ids));
                assert forall|j: int| 0 <= j < i + 1 implies source(
                    j as nat,
                    orders@.take(i + 1)[j].exchange,
                    (#[trigger] next_ids[j])@,
                ) by {
                    if j < i {
                        assert(next_ids[j] == ids[j]);
                        assert(orders@.take(i as int)[j] == orders@[j]);
                    }
                }
                ids = next_ids;
            }
            i = i + 1;
        }
        assert(orders@.take(i as int) =~= orders@);
        (out, Ghost(ids))
    }

    /// Carries out what the strategy decided on an event that came in at `at`: every order gets the
    /// next id for its venue, is noted as it was asked for, and comes out at the venue's precision;
    /// other decisions pass unchanged.
    pub fn carry_out(&mut self, decisions: Vec<OutcomeEvent>, at: Timestamp) -> (out: Vec<OutcomeEvent>)
        ensures
            exists|ids: Seq<Seq<String>>|
                #[trigger] all_carried_out(old(self).metas(), decisions@, ids, out@) && all_named(
                    old(self).ids(),
                    decisions@,
                    ids,
                ) && final(self).known() == all_noted(old(self).known(), decisions@, ids, at),
            final(self).ids() == later(old(self).ids(), order_count(decisions@)),
            final(self).judgement() == old(self).judgement(),
            final(self).metas() == old(self).metas(),
            final(self).legs() == old(self).legs(),
    {
        let ghost ds = decisions@;
        let ghost source = self.ids();
        let mut left = decisions;
        let mut out: Vec<OutcomeEvent> = Vec::new();
        let ghost mut ids: Seq<Seq<String>> = Seq::empty();
        let n = left.len();
        let mut i: usize = 0;
        assert(later(source, 0) =~= source);
        while i < n
            invariant
                i <= n,
                n == ds.len(),
                source == old(self).ids(),
                left@ == ds.subrange(i as int, n as int),
                all_carried_out(old(self).metas(), ds.take(i as int), ids, out@),
                all_named(source, ds.take(i as int), ids),
                self.ids() == later(source, order_count(ds.take(i as int))),
                self.known() == all_noted(old(self).known(), ds.take(i as int), ids, at),
                self.judgement() == old(self).judgement(),
                self.metas() == old(self).metas(),
                self.legs() == old(self).legs(),
            decreases n - i,
        {
            let d = left.remove(0);
            assert(d == ds[i as int]);
            assert(left@ =~= ds.subrange(i + 1, n as int));
            let ghost metas = self.metas();
            let ghost before = out@;
            let ghost mut mine: Seq<String> = Seq::empty();
            let ghost now = self.ids();
            let ghost so_far = order_count(ds.take(i as int));
            match d {
                OutcomeEvent::PlaceOrders { orders, comment } => {
                    let (sent, Ghost(given)) = self.prepare_orders(&orders, at);
                    proof {
                        mine = given;
                    }
                    out.push(OutcomeEvent::PlaceOrders { orders: sent, comment });
                },
                other => {
                    out.push(other);
                    assert(later(now, 0) =~= now);
                },
            }
            proof {
                let next = ids.push(mine);
                let count = orders_of(ds[i as int]).len();
                assert(next.drop_last() =~= ids);
                assert(ds.take(i + 1).drop_last() =~= ds.take(i as int));
                assert(is_carried_out(metas, ds[i as int], mine, out@[i as int]));
                assert(self.ids() == later(now, count));
                lemma_later_twice(source, so_far, count);
                assert(are_named(now, orders_of(ds[i as int]), mine));
                assert forall|j: int| 0 <= j < i + 1 implies is_carried_out(
                    metas,
                    ds.take(i + 1)[j],
                    next[j],
                    #[trigger] out@[j],
                ) by {
                    if j < i {
                        assert(out@[j] == before[j]);
                        assert(is_carried_out(metas, ds.take(i as int)[j], ids[j], before[j]));
                    }
                }
                assert forall|j: int| 0 <= j < i + 1 implies are_named(
                    later(source, order_count(ds.take(i + 1).take(j))),
                    orders_of(ds.take(i + 1)[j]),
                    #[trigger] next[j],
                ) by {
                    assert(ds.take(i + 1).take(j) =~= ds.take(j));
                    if j < i {
                        assert(ds.take(i as int).take(j) =~= ds.take(j));
                        assert(next[j] == ids[j]);
                        assert(ds.take(i as int)[j] == ds[j]);
                    }
                }
                ids = next;
            }
            i = i + 1;
        }
        assert(ds.take(i as int) =~= ds);
        out
    }

    /// Takes in an event, lets the strategy decide on it with the event taken in, and carries out
    /// what it decides.
    pub fn on_event(&mut self, event: &IncomeEvent) -> (out: Vec<OutcomeEvent>)
        ensures
            exists|ds: Seq<OutcomeEvent>, ids: Seq<Seq<String>>|
                #[trigger] all_carried_out(old(self).metas(), ds, ids, out@) && all_named(old(self).ids(), ds, ids)
                    && old(self).judgement()(0, *event, state::applied(old(self).known(), *event), ds)
                    && final(self).known() == all_noted(
                    state::applied(old(self).known(), *event),
                    ds,
                    ids,
                    event::local_time(*event),
                ) && final(self).ids() == later(old(self).ids(), order_count(ds)),
            strategy::one_question_on(old(self).judgement(), final(self).judgement()),
            final(self).metas() == old(self).metas(),
            final(self).legs() == old(self).legs(),
    {
        self.state.apply(event);
        let decisions = self.strategy.on_event(event, &self.state);
        let ghost ds = decisions@;
        let ghost s1 = self.known();
        let at = event.local_ts();
        assert(old(self).judgement()(0, *event, s1, ds));
        let out = self.carry_out(decisions, at);
        proof {
            let ids = choose|ids: Seq<Seq<String>>|
                #[trigger] all_carried_out(old(self).metas(), ds, ids, out@) && all_named(old(self).ids(), ds, ids)
                    && self.known() == all_noted(s1, ds, ids, at);
            assert(all_carried_out(old(self).metas(), ds, ids, out@));
        }
        out
    }
}

proof fn lemma_later_twice(source: IdSource, a: nat, b: nat)
    ensures
        later(later(source, a), b) == later(source, a + b),
{
    assert(later(later(source, a), b) =~= later(source, a + b));
}

/// No two ids of a counted run are the same.
pub proof fn counted_ids_differ(a: nat, b: nat)
    requires
        a != b,
    ensures
        "bt"@ + text::digits(a) != "bt"@ + text::digits(b),
{
    let x = "bt"@ + text::digits(a);
    let y = "bt"@ + text::digits(b);
    if x == y {
        let n = "bt"@.len() as int;
        assert(x.skip(n) =~= text::digits(a));
        assert(y.skip(n) =~= text::digits(b));
        text::digits_are_unique(a, b);
    }
}

/// What a runner was asked to carry out in one call, and the ids that the orders got.
pub struct Call {
    pub decisions: Seq<OutcomeEvent>,
    pub ids: Seq<Seq<String>>,
}

/// How many ids were given out over some calls.
pub open spec fn given_out(calls: Seq<Call>) -> nat
    decreases calls.len(),
{
    if calls.len() == 0 {
        0
    } else {
        given_out(calls.drop_last()) + order_count(calls.last().decisions)
    }
}

/// Whether the calls took their ids from a source, one call after the other.
pub open spec fn is_run(source: IdSource, calls: Seq<Call>) -> bool {
    forall|c: int| 0 <= c < calls.len() ==> all_named(
        later(source, given_out(calls.take(c))),
        (#[trigger] calls[c]).decisions,
        calls[c].ids,
    )
}

/// Whether there is such an order: the `j`-th of the `i`-th decision of the `c`-th call.
pub open spec fn is_order(calls: Seq<Call>, c: int, i: int, j: int) -> bool {
    &&& 0 <= c < calls.len()
    &&& 0 <= i < calls[c].decisions.len()
    &&& 0 <= j < orders_of(calls[c].decisions[i]).len()
}

/// How many orders come before that one.
pub open spec fn place(calls: Seq<Call>, c: int, i: int, j: int) -> int {
    given_out(calls.take(c)) + order_count(calls[c].decisions.take(i)) + j
}

/// A run goes on: where a call takes its ids from what earlier calls left of the source, they are
/// one run with it, and leave what is left after all of them.
pub proof fn a_run_goes_on(source: IdSource, calls: Seq<Call>, call: Call)
    requires
        is_run(source, calls),
        all_named(later(source, given_out(calls)), call.decisions, call.ids),
    ensures
        is_run(source, calls.push(call)),
        later(later(source, given_out(calls)), order_count(call.decisions)) == later(
            source,
            given_out(calls.push(call)),
        ),
{
    let all = calls.push(call);
    assert(all.drop_last() =~= calls);
    lemma_later_twice(source, given_out(calls), order_count(call.decisions));
    assert forall|c: int| 0 <= c < all.len() implies all_named(
        later(source, given_out(all.take(c))),
        (#[trigger] all[c]).decisions,
        all[c].ids,
    ) by {
        if c < calls.len() {
            assert(all.take(c) =~= calls.take(c));
            assert(all[c] == calls[c]);
        } else {
            assert(all.take(c) =~= calls);
        }
    }
}

/// In a run that counts from nothing, an order before which there are `k` others has the id "bt"
/// and `k`, whatever its venue.
pub proof fn the_kth_order_has_the_kth_id(calls: Seq<Call>, c: int, i: int, j: int)
    requires
        is_run(counted_ids(0), calls),
        is_order(calls, c, i, j),
        place(calls, c, i, j) <= u64::MAX,
    ensures
        calls[c].ids[i][j]@ == "bt"@ + text::digits(place(calls, c, i, j) as nat),
{
    let before = given_out(calls.take(c));
    let ds = calls[c].decisions;
    let so_far = order_count(ds.take(i));
    assert(all_named(later(counted_ids(0), before), ds, calls[c].ids));
    assert(are_named(later(later(counted_ids(0), before), so_far), orders_of(ds[i]), calls[c].ids[i]));
    lemma_later_twice(counted_ids(0), before, so_far);
    assert(later(counted_ids(0), before + so_far)(j as nat, orders_of(ds[i])[j].exchange, calls[c].ids[i][j]@));
}

proof fn lemma_counts_grow(ds: Seq<OutcomeEvent>, i: int, n: int)
    requires
        0 <= i < n <= ds.len(),
    ensures
        order_count(ds.take(i)) + orders_of(ds[i]).len() <= order_count(ds.take(n)),
    decreases n - i,
{
    assert(ds.take(i + 1).drop_last() =~= ds.take(i));
    if i + 1 < n {
        lemma_counts_grow(ds, i + 1, n);
    }
}

proof fn lemma_given_out_grows(calls: Seq<Call>, c: int, n: int)
    requires
        0 <= c < n <= calls.len(),
    ensures
        given_out(calls.take(c)) + order_count(calls[c].decisions) <= given_out(calls.take(n)),
    decreases n - c,
{
    assert(calls.take(c + 1).drop_last() =~= calls.take(c));
    if c + 1 < n {
        lemma_given_out_grows(calls, c + 1, n);
    }
}

proof fn lemma_place_in_call(calls: Seq<Call>, c: int, i: int, j: int)
    requires
        is_order(calls, c, i, j),
    ensures
        place(calls, c, i, j) < given_out(calls.take(c)) + order_count(calls[c].decisions),
{
    let ds = calls[c].decisions;
    lemma_counts_grow(ds, i, ds.len() as int);
    assert(ds.take(ds.len() as int) =~= ds);
}

proof fn lemma_places_ascend(calls: Seq<Call>, c: int, i: int, j: int, c2: int, i2: int, j2: int)
    requires
        is_order(calls, c, i, j),
        is_order(calls, c2, i2, j2),
        c < c2 || (c == c2 && i < i2) || (c == c2 && i == i2 && j < j2),
    ensures
        place(calls, c, i, j) < place(calls, c2, i2, j2),
{
    if c < c2 {
        lemma_place_in_call(calls, c, i, j);
        lemma_given_out_grows(calls, c, c2);
    } else if i < i2 {
        lemma_counts_grow(calls[c].decisions, i, i2);
    }
}

/// No two orders of a run that counts from nothing have the same id.
pub proof fn no_two_orders_share_an_id(calls: Seq<Call>, c: int, i: int, j: int, c2: int, i2: int, j2: int)
    requires
        is_run(counted_ids(0), calls),
        is_order(calls, c, i, j),
        is_order(calls, c2, i2, j2),
        place(calls, c, i, j) <= u64::MAX,
        place(calls, c2, i2, j2) <= u64::MAX,
        c != c2 || i != i2 || j != j2,
    ensures
        calls[c].ids[i][j]@ != calls[c2].ids[i2][j2]@,
{
    if c < c2 || (c == c2 && i < i2) || (c == c2 && i == i2 && j < j2) {
        lemma_places_ascend(calls, c, i, j, c2, i2, j2);
    } else {
        lemma_places_ascend(calls, c2, i2, j2, c, i, j);
    }
    the_kth_order_has_the_kth_id(calls, c, i, j);
    the_kth_order_has_the_kth_id(calls, c2, i2, j2);
    counted_ids_differ(place(calls, c, i, j) as nat, place(calls, c2, i2, j2) as nat);
}

/// Whether two orders are the same to anyone who reads them.
pub open spec fn is_same_order(a: Order, b: Order) -> bool {
    a == (Order { client_order_id: a.client_order_id, ..b }) && a.client_order_id@ == b.client_order_id@
}

/// Whether two decisions are the same to anyone who reads them.
pub open spec fn is_same_outcome(a: OutcomeEvent, b: OutcomeEvent) -> bool {
    match a {
        OutcomeEvent::PlaceOrders { orders, comment } => {
            &&& b matches OutcomeEvent::PlaceOrders { orders: o, comment: c }
            &&& c == comment
            &&& o@.len() == orders@.len()
            &&& forall|j: int| 0 <= j < o@.len() ==> is_same_order(#[trigger] orders@[j], o@[j])
        },
        _ => a == b,
    }
}

/// Counted runs can be repeated: from the same number on, with the same rules and the same
/// decisions, the same comes out.
pub proof fn counted_runs_can_be_repeated(
    metas: Map<(Exchange, Seq<char>), SymbolMeta>,
    next: u64,
    ds: Seq<OutcomeEvent>,
    ids: Seq<Seq<String>>,
    out: Seq<OutcomeEvent>,
    ids2: Seq<Seq<String>>,
    out2: Seq<OutcomeEvent>,
)
    requires
        all_named(counted_ids(next), ds, ids),
        all_carried_out(metas, ds, ids, out),
        all_named(counted_ids(next), ds, ids2),
        all_carried_out(metas, ds, ids2, out2),
    ensures
        out.len() == out2.len(),
        forall|i: int| 0 <= i < out.len() ==> is_same_outcome(#[trigger] out[i], out2[i]),
{
    assert forall|i: int| 0 <= i < out.len() implies is_same_outcome(#[trigger] out[i], out2[i]) by {
        assert(is_carried_out(metas, ds[i], ids[i], out[i]));
        assert(is_carried_out(metas, ds[i], ids2[i], out2[i]));
        let source = later(counted_ids(next), order_count(ds.take(i)));
        assert(are_named(source, orders_of(ds[i]), ids[i]));
        assert(are_named(source, orders_of(ds[i]), ids2[i]));
        if let OutcomeEvent::PlaceOrders { orders, comment } = ds[i] {
            assert forall|j: int| 0 <= j < orders@.len() implies is_same_order(
                #[trigger] orders_of(out[i])[j],
                orders_of(out2[i])[j],
            ) by {
                assert(ids[i][j]@ == ids2[i][j]@);
            }
        }
    }
}

/// A runner knows the instruments of the streams, and those alone; and it accepts what is said of a
/// leg exactly when a stream carries that leg.
pub proof fn a_runner_follows_its_streams(
    streams: Seq<(Exchange, SubscriptionKind)>,
    known: StateModel,
    exchange: Exchange,
    name: Seq<char>,
)
    requires
        starts_blank(known, scope::leg_set(subscription::legs_of(streams))),
    ensures
        known.symbols.dom().contains(name) == (exists|k: int|
            0 <= k < streams.len() && subscription::stream_symbol((#[trigger] streams[k]).1)@ == name),
        scope::concerns(
            scope::leg_set(subscription::legs_of(streams)),
            event::Reach::Symbol(exchange, name),
        ) == (exists|k: int|
            0 <= k < streams.len() && (#[trigger] streams[k]).0 == exchange && subscription::stream_symbol(
                streams[k].1,
            )@ == name),
{
    let pairs = subscription::legs_of(streams);
    let legs = scope::leg_set(pairs);
    assert forall|e: Exchange, s: Seq<char>| #[trigger] legs.contains((e, s)) == (exists|k: int|
        0 <= k < streams.len() && (#[trigger] streams[k]).0 == e && subscription::stream_symbol(streams[k].1)@
            == s) by {
        if legs.contains((e, s)) {
            let k = choose|k: int| 0 <= k < pairs.len() && (#[trigger] pairs[k]).id() == (e, s);
            assert(streams[k].0 == e);
        }
        if exists|k: int|
            0 <= k < streams.len() && (#[trigger] streams[k]).0 == e && subscription::stream_symbol(streams[k].1)@
                == s {
            let k = choose|k: int|
                0 <= k < streams.len() && (#[trigger] streams[k]).0 == e && subscription::stream_symbol(
                    streams[k].1,
                )@ == s;
            assert(pairs[k].id() == (e, s));
        }
    }
    if exists|k: int| 0 <= k < streams.len() && subscription::stream_symbol((#[trigger] streams[k]).1)@ == name {
        let k = choose|k: int| 0 <= k < streams.len() && subscription::stream_symbol((#[trigger] streams[k]).1)@ == name;
        assert(legs.contains((streams[k].0, name)));
        assert(scope::traded(legs, name));
    }
    if known.symbols.dom().contains(name) {
        assert(scope::traded(legs, name));
    }
}

/// An order that comes out asks for no more than the strategy did, in the same direction on the
/// same leg.
pub proof fn rounding_asks_for_no_more(metas: Map<(Exchange, Seq<char>), SymbolMeta>, order: Order)
    ensures
        amount::abs(at_precision(metas, order).quantity as int) <= amount::abs(order.quantity as int),
        at_precision(metas, order).exchange == order.exchange,
        at_precision(metas, order).symbol == order.symbol,
        at_precision(metas, order).side == order.side,
        at_precision(metas, order).reduce_only == order.reduce_only,
        at_precision(metas, order).client_order_id == order.client_order_id,
{
    let leg = (order.exchange, order.symbol@);
    if metas.dom().contains(leg) && domain::coin_step(metas[leg]) > 0 {
        amount::rounding_down_never_adds(order.quantity as int, domain::coin_step(metas[leg]));
    }
}

/// Cutting an order to the venue's precision keeps its kind: a market order stays one, and a limit
/// order stays one with the same time in force, at a price that the venue quotes and that is no
/// further than half a price step from what was asked.
pub proof fn cutting_an_order_keeps_its_kind(metas: Map<(Exchange, Seq<char>), SymbolMeta>, order: Order)
    ensures
        at_precision(metas, order).order_type is Market == order.order_type is Market,
        order.order_type matches OrderType::Limit { price, tif } ==> {
            let cut = at_precision(metas, order).order_type;
            let step = metas[(order.exchange, order.symbol@)].price_formatter.step as int;
            &&& cut is Limit
            &&& cut->tif == tif
            &&& metas.dom().contains((order.exchange, order.symbol@)) && step > 0 && i128::MIN + step <= price
                <= i128::MAX - step ==> {
                &&& price - step <= 2 * cut->price - price <= price + step
                &&& cut->price as int % step == 0
            }
            &&& step <= 0 ==> cut->price == price
        },
{
    if let OrderType::Limit { price, tif } = order.order_type {
        let step = metas[(order.exchange, order.symbol@)].price_formatter.step as int;
        if step > 0 {
            amount::rounding_moves_at_most_half_a_step(price as int, step);
            amount::rounding_lands_on_a_step(price as int, step);
        }
    }
}

/// Cutting an order to the venue's precision takes from its quantity what the venue cannot trade and
/// no more: what is left is a whole number of the smallest quantities of coins, in the same
/// direction, and less than one of them short.
pub proof fn cutting_an_order_takes_less_than_a_step(metas: Map<(Exchange, Seq<char>), SymbolMeta>, order: Order)
    requires
        metas.dom().contains((order.exchange, order.symbol@)),
        ({
            let meta = metas[(order.exchange, order.symbol@)];
            0 < meta.size_step * meta.contract_size <= i128::MAX
        }),
    ensures
        ({
            let meta = metas[(order.exchange, order.symbol@)];
            let step = meta.size_step * meta.contract_size;
            let left = at_precision(metas, order).quantity as int;
            &&& left % step == 0
            &&& order.quantity >= 0 ==> 0 <= left <= order.quantity < left + step
            &&& order.quantity <= 0 ==> left - step < order.quantity <= left <= 0
        }),
{
    let meta = metas[(order.exchange, order.symbol@)];
    amount::rounding_down_never_adds(order.quantity as int, domain::coin_step(meta));
}

/// An order on a leg whose rules are not known goes out as it was asked for.
pub proof fn an_unknown_leg_is_not_rounded(metas: Map<(Exchange, Seq<char>), SymbolMeta>, order: Order)
    requires
        !metas.dom().contains((order.exchange, order.symbol@)),
    ensures
        at_precision(metas, order) == order,
{
}

/// Whether an order is the one asked for but for what the venue's precision and the id given change:
/// same venue, instrument, side, kind, time in force and effect.
pub open spec fn is_same_request(asked: Order, out: Order, id: String) -> bool {
    &&& out.id == asked.id
    &&& out.exchange == asked.exchange
    &&& out.symbol == asked.symbol
    &&& out.side == asked.side
    &&& out.reduce_only == asked.reduce_only
    &&& out.client_order_id == id
    &&& out.order_type is Market == asked.order_type is Market
    &&& asked.order_type is Limit ==> out.order_type->tif == asked.order_type->tif
}

/// What goes out is what was decided, in its order: as many decisions, each of orders with as many
/// orders, each of them the one asked for under its own id; anything else untouched.
pub proof fn what_goes_out_is_what_was_decided(
    metas: Map<(Exchange, Seq<char>), SymbolMeta>,
    ds: Seq<OutcomeEvent>,
    ids: Seq<Seq<String>>,
    out: Seq<OutcomeEvent>,
    i: int,
)
    requires
        all_carried_out(metas, ds, ids, out),
        0 <= i < ds.len(),
    ensures
        out.len() == ds.len(),
        match ds[i] {
            OutcomeEvent::PlaceOrders { orders, comment } => {
                &&& out[i] is PlaceOrders
                &&& out[i]->comment == comment
                &&& out[i]->orders@.len() == orders@.len()
                &&& forall|j: int|
                    0 <= j < orders@.len() ==> is_same_request(
                        #[trigger] orders@[j],
                        out[i]->orders@[j],
                        ids[i][j],
                    )
            },
            _ => out[i] == ds[i],
        },
{
    assert(is_carried_out(metas, ds[i], ids[i], out[i]));
    if let OutcomeEvent::PlaceOrders { orders, comment } = ds[i] {
        assert forall|j: int| 0 <= j < orders@.len() implies is_same_request(
            #[trigger] orders@[j],
            out[i]->orders@[j],
            ids[i][j],
        ) by {
            cutting_an_order_keeps_its_kind(metas, named(orders@[j], ids[i][j]));
        }
    }
}

/// Whether a state's table of orders under way holds the order under its id: as it was asked for,
/// since then, and with no word from the venue yet.
pub open spec fn awaits(s: StateModel, order: Order, id: String, at: Timestamp) -> bool {
    let pending = s.symbols[order.symbol@].pending;
    &&& pending.dom().contains(id@)
    &&& pending[id@].created_at == at
    &&& !pending[id@].acknowledged
    &&& pending[id@].order.exchange == order.exchange
    &&& pending[id@].order.symbol == order.symbol
    &&& pending[id@].order.side == order.side
    &&& pending[id@].order.order_type == order.order_type
    &&& pending[id@].order.quantity == order.quantity
    &&& pending[id@].order.reduce_only == order.reduce_only
    &&& pending[id@].order.id == order.id
    &&& pending[id@].order.client_order_id == id
}

/// Noting orders changes nothing but which orders are under way, and that for their own ids alone.
pub proof fn noting_orders_touches_nothing_else(
    s: StateModel,
    orders: Seq<Order>,
    ids: Seq<String>,
    at: Timestamp,
    name: Seq<char>,
    id: Seq<char>,
)
    requires
        ids.len() == orders.len(),
    ensures
        ({
            let after = noted(s, orders, ids, at);
            &&& after.symbols.dom() == s.symbols.dom()
            &&& after.accounts == s.accounts
            &&& after.statuses == s.statuses
            &&& after.order_timeout_ms == s.order_timeout_ms
            &&& s.symbols.dom().contains(name) ==> {
                &&& after.symbols[name].positions == s.symbols[name].positions
                &&& after.symbols[name].seeded == s.symbols[name].seeded
                &&& after.symbols[name].bbos == s.symbols[name].bbos
                &&& (forall|j: int| 0 <= j < ids.len() ==> (#[trigger] ids[j])@ != id) ==> {
                    &&& after.symbols[name].pending.dom().contains(id) == s.symbols[name].pending.dom().contains(id)
                    &&& after.symbols[name].pending[id] == s.symbols[name].pending[id]
                }
            }
        }),
    decreases orders.len(),
{
    if orders.len() > 0 {
        noting_orders_touches_nothing_else(s, orders.drop_last(), ids.drop_last(), at, name, id);
        let before = noted(s, orders.drop_last(), ids.drop_last(), at);
        assert(noted(s, orders, ids, at).symbols.dom() =~= before.symbols.dom());
        assert(ids.last() == ids[ids.len() - 1]);
        assert forall|j: int| 0 <= j < ids.drop_last().len() implies ids.drop_last()[j] == #[trigger] ids[j] by {}
    }
}

/// Every order of a decision is under way once noted, if its instrument is followed and no later
/// order of the decision took its id.
pub proof fn every_noted_order_is_awaited(
    s: StateModel,
    orders: Seq<Order>,
    ids: Seq<String>,
    at: Timestamp,
    j: int,
)
    requires
        ids.len() == orders.len(),
        0 <= j < orders.len(),
        s.symbols.dom().contains(orders[j].symbol@),
        forall|k: int| j < k < ids.len() ==> (#[trigger] ids[k])@ != ids[j]@,
    ensures
        awaits(noted(s, orders, ids, at), orders[j], ids[j], at),
    decreases orders.len(),
{
    let before = noted(s, orders.drop_last(), ids.drop_last(), at);
    noting_orders_touches_nothing_else(s, orders.drop_last(), ids.drop_last(), at, orders[j].symbol@, ids[j]@);
    if j < orders.len() - 1 {
        assert(ids.drop_last()[j] == ids[j]);
        assert(orders.drop_last()[j] == orders[j]);
        assert forall|k: int| j < k < ids.drop_last().len() implies (#[trigger] ids.drop_last()[k])@ != ids[j]@ by {
            assert(ids.drop_last()[k] == ids[k]);
        }
        every_noted_order_is_awaited(s, orders.drop_last(), ids.drop_last(), at, j);
        assert(ids.last()@ != ids[j]@) by {
            assert(ids[ids.len() - 1]@ != ids[j]@);
        }
    }
}

/// Every order of every decision is under way once the decisions have been noted, if its instrument
/// is followed and no later order took its id.
pub proof fn every_order_sent_is_awaited(
    s: StateModel,
    ds: Seq<OutcomeEvent>,
    ids: Seq<Seq<String>>,
    at: Timestamp,
    i: int,
    j: int,
)
    requires
        ids.len() == ds.len(),
        forall|k: int| 0 <= k < ds.len() ==> (#[trigger] ids[k]).len() == orders_of(ds[k]).len(),
        0 <= i < ds.len(),
        0 <= j < orders_of(ds[i]).len(),
        s.symbols.dom().contains(orders_of(ds[i])[j].symbol@),
        forall|k: int, l: int|
            0 <= k < ids.len() && 0 <= l < ids[k].len() && (k > i || k == i && l > j) ==> (#[trigger] ids[k][l])@
                != ids[i][j]@,
    ensures
        awaits(all_noted(s, ds, ids, at), orders_of(ds[i])[j], ids[i][j], at),
    decreases ds.len(),
{
    let before = all_noted(s, ds.drop_last(), ids.drop_last(), at);
    let order = orders_of(ds[i])[j];
    lemma_decisions_keep_the_instruments(s, ds.drop_last(), ids.drop_last(), at);
    assert(ids.last() == ids[ids.len() - 1]);
    assert(ds.last() == ds[ds.len() - 1]);
    if i < ds.len() - 1 {
        assert(ids.drop_last()[i] == ids[i]);
        assert(ds.drop_last()[i] == ds[i]);
        assert forall|k: int| 0 <= k < ds.drop_last().len() implies (#[trigger] ids.drop_last()[k]).len() == orders_of(
            ds.drop_last()[k],
        ).len() by {
            assert(ids[k].len() == orders_of(ds[k]).len());
        }
        assert forall|k: int, l: int|
            0 <= k < ids.drop_last().len() && 0 <= l < ids.drop_last()[k].len() && (k > i || k == i && l
                > j) implies (#[trigger] ids.drop_last()[k][l])@ != ids[i][j]@ by {
            assert(ids[k][l]@ != ids[i][j]@);
        }
        every_order_sent_is_awaited(s, ds.drop_last(), ids.drop_last(), at, i, j);
        assert forall|l: int| 0 <= l < ids.last().len() implies (#[trigger] ids.last()[l])@ != ids[i][j]@ by {
            assert(ids[ids.len() - 1][l]@ != ids[i][j]@);
        }
        noting_orders_touches_nothing_else(before, orders_of(ds.last()), ids.last(), at, order.symbol@, ids[i][j]@);
    } else {
        assert forall|l: int| j < l < ids.last().len() implies (#[trigger] ids.last()[l])@ != ids.last()[j]@ by {
            assert(ids[i][l]@ != ids[i][j]@);
        }
        every_noted_order_is_awaited(before, orders_of(ds.last()), ids.last(), at, j);
    }
}

proof fn lemma_decisions_keep_the_instruments(
    s: StateModel,
    ds: Seq<OutcomeEvent>,
    ids: Seq<Seq<String>>,
    at: Timestamp,
)
    requires
        ids.len() == ds.len(),
    ensures
        all_noted(s, ds, ids, at).symbols.dom() == s.symbols.dom(),
    decreases ds.len(),
{
    if ds.len() > 0 {
        lemma_decisions_keep_the_instruments(s, ds.drop_last(), ids.drop_last(), at);
        let before = all_noted(s, ds.drop_last(), ids.drop_last(), at);
        lemma_noting_keeps_the_instruments(before, orders_of(ds.last()), ids.last(), at);
    }
}

proof fn lemma_noting_keeps_the_instruments(s: StateModel, orders: Seq<Order>, ids: Seq<String>, at: Timestamp)
    ensures
        noted(s, orders, ids, at).symbols.dom() == s.symbols.dom(),
    decreases orders.len(),
{
    if orders.len() > 0 {
        lemma_noting_keeps_the_instruments(s, orders.drop_last(), ids.drop_last(), at);
        let before = noted(s, orders.drop_last(), ids.drop_last(), at);
        assert(noted(s, orders, ids, at).symbols.dom() =~= before.symbols.dom());
    }
}

/// Counted ids go up by one from the first number on.
pub proof fn counted_ids_go_up_by_one(next: u64, k: nat, exchange: Exchange, id: Seq<char>)
    requires
        next + k <= u64::MAX,
    ensures
        counted_ids(next)(k, exchange, id) <==> id == "bt"@ + text::digits((next + k) as nat),
{
}

/// Random ids are such as the engine knows for its own on the venue.
pub proof fn random_ids_are_known_for_own(k: nat, exchange: Exchange, id: Seq<char>)
    requires
        own_ids()(k, exchange, id),
    ensures
        text::has_prefix(id, domain::cli_order_prefix(exchange)),
{
}

} // verus!
