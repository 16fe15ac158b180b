//! The simulated counter: it stands where the venues stand for the real account.
//!
//! Market data is the real one; only the orders end here. Each account has a counter of its own
//! on each venue, which is opened by its first order.

use vstd::prelude::*;
use vstd::string::StringExecFns;
use crate::amount;
use crate::domain::{AccountId, AccountKey, Exchange, Money, Order, OutcomeEvent, Price, Quantity};
use crate::domain::{Symbol, SymbolMeta, SymbolMetas, Timestamp};
use crate::event::{AccountData, AccountEvent, MarketData, MarketEvent, MarketTrade, BBO};
use crate::live::AccountOutcome;
use crate::sim;
use crate::sim::{SimConfig, SimModel, SimState};
use crate::table;
use crate::table::{Key, Table};
use crate::text;
use crate::text::{joined, natural};

verus! {

/// What the counter is set up with.
pub struct PaperCounterArgs {
    pub config: SimConfig,
    pub symbol_metas: SymbolMetas,
}

/// An order that has travelled to the counter.
#[derive(Debug)]
pub struct ApplyPlace {
    pub account: AccountId,
    pub order: Order,
    pub order_id: String,
}

/// A cancellation that has travelled to the counter.
#[derive(Debug)]
pub struct ApplyCancel {
    pub account: AccountId,
    pub exchange: Exchange,
    pub order_id: String,
}

/// What travels to the counter.
#[derive(Debug)]
pub enum CounterRequest {
    Place(ApplyPlace),
    Cancel(ApplyCancel),
}

/// The id of the counter's n-th order.
pub open spec fn paper_order_id(n: nat) -> Seq<char> {
    "paper-"@ + text::digits(n)
}

/// No two orders of the counter share an id.
pub proof fn paper_ids_differ(a: nat, b: nat)
    requires
        a != b,
    ensures
        paper_order_id(a) != paper_order_id(b),
{
    let k = "paper-"@.len() as int;
    let (x, y) = (paper_order_id(a), paper_order_id(b));
    if x == y {
        assert(text::digits(a) =~= x.subrange(k, x.len() as int));
        assert(text::digits(b) =~= y.subrange(k, y.len() as int));
        text::digits_are_unique(a, b);
    }
}

/// One account's counter on one venue.
struct Counter {
    account: AccountId,
    exchange: Exchange,
    state: SimState,
}

/// One account's counter on one venue.
#[verifier::ext_equal]
pub struct CounterView {
    pub account: AccountId,
    pub exchange: Exchange,
    pub venue: SimModel,
}

/// The simulated counter.
#[verifier::ext_equal]
pub struct CounterModel {
    pub counters: Seq<CounterView>,
    pub quotes: Map<(Exchange, Seq<char>), BBO>,
    pub metas: Map<(Exchange, Seq<char>), SymbolMeta>,
    pub config: SimConfig,
    /// How many orders have got an id.
    pub numbered: u64,
}

/// Whether this is the first counter of the account on the venue.
pub open spec fn stands_at(counters: Seq<CounterView>, i: int, account: AccountKey, exchange: Exchange) -> bool {
    &&& 0 <= i < counters.len()
    &&& is_for(counters[i], account, exchange)
    &&& forall|j: int| 0 <= j < i ==> !is_for(#[trigger] counters[j], account, exchange)
}

/// Whether a counter is the account's on the venue.
pub open spec fn is_for(c: CounterView, account: AccountKey, exchange: Exchange) -> bool {
    c.account@ == account && c.exchange == exchange
}

/// Whether the account has a counter on the venue.
pub open spec fn is_open(counters: Seq<CounterView>, account: AccountKey, exchange: Exchange) -> bool {
    exists|i: int| 0 <= i < counters.len() && is_for(#[trigger] counters[i], account, exchange)
}

/// A new counter: it has seen the quotes of its venue, and no others.
pub open spec fn fresh(c: CounterModel, account: AccountId, exchange: Exchange) -> CounterView {
    CounterView {
        account,
        exchange,
        venue: SimModel {
            exchange,
            maker_fee_rate: c.config.maker_fee_rate,
            taker_fee_rate: c.config.taker_fee_rate,
            metas: c.metas,
            cash: c.config.initial_balance_usdt,
            positions: Map::empty(),
            quotes: Map::new(
                |s: Seq<char>| c.quotes.dom().contains((exchange, s)),
                |s: Seq<char>| c.quotes[(exchange, s)],
            ),
            marks: Map::empty(),
            book: Seq::empty(),
        },
    }
}

/// The counters with that of the account on the venue, which is opened if need be.
pub open spec fn opened(c: CounterModel, account: AccountId, exchange: Exchange) -> Seq<CounterView> {
    if is_open(c.counters, account@, exchange) {
        c.counters
    } else {
        c.counters.push(fresh(c, account, exchange))
    }
}

/// The account's events for some reports, all of one moment.
pub open spec fn tagged(account: AccountId, reports: Seq<AccountData>, at: Timestamp) -> Seq<AccountEvent> {
    reports.map_values(|data: AccountData| AccountEvent { account, exchange_ts: at, local_ts: at, data })
}

/// The counters after a quote: it reaches those of its venue.
pub open spec fn quoted(counters: Seq<CounterView>, bbo: BBO) -> Seq<CounterView> {
    counters.map_values(
        |c: CounterView|
            if c.exchange == bbo.exchange {
                CounterView {
                    venue: SimModel { quotes: c.venue.quotes.insert(bbo.symbol@, bbo), ..c.venue },
                    ..c
                }
            } else {
                c
            },
    )
}

/// The counters after a mark: it reaches those of its venue.
pub open spec fn marked(counters: Seq<CounterView>, exchange: Exchange, symbol: Seq<char>, price: Price) -> Seq<CounterView> {
    counters.map_values(
        |c: CounterView|
            if c.exchange == exchange {
                CounterView {
                    venue: SimModel { marks: c.venue.marks.insert(symbol, price), ..c.venue },
                    ..c
                }
            } else {
                c
            },
    )
}

/// A counter after a trade: it reaches those of its venue.
pub open spec fn after_trade(c: CounterView, trade: MarketTrade, at: Timestamp) -> CounterView {
    if c.exchange == trade.exchange {
        CounterView { venue: sim::matched(c.venue, c.venue.book, trade, at).model, ..c }
    } else {
        c
    }
}

/// What a trade brings.
pub open spec fn trade_events(counters: Seq<CounterView>, trade: MarketTrade, at: Timestamp) -> Seq<AccountEvent>
    decreases counters.len(),
{
    if counters.len() == 0 {
        Seq::empty()
    } else {
        let c = counters.last();
        let earlier = trade_events(counters.drop_last(), trade, at);
        if c.exchange == trade.exchange {
            earlier + tagged(c.account, sim::matched(c.venue, c.venue.book, trade, at).reports, at)
        } else {
            earlier
        }
    }
}

/// Whether these requests put the orders on their way, numbered in their order.
pub open spec fn places(requests: Seq<CounterRequest>, account: AccountId, orders: Seq<Order>, numbered: u64) -> bool {
    &&& requests.len() == orders.len()
    &&& forall|i: int|
        0 <= i < requests.len() ==> (#[trigger] requests[i] matches CounterRequest::Place(p) && p.account == account && p.order
            == orders[i] && p.order_id@ == paper_order_id((numbered + i + 1) as nat))
}

/// A trade on one venue never fills an order on another.
pub proof fn venues_are_simulated_apart(c: CounterView, trade: MarketTrade, at: Timestamp)
    requires
        c.exchange != trade.exchange,
    ensures
        after_trade(c, trade, at) == c,
        trade_events(seq![c], trade, at) == Seq::<AccountEvent>::empty(),
{
    assert(seq![c].drop_last() =~= Seq::<CounterView>::empty());
    assert(seq![c].last() == c);
    assert(trade_events(Seq::empty(), trade, at) =~= Seq::<AccountEvent>::empty());
}

/// The simulated counter.
pub struct PaperCounterActor {
    counters: Vec<Counter>,
    last_quotes: Table<(Exchange, Symbol), BBO>,
    symbol_metas: SymbolMetas,
    config: SimConfig,
    order_id_gen: u64,
}

spec fn view_of(c: Counter) -> CounterView {
    CounterView { account: c.account, exchange: c.exchange, venue: c.state@ }
}

spec fn views_of(counters: Seq<Counter>) -> Seq<CounterView> {
    counters.map_values(|c: Counter| view_of(c))
}

/// Whether these lists hold what each counter holds.
pub open spec fn list_holdings(lists: Seq<Seq<(Symbol, Quantity)>>, counters: Seq<CounterView>) -> bool {
    &&& lists.len() == counters.len()
    &&& forall|i: int| 0 <= i < counters.len() ==> table::lists(#[trigger] lists[i], counters[i].venue.positions)
}

impl View for PaperCounterActor {
    type V = CounterModel;

    closed spec fn view(&self) -> CounterModel {
        CounterModel {
            counters: views_of(self.counters@),
            quotes: self.last_quotes@,
            metas: self.symbol_metas@,
            config: self.config,
            numbered: self.order_id_gen,
        }
    }
}

fn copy_metas(metas: &SymbolMetas) -> (t: SymbolMetas)
    ensures
        t@ == metas@,
{
    let n = metas.len();
    let ghost e = metas.entries();
    let mut t: SymbolMetas = Table::new();
    let mut i: usize = 0;
    while i < n
        invariant
            i <= n,
            n == e.len(),
            e == metas.entries(),
            table::distinct_keys(e),
            forall|j: int| 0 <= j < i ==> t@.dom().contains((#[trigger] e[j]).0.id()) && t@[e[j].0.id()] == e[j].1,
            forall|id: (Exchange, Seq<char>)| #[trigger] t@.dom().contains(id) ==> metas@.dom().contains(id),
        decreases n - i,
    {
        proof {
            table::lemma_entry_in_map(e, i as int);
        }
        t.insert(metas.key_at(i).copy(), metas.value_at(i).clone());
        i = i + 1;
    }
    proof {
        assert forall|id: (Exchange, Seq<char>)| t@.dom().contains(id) == metas@.dom().contains(id) && (metas@.dom().contains(id) ==> t@[id] == metas@[id]) by {
            if metas@.dom().contains(id) {
                let j = choose|j: int| #[trigger] table::names(e, j, id);
                table::lemma_entry_in_map(e, j);
            }
        }
        assert(t@ =~= metas@);
    }
    t
}

impl PaperCounterActor {
    /// Quotes are kept under the leg that they name, and no account has two counters on a venue.
    pub closed spec fn inv(&self) -> bool {
        &&& forall|j: int|
            0 <= j < self.last_quotes.entries().len() ==> (
            #[trigger] self.last_quotes.entries()[j]).1.symbol@ == self.last_quotes.entries()[j].0.1@
        &&& forall|i: int, j: int|
            0 <= i < j < self.counters@.len() ==> !is_for(
                view_of(#[trigger] self.counters@[i]),
                (#[trigger] self.counters@[j]).account@,
                self.counters@[j].exchange,
            )
    }

    /// What each counter holds, in the order in which it was taken.
    pub closed spec fn holding_lists(&self) -> Seq<Seq<(Symbol, Quantity)>> {
        self.counters@.map_values(|c: Counter| c.state.holding_list())
    }

    /// A counter without accounts.
    pub fn new(args: PaperCounterArgs) -> (p: Self)
        ensures
            p.inv(),
            p@ == (CounterModel {
                counters: Seq::empty(),
                quotes: Map::empty(),
                metas: args.symbol_metas@,
                config: args.config,
                numbered: 0,
            }),
    {
        let p = PaperCounterActor {
            counters: Vec::new(),
            last_quotes: Table::new(),
            symbol_metas: args.symbol_metas,
            config: args.config,
            order_id_gen: 0,
        };
        assert(p@.counters =~= Seq::<CounterView>::empty());
        p
    }

    /// How long a request travels to the counter.
    pub fn order_delay_ms(&self) -> (ms: u64)
        ensures
            ms == self@.config.order_to_exchange_delay_ms,
    {
        self.config.order_to_exchange_delay_ms
    }

    /// How many orders can still get an id.
    pub fn ids_left(&self) -> (n: u64)
        ensures
            n == u64::MAX - self@.numbered,
    {
        u64::MAX - self.order_id_gen
    }

    /// A decision for a simulated account: what travels to the counter. Decisions for the real
    /// account are not the counter's.
    pub fn on_outcome(&mut self, outcome: &AccountOutcome) -> (requests: Vec<CounterRequest>)
        requires
            old(self).inv(),
            outcome.event matches OutcomeEvent::PlaceOrders { orders, .. } ==> orders@.len() <= u64::MAX - old(self)@.numbered,
        ensures
            final(self).inv(),
            final(self).holding_lists() == old(self).holding_lists(),
            match outcome.event {
                OutcomeEvent::PlaceOrders { orders, .. } if outcome.account is Paper => {
                    &&& final(self)@ == (CounterModel {
                        numbered: (old(self)@.numbered + orders@.len()) as u64,
                        ..old(self)@
                    })
                    &&& places(requests@, outcome.account, orders@, old(self)@.numbered)
                },
                OutcomeEvent::CancelOrder { exchange, order_id, .. } if outcome.account is Paper => {
                    &&& final(self)@ == old(self)@
                    &&& requests@ == seq![
                        CounterRequest::Cancel(
                            ApplyCancel { account: outcome.account, exchange, order_id },
                        ),
                    ]
                },
                _ => final(self)@ == old(self)@ && requests@.len() == 0,
            },
    {
        let mut requests: Vec<CounterRequest> = Vec::new();
        if !outcome.account.is_paper() {
            return requests;
        }
        match &outcome.event {
            OutcomeEvent::PlaceOrders { orders, .. } => {
                let ghost first = self.order_id_gen;
                let mut i: usize = 0;
                while i < orders.len()
                    invariant
                        i <= orders.len(),
                        orders@.len() <= u64::MAX - first,
                        self.order_id_gen == first + i,
                        self.counters == old(self).counters,
                        self.last_quotes == old(self).last_quotes,
                        self.symbol_metas == old(self).symbol_metas,
                        self.config == old(self).config,
                        requests@.len() == i,
                        forall|j: int| 0 <= j < i ==> (#[trigger] requests@[j] matches CounterRequest::Place(p) && p.account
                            == outcome.account && p.order == orders@[j] && p.order_id@ == paper_order_id((first + j + 1) as nat)),
                    decreases orders.len() - i,
                {
                    self.order_id_gen = self.order_id_gen + 1;
                    let order_id = joined("paper-", natural(self.order_id_gen as u128).as_str());
                    requests.push(
                        CounterRequest::Place(
                            ApplyPlace {
                                account: outcome.account.clone(),
                                order: orders[i].clone(),
                                order_id,
                            },
                        ),
                    );
                    i = i + 1;
                }
            },
            OutcomeEvent::CancelOrder { exchange, order_id, .. } => {
                requests.push(
                    CounterRequest::Cancel(
                        ApplyCancel {
                            account: outcome.account.clone(),
                            exchange: *exchange,
                            order_id: order_id.clone(),
                        },
                    ),
                );
            },
            OutcomeEvent::Emit(_) => {},
        }
        requests
    }

    fn new_counter(&self, account: &AccountId, exchange: Exchange) -> (c: Counter)
        requires
            self.inv(),
        ensures
            view_of(c) == fresh(self@, *account, exchange),
    {
        let mut state = SimState::empty(
            exchange,
            self.config.initial_balance_usdt,
            self.config.maker_fee_rate,
            self.config.taker_fee_rate,
            copy_metas(&self.symbol_metas),
        );
        let ghost start = state@;
        let n = self.last_quotes.len();
        let ghost e = self.last_quotes.entries();
        let mut i: usize = 0;
        while i < n
            invariant
                i <= n,
                n == e.len(),
                e == self.last_quotes.entries(),
                table::distinct_keys(e),
                state@ == (SimModel { quotes: state@.quotes, ..start }),
                forall|j: int| 0 <= j < i && (#[trigger] e[j]).0.0 == exchange ==> state@.quotes.dom().contains(e[j].0.1@) && state@.quotes[e[j].0.1@] == e[j].1,
                forall|s: Seq<char>| #[trigger] state@.quotes.dom().contains(s) ==> self.last_quotes@.dom().contains((exchange, s)),
                forall|j: int| 0 <= j < n ==> (#[trigger] e[j]).1.symbol@ == e[j].0.1@,
            decreases n - i,
        {
            proof {
                table::lemma_entry_in_map(e, i as int);
                assert(e[i as int].0.id() == (e[i as int].0.0, e[i as int].0.1@));
            }
            if self.last_quotes.key_at(i).0 == exchange {
                state.observe_bbo(self.last_quotes.value_at(i));
                proof {
                    assert forall|j: int| 0 <= j < i + 1 && (#[trigger] e[j]).0.0 == exchange implies state@.quotes.dom().contains(e[j].0.1@) && state@.quotes[e[j].0.1@] == e[j].1 by {
                        if j < i {
                            assert(e[j].0.id() != e[i as int].0.id());
                        }
                    }
                }
            }
            i = i + 1;
        }
        let c = Counter { account: account.clone(), exchange, state };
        proof {
            let want = fresh(self@, *account, exchange);
            assert forall|s: Seq<char>| state@.quotes.dom().contains(s) == want.venue.quotes.dom().contains(s) && (state@.quotes.dom().contains(s) ==> state@.quotes[s] == want.venue.quotes[s]) by {
                if self.last_quotes@.dom().contains((exchange, s)) {
                    let j = choose|j: int| #[trigger] table::names(e, j, (exchange, s));
                    table::lemma_entry_in_map(e, j);
                    assert(e[j].0.0 == exchange);
                }
            }
            assert(state@.quotes =~= want.venue.quotes);
        }
        c
    }

    /// Where the account's counter on the venue stands; it is opened if need be.
    fn open(&mut self, account: &AccountId, exchange: Exchange) -> (i: usize)
        requires
            old(self).inv(),
        ensures
            final(self).inv(),
            i < final(self).counters@.len(),
            stands_at(final(self)@.counters, i as int, account@, exchange),
            final(self)@ == (CounterModel { counters: opened(old(self)@, *account, exchange), ..old(self)@ }),
            final(self).last_quotes == old(self).last_quotes,
            final(self).symbol_metas == old(self).symbol_metas,
            final(self).config == old(self).config,
            final(self).order_id_gen == old(self).order_id_gen,
    {
        let mut i: usize = 0;
        while i < self.counters.len()
            invariant
                i <= self.counters.len(),
                self.inv(),
                *self == *old(self),
                forall|j: int| 0 <= j < i ==> !is_for(#[trigger] self@.counters[j], account@, exchange),
            decreases self.counters.len() - i,
        {
            if self.counters[i].exchange == exchange && self.counters[i].account.same(account) {
                assert(is_for(self@.counters[i as int], account@, exchange));
                assert(is_open(self@.counters, account@, exchange));
                return i;
            }
            i = i + 1;
        }
        assert(!is_open(self@.counters, account@, exchange));
        let ghost was = self.counters@;
        let new = self.new_counter(account, exchange);
        self.counters.push(new);
        proof {
            assert(views_of(self.counters@) =~= views_of(was).push(view_of(new)));
            assert forall|a: int, b: int| 0 <= a < b < self.counters@.len() implies !is_for(
                view_of(#[trigger] self.counters@[a]),
                (#[trigger] self.counters@[b]).account@,
                self.counters@[b].exchange,
            ) by {
                if b == was.len() {
                    assert(views_of(was)[a] == view_of(was[a]));
                    assert(!is_for(views_of(was)[a], account@, exchange));
                }
            }
            assert forall|j: int| 0 <= j < i implies !is_for(#[trigger] self@.counters[j], account@, exchange) by {
                assert(views_of(was)[j] == self@.counters[j]);
            }
        }
        i
    }

    /// An order has travelled to the counter.
    pub fn apply_place(&mut self, msg: &ApplyPlace, now: Timestamp) -> (events: Vec<AccountEvent>)
        requires
            old(self).inv(),
        ensures
            final(self).inv(),
            placed(old(self)@, *msg, now, final(self)@, events@),
    {
        let i = self.open(&msg.account, msg.order.exchange);
        let ghost was = self.counters@;
        let reports = self.counters[i].state.on_order_arrived(now, &msg.order, &msg.order_id);
        let ghost told = reports@;
        let events = publish_reports(&msg.account, reports, now);
        proof {
            let all = opened(old(self)@, msg.account, msg.order.exchange);
            self.lemma_one_changed(was, i as int);
            assert(stands_at(all, i as int, msg.account@, msg.order.exchange));
            assert(all[i as int] == view_of(was[i as int]));
            if let Some(reason) = sim::refused(all[i as int].venue, msg.order) {
                assert(all.update(i as int, all[i as int]) =~= all);
                assert(sim::is_refusal(told, msg.order, msg.order_id, reason));
            }
        }
        events
    }

    /// A cancellation has travelled to the counter.
    pub fn apply_cancel(&mut self, msg: &ApplyCancel, now: Timestamp) -> (events: Vec<AccountEvent>)
        requires
            old(self).inv(),
        ensures
            final(self).inv(),
            cancelled(old(self)@, *msg, now, final(self)@, events@),
    {
        let i = self.open(&msg.account, msg.exchange);
        let ghost was = self.counters@;
        let reports = self.counters[i].state.on_cancel_arrived(&msg.order_id);
        let events = publish_reports(&msg.account, reports, now);
        proof {
            let all = opened(old(self)@, msg.account, msg.exchange);
            self.lemma_one_changed(was, i as int);
            assert(stands_at(all, i as int, msg.account@, msg.exchange));
            assert(all[i as int] == view_of(was[i as int]));
            assert(all.update(i as int, all[i as int]) =~= all);
        }
        events
    }

    proof fn lemma_one_changed(&self, was: Seq<Counter>, i: int)
        requires
            0 <= i < was.len(),
            self.counters@.len() == was.len(),
            forall|j: int| 0 <= j < was.len() && j != i ==> #[trigger] self.counters@[j] == was[j],
            self.counters@[i].account == was[i].account,
            self.counters@[i].exchange == was[i].exchange,
            forall|a: int, b: int|
                0 <= a < b < was.len() ==> !is_for(view_of(#[trigger] was[a]), (#[trigger] was[b]).account@, was[b].exchange),
        ensures
            views_of(self.counters@) == views_of(was).update(i, view_of(self.counters@[i])),
            forall|a: int, b: int|
                0 <= a < b < self.counters@.len() ==> !is_for(
                    view_of(#[trigger] self.counters@[a]),
                    (#[trigger] self.counters@[b]).account@,
                    self.counters@[b].exchange,
                ),
    {
        assert(views_of(self.counters@) =~= views_of(was).update(i, view_of(self.counters@[i])));
        assert forall|a: int, b: int|
            0 <= a < b < self.counters@.len() implies !is_for(
                view_of(#[trigger] self.counters@[a]),
                (#[trigger] self.counters@[b]).account@,
                self.counters@[b].exchange,
            ) by {
            assert(!is_for(view_of(was[a]), was[b].account@, was[b].exchange));
        }
    }

    fn take_quote(&mut self, bbo: &BBO)
        requires
            old(self).inv(),
        ensures
            final(self).inv(),
            final(self)@ == (CounterModel {
                quotes: old(self)@.quotes.insert((bbo.exchange, bbo.symbol@), *bbo),
                counters: quoted(old(self)@.counters, *bbo),
                ..old(self)@
            }),
    {
        let ghost q = self.last_quotes.entries();
        let key = (bbo.exchange, bbo.symbol.clone());
        let ghost id = key.id();
        self.last_quotes.insert(key, bbo.clone());
        assert forall|j: int| 0 <= j < self.last_quotes.entries().len() implies (#[trigger] self.last_quotes.entries()[j]).1.symbol@ == self.last_quotes.entries()[j].0.1@ by {
            if old(self).last_quotes@.dom().contains(id) {
                let k = choose|k: int| #![trigger q[k]] table::names(q, k, id) && self.last_quotes.entries() == q.update(k, (q[k].0, *bbo));
                assert(q[j].1.symbol@ == q[j].0.1@);
                assert(q[k].0.id() == id);
            } else {
                if j < q.len() {
                    assert(q[j].1.symbol@ == q[j].0.1@);
                }
            }
        }
        let ghost was = self.counters@;
        let mut i: usize = 0;
        while i < self.counters.len()
            invariant
                i <= self.counters.len(),
                self.inv(),
                self.counters@.len() == was.len(),
                self.last_quotes@ == old(self).last_quotes@.insert((bbo.exchange, bbo.symbol@), *bbo),
                self.symbol_metas == old(self).symbol_metas,
                self.config == old(self).config,
                self.order_id_gen == old(self).order_id_gen,
                forall|j: int| 0 <= j < i ==> view_of(#[trigger] self.counters@[j]) == quoted(views_of(was), *bbo)[j],
                forall|j: int| i <= j < was.len() ==> #[trigger] self.counters@[j] == was[j],
            decreases self.counters.len() - i,
        {
            if self.counters[i].exchange == bbo.exchange {
                let ghost now = self.counters@;
                self.counters[i].state.observe_bbo(bbo);
                proof {
                    self.lemma_one_changed(now, i as int);
                }
            }
            assert(views_of(was)[i as int] == view_of(was[i as int]));
            i = i + 1;
        }
        assert(views_of(self.counters@) =~= quoted(views_of(was), *bbo));
    }

    fn take_mark(&mut self, exchange: Exchange, symbol: &Symbol, price: Price)
        requires
            old(self).inv(),
        ensures
            final(self).inv(),
            final(self)@ == (CounterModel {
                counters: marked(old(self)@.counters, exchange, symbol@, price),
                ..old(self)@
            }),
    {
        let ghost was = self.counters@;
        let mut i: usize = 0;
        while i < self.counters.len()
            invariant
                i <= self.counters.len(),
                self.inv(),
                self.counters@.len() == was.len(),
                self.last_quotes == old(self).last_quotes,
                self.symbol_metas == old(self).symbol_metas,
                self.config == old(self).config,
                self.order_id_gen == old(self).order_id_gen,
                forall|j: int| 0 <= j < i ==> view_of(#[trigger] self.counters@[j]) == marked(views_of(was), exchange, symbol@, price)[j],
                forall|j: int| i <= j < was.len() ==> #[trigger] self.counters@[j] == was[j],
            decreases self.counters.len() - i,
        {
            if self.counters[i].exchange == exchange {
                let ghost now = self.counters@;
                self.counters[i].state.observe_mark(symbol, price);
                proof {
                    self.lemma_one_changed(now, i as int);
                }
            }
            assert(views_of(was)[i as int] == view_of(was[i as int]));
            i = i + 1;
        }
        assert(views_of(self.counters@) =~= marked(views_of(was), exchange, symbol@, price));
    }

    fn take_trade(&mut self, trade: &MarketTrade, at: Timestamp) -> (events: Vec<AccountEvent>)
        requires
            old(self).inv(),
        ensures
            final(self).inv(),
            final(self)@ == (CounterModel {
                counters: old(self)@.counters.map_values(|c: CounterView| after_trade(c, *trade, at)),
                ..old(self)@
            }),
            events@ == trade_events(old(self)@.counters, *trade, at),
    {
        let ghost was = self.counters@;
        let ghost views = views_of(was);
        let mut events: Vec<AccountEvent> = Vec::new();
        let mut i: usize = 0;
        assert(events@ =~= trade_events(views.take(0), *trade, at));
        while i < self.counters.len()
            invariant
                i <= self.counters.len(),
                self.inv(),
                self.counters@.len() == was.len(),
                views == views_of(was),
                self.last_quotes == old(self).last_quotes,
                self.symbol_metas == old(self).symbol_metas,
                self.config == old(self).config,
                self.order_id_gen == old(self).order_id_gen,
                forall|j: int| 0 <= j < i ==> view_of(#[trigger] self.counters@[j]) == after_trade(views[j], *trade, at),
                forall|j: int| i <= j < was.len() ==> #[trigger] self.counters@[j] == was[j],
                events@ == trade_events(views.take(i as int), *trade, at),
            decreases self.counters.len() - i,
        {
            assert(views.take(i + 1).drop_last() =~= views.take(i as int));
            assert(views[i as int] == view_of(was[i as int]));
            if self.counters[i].exchange == trade.exchange {
                let ghost now = self.counters@;
                let reports = self.counters[i].state.on_trade(trade, at);
                proof {
                    self.lemma_one_changed(now, i as int);
                }
                let account = self.counters[i].account.clone();
                let mut more = publish_reports(&account, reports, at);
                events.append(&mut more);
            }
            i = i + 1;
        }
        assert(views.take(i as int) =~= views);
        assert(views_of(self.counters@) =~= views.map_values(|c: CounterView| after_trade(c, *trade, at)));
        events
    }

    /// What each account is worth on each venue, at this moment.
    fn account_infos(&self, at: Timestamp) -> (events: Vec<AccountEvent>)
        ensures
            events@ == infos(self@.counters, self.holding_lists(), at),
            list_holdings(self.holding_lists(), self@.counters),
    {
        let mut events: Vec<AccountEvent> = Vec::new();
        let mut i: usize = 0;
        while i < self.counters.len()
            invariant
                i <= self.counters.len(),
                events@.len() == i,
                forall|j: int| 0 <= j < i ==> #[trigger] events@[j] == infos(self@.counters, self.holding_lists(), at)[j],
                forall|j: int| 0 <= j < i ==> table::lists(#[trigger] self.holding_lists()[j], self@.counters[j].venue.positions),
            decreases self.counters.len() - i,
        {
            let c = &self.counters[i];
            events.push(
                AccountEvent {
                    account: c.account.clone(),
                    exchange_ts: at,
                    local_ts: at,
                    data: AccountData::AccountInfo {
                        exchange: c.exchange,
                        equity: c.state.equity(),
                        notional: c.state.notional(),
                    },
                },
            );
            i = i + 1;
        }
        assert(events@ =~= infos(self@.counters, self.holding_lists(), at));
        events
    }

    /// A market event: quotes and marks are taken down, trades fill orders, and with each tick of
    /// the clock every account hears what it is worth.
    pub fn on_market(&mut self, event: &MarketEvent) -> (events: Vec<AccountEvent>)
        requires
            old(self).inv(),
        ensures
            final(self).inv(),
            (final(self)@, events@) == moved(old(self)@, old(self).holding_lists(), *event),
            event.data is Clock ==> list_holdings(old(self).holding_lists(), old(self)@.counters),
    {
        match &event.data {
            MarketData::BBO(bbo) => {
                self.take_quote(bbo);
                let events: Vec<AccountEvent> = Vec::new();
                assert(events@ =~= Seq::<AccountEvent>::empty());
                events
            },
            MarketData::MarketTrade(trade) => self.take_trade(trade, event.local_ts),
            MarketData::MarkPrice(mark) => {
                self.take_mark(mark.exchange, &mark.symbol, mark.price);
                let events: Vec<AccountEvent> = Vec::new();
                assert(events@ =~= Seq::<AccountEvent>::empty());
                events
            },
            MarketData::Clock => self.account_infos(event.local_ts),
            _ => {
                let events: Vec<AccountEvent> = Vec::new();
                assert(events@ =~= Seq::<AccountEvent>::empty());
                events
            },
        }
    }
}

/// What each account is worth on each venue.
pub open spec fn infos(counters: Seq<CounterView>, holdings: Seq<Seq<(Symbol, Quantity)>>, at: Timestamp) -> Seq<AccountEvent> {
    Seq::new(
        counters.len(),
        |i: int|
            AccountEvent {
                account: counters[i].account,
                exchange_ts: at,
                local_ts: at,
                data: AccountData::AccountInfo {
                    exchange: counters[i].exchange,
                    equity: amount::clamp(
                        counters[i].venue.cash + sim::valued(counters[i].venue, holdings[i]),
                    ) as Money,
                    notional: sim::exposure(counters[i].venue, holdings[i]) as Money,
                },
            },
    )
}

/// What a market event does to the counter, and what it brings.
pub open spec fn moved(c: CounterModel, holdings: Seq<Seq<(Symbol, Quantity)>>, event: MarketEvent) -> (
    CounterModel,
    Seq<AccountEvent>,
) {
    match event.data {
        MarketData::BBO(bbo) => (
            CounterModel {
                quotes: c.quotes.insert((bbo.exchange, bbo.symbol@), bbo),
                counters: quoted(c.counters, bbo),
                ..c
            },
            Seq::empty(),
        ),
        MarketData::MarketTrade(trade) => (
            CounterModel {
                counters: c.counters.map_values(|v: CounterView| after_trade(v, trade, event.local_ts)),
                ..c
            },
            trade_events(c.counters, trade, event.local_ts),
        ),
        MarketData::MarkPrice(mark) => (
            CounterModel { counters: marked(c.counters, mark.exchange, mark.symbol@, mark.price), ..c },
            Seq::empty(),
        ),
        MarketData::Clock => (c, infos(c.counters, holdings, event.local_ts)),
        _ => (c, Seq::empty()),
    }
}

/// What an order that arrives does: its account's counter on its venue takes it, and no other.
pub open spec fn placed(c: CounterModel, msg: ApplyPlace, now: Timestamp, after: CounterModel, events: Seq<AccountEvent>) -> bool {
    let all = opened(c, msg.account, msg.order.exchange);
    exists|i: int| {
        &&& #[trigger] stands_at(all, i, msg.account@, msg.order.exchange)
        &&& match sim::refused(all[i].venue, msg.order) {
            Some(reason) => {
                &&& after == (CounterModel { counters: all, ..c })
                &&& exists|reports: Seq<AccountData>|
                    #[trigger] sim::is_refusal(reports, msg.order, msg.order_id, reason) && events == tagged(
                        msg.account,
                        reports,
                        now,
                    )
            },
            None => {
                let (venue, reports) = sim::arrived(all[i].venue, now, msg.order, msg.order_id);
                &&& after == (CounterModel { counters: all.update(i, CounterView { venue, ..all[i] }), ..c })
                &&& events == tagged(msg.account, reports, now)
            },
        }
    }
}

/// What a cancellation that arrives does: the order leaves the book of its account's counter on its
/// venue, if it is still there.
pub open spec fn cancelled(c: CounterModel, msg: ApplyCancel, now: Timestamp, after: CounterModel, events: Seq<AccountEvent>) -> bool {
    let all = opened(c, msg.account, msg.exchange);
    exists|i: int| {
        &&& #[trigger] stands_at(all, i, msg.account@, msg.exchange)
        &&& !sim::waits(all[i].venue.book, msg.order_id@) ==> after == (CounterModel { counters: all, ..c }) && events.len() == 0
        &&& forall|k: int| #[trigger]
            sim::waits_at(all[i].venue.book, k, msg.order_id@) ==> {
                let r = all[i].venue.book[k];
                &&& after == (CounterModel {
                    counters: all.update(
                        i,
                        CounterView { venue: SimModel { book: all[i].venue.book.remove(k), ..all[i].venue }, ..all[i] },
                    ),
                    ..c
                })
                &&& events == tagged(
                    msg.account,
                    seq![AccountData::OrderUpdate(sim::report_of(r.order, r.order_id, crate::domain::OrderStatus::Cancelled))],
                    now,
                )
            }
    }
}

fn publish_reports(account: &AccountId, reports: Vec<AccountData>, at: Timestamp) -> (events: Vec<AccountEvent>)
    ensures
        events@ == tagged(*account, reports@, at),
{
    let ghost all = reports@;
    let mut left = reports;
    let mut events: Vec<AccountEvent> = Vec::new();
    let n = left.len();
    let mut i: usize = 0;
    while i < n
        invariant
            i <= n,
            n == all.len(),
            left@ == all.subrange(i as int, n as int),
            events@.len() == i,
            forall|j: int| 0 <= j < i ==> #[trigger] events@[j] == tagged(*account, all, at)[j],
        decreases n - i,
    {
        let data = left.remove(0);
        assert(left@ =~= all.subrange(i + 1, n as int));
        events.push(AccountEvent { account: account.clone(), exchange_ts: at, local_ts: at, data });
        i = i + 1;
    }
    assert(events@ =~= tagged(*account, all, at));
    events
}

/// A new counter starts with the balance and the fees that were set, no position and no order, and the
/// latest quotes of its own venue.
pub proof fn a_counter_starts_as_set(c: CounterModel, account: AccountId, exchange: Exchange, symbol: Seq<char>)
    ensures
        ({
            let new = fresh(c, account, exchange);
            &&& new.account == account
            &&& new.exchange == exchange
            &&& new.venue.exchange == exchange
            &&& new.venue.cash == c.config.initial_balance_usdt
            &&& new.venue.maker_fee_rate == c.config.maker_fee_rate
            &&& new.venue.taker_fee_rate == c.config.taker_fee_rate
            &&& new.venue.metas == c.metas
            &&& new.venue.positions.dom() == Set::<Seq<char>>::empty()
            &&& new.venue.marks.dom() == Set::<Seq<char>>::empty()
            &&& new.venue.book.len() == 0
            &&& new.venue.quotes.dom().contains(symbol) == c.quotes.dom().contains((exchange, symbol))
            &&& c.quotes.dom().contains((exchange, symbol)) ==> new.venue.quotes[symbol] == c.quotes[(exchange, symbol)]
        }),
{
}

/// Opening a counter leaves those that are there as they are, and adds one only where the account has
/// none on the venue.
pub proof fn opening_leaves_the_others(c: CounterModel, account: AccountId, exchange: Exchange, i: int)
    requires
        0 <= i < c.counters.len(),
    ensures
        opened(c, account, exchange)[i] == c.counters[i],
        is_for(c.counters[i], account@, exchange) ==> opened(c, account, exchange).len() == c.counters.len(),
        opened(c, account, exchange).len() <= c.counters.len() + 1,
        is_open(opened(c, account, exchange), account@, exchange),
{
    if !is_open(c.counters, account@, exchange) {
        let all = opened(c, account, exchange);
        assert(is_for(all[c.counters.len() as int], account@, exchange));
    }
}

/// A quote reaches every counter on its venue and no other, moves no position and reports nothing.
pub proof fn a_quote_reaches_its_venue(
    c: CounterModel,
    holdings: Seq<Seq<(Symbol, Quantity)>>,
    event: MarketEvent,
    bbo: BBO,
    i: int,
)
    requires
        event.data == MarketData::BBO(bbo),
        0 <= i < c.counters.len(),
    ensures
        ({
            let (after, events) = moved(c, holdings, event);
            let before = c.counters[i];
            let now = after.counters[i];
            &&& events.len() == 0
            &&& after.counters.len() == c.counters.len()
            &&& after.quotes.dom().contains((bbo.exchange, bbo.symbol@))
            &&& after.quotes[(bbo.exchange, bbo.symbol@)] == bbo
            &&& forall|leg: (Exchange, Seq<char>)| leg != (bbo.exchange, bbo.symbol@) ==> after.quotes.dom().contains(leg)
                == c.quotes.dom().contains(leg) && #[trigger] after.quotes[leg] == c.quotes[leg]
            &&& before.exchange == bbo.exchange ==> now.venue.quotes.dom().contains(bbo.symbol@)
                && now.venue.quotes[bbo.symbol@] == bbo
            &&& forall|other: Seq<char>| other != bbo.symbol@ ==> now.venue.quotes.dom().contains(other)
                == before.venue.quotes.dom().contains(other) && #[trigger] now.venue.quotes[other]
                == before.venue.quotes[other]
            &&& before.exchange != bbo.exchange ==> now == before
            &&& now.account == before.account
            &&& now.exchange == before.exchange
            &&& now.venue.cash == before.venue.cash
            &&& now.venue.positions == before.venue.positions
            &&& now.venue.marks == before.venue.marks
            &&& now.venue.book == before.venue.book
            &&& after.numbered == c.numbered
            &&& after.config == c.config
            &&& after.metas == c.metas
        }),
{
}

/// A mark reaches every counter on its venue and no other, moves no position and reports nothing.
pub proof fn a_mark_reaches_its_venue(
    c: CounterModel,
    holdings: Seq<Seq<(Symbol, Quantity)>>,
    event: MarketEvent,
    mark: crate::event::MarkPrice,
    i: int,
)
    requires
        event.data == MarketData::MarkPrice(mark),
        0 <= i < c.counters.len(),
    ensures
        ({
            let (after, events) = moved(c, holdings, event);
            let before = c.counters[i];
            let now = after.counters[i];
            &&& events.len() == 0
            &&& after.counters.len() == c.counters.len()
            &&& before.exchange == mark.exchange ==> now.venue.marks.dom().contains(mark.symbol@)
                && now.venue.marks[mark.symbol@] == mark.price
            &&& forall|other: Seq<char>| other != mark.symbol@ ==> now.venue.marks.dom().contains(other)
                == before.venue.marks.dom().contains(other) && #[trigger] now.venue.marks[other]
                == before.venue.marks[other]
            &&& before.exchange != mark.exchange ==> now == before
            &&& now.account == before.account
            &&& now.exchange == before.exchange
            &&& now.venue.cash == before.venue.cash
            &&& now.venue.positions == before.venue.positions
            &&& now.venue.quotes == before.venue.quotes
            &&& now.venue.book == before.venue.book
            &&& after.quotes == c.quotes
            &&& after.numbered == c.numbered
        }),
{
}

/// A trade goes through the book of every counter on its venue, each as if it were the only one, and of
/// no other.
pub proof fn a_trade_reaches_every_book_of_its_venue(
    c: CounterModel,
    holdings: Seq<Seq<(Symbol, Quantity)>>,
    event: MarketEvent,
    trade: MarketTrade,
    i: int,
)
    requires
        event.data == MarketData::MarketTrade(trade),
        0 <= i < c.counters.len(),
    ensures
        ({
            let (after, events) = moved(c, holdings, event);
            let before = c.counters[i];
            let now = after.counters[i];
            let pass = sim::matched(before.venue, before.venue.book, trade, event.local_ts);
            &&& after.counters.len() == c.counters.len()
            &&& now.account == before.account
            &&& now.exchange == before.exchange
            &&& before.exchange == trade.exchange ==> now.venue == pass.model
            &&& before.exchange != trade.exchange ==> now.venue == before.venue
            &&& before.exchange == trade.exchange ==> forall|k: int|
                0 <= k < pass.reports.len() ==> events.contains(
                    (AccountEvent {
                        account: before.account,
                        exchange_ts: event.local_ts,
                        local_ts: event.local_ts,
                        data: #[trigger] pass.reports[k],
                    }),
                )
            &&& after.quotes == c.quotes
            &&& after.numbered == c.numbered
        }),
{
    let at = event.local_ts;
    let before = c.counters[i];
    let pass = sim::matched(before.venue, before.venue.book, trade, at);
    if before.exchange == trade.exchange {
        assert forall|k: int| 0 <= k < pass.reports.len() implies trade_events(c.counters, trade, at).contains(
            (AccountEvent { account: before.account, exchange_ts: at, local_ts: at, data: #[trigger] pass.reports[k] }),
        ) by {
            lemma_report_is_told(c.counters, trade, at, i, k);
        }
    }
}

proof fn lemma_report_is_told(counters: Seq<CounterView>, trade: MarketTrade, at: Timestamp, i: int, k: int)
    requires
        0 <= i < counters.len(),
        counters[i].exchange == trade.exchange,
        0 <= k < sim::matched(counters[i].venue, counters[i].venue.book, trade, at).reports.len(),
    ensures
        trade_events(counters, trade, at).contains(
            (AccountEvent {
                account: counters[i].account,
                exchange_ts: at,
                local_ts: at,
                data: sim::matched(counters[i].venue, counters[i].venue.book, trade, at).reports[k],
            }),
        ),
    decreases counters.len(),
{
    let rest = counters.drop_last();
    let earlier = trade_events(rest, trade, at);
    let all = trade_events(counters, trade, at);
    let e = AccountEvent {
        account: counters[i].account,
        exchange_ts: at,
        local_ts: at,
        data: sim::matched(counters[i].venue, counters[i].venue.book, trade, at).reports[k],
    };
    if i < rest.len() {
        assert(rest[i] == counters[i]);
        lemma_report_is_told(rest, trade, at, i, k);
        let p = choose|p: int| 0 <= p < earlier.len() && earlier[p] == e;
        assert(all[p] == e);
    } else {
        assert(all[earlier.len() + k] == e);
    }
}

/// Whether an event is the report number `n` of what a trade makes of counter `i`.
pub open spec fn tells(
    e: AccountEvent,
    counters: Seq<CounterView>,
    trade: MarketTrade,
    at: Timestamp,
    i: int,
    n: int,
) -> bool {
    let reports = sim::matched(counters[i].venue, counters[i].venue.book, trade, at).reports;
    &&& 0 <= i < counters.len()
    &&& counters[i].exchange == trade.exchange
    &&& 0 <= n < reports.len()
    &&& e.account == counters[i].account
    &&& e.data == reports[n]
}

/// Whatever a trade makes a counter report is told to the account of a counter on the trade's venue.
pub proof fn trades_are_told_to_the_accounts_they_fill(counters: Seq<CounterView>, trade: MarketTrade, at: Timestamp, k: int)
    requires
        0 <= k < trade_events(counters, trade, at).len(),
    ensures
        exists|i: int, n: int| #[trigger] tells(trade_events(counters, trade, at)[k], counters, trade, at, i, n),
    decreases counters.len(),
{
    let rest = counters.drop_last();
    let earlier = trade_events(rest, trade, at);
    let all = trade_events(counters, trade, at);
    if k < earlier.len() {
        trades_are_told_to_the_accounts_they_fill(rest, trade, at, k);
        let (i, n) = choose|i: int, n: int| #[trigger] tells(earlier[k], rest, trade, at, i, n);
        assert(rest[i] == counters[i]);
        assert(all[k] == earlier[k]);
        assert(tells(all[k], counters, trade, at, i, n));
    } else {
        assert(counters[counters.len() - 1] == counters.last());
        assert(tells(all[k], counters, trade, at, counters.len() - 1, k - earlier.len()));
    }
}

/// As time passes every account is told where it stands on each venue: its cash plus the sum of what
/// its positions are worth, as long as that is within range, and what it has at stake.
pub proof fn every_account_is_told_its_standing(
    c: CounterModel,
    holdings: Seq<Seq<(Symbol, Quantity)>>,
    event: MarketEvent,
    i: int,
)
    requires
        event.data is Clock,
        0 <= i < c.counters.len(),
        sim::worths_fit(c.counters[i].venue, holdings[i]),
        amount::adds_up(sim::worths(c.counters[i].venue, holdings[i])),
        i128::MIN <= c.counters[i].venue.cash + amount::total(sim::worths(c.counters[i].venue, holdings[i]))
            <= i128::MAX,
        amount::total(sim::worths(c.counters[i].venue, holdings[i]).map_values(|w: int| amount::abs(w))) <= i128::MAX,
    ensures
        ({
            let (after, events) = moved(c, holdings, event);
            let v = c.counters[i].venue;
            &&& after == c
            &&& events.len() == c.counters.len()
            &&& events[i].account == c.counters[i].account
            &&& events[i].exchange_ts == event.local_ts
            &&& events[i].local_ts == event.local_ts
            &&& events[i].data is AccountInfo
            &&& events[i].data->AccountInfo_exchange == c.counters[i].exchange
            &&& events[i].data->AccountInfo_equity == v.cash + amount::total(sim::worths(v, holdings[i]))
            &&& events[i].data->AccountInfo_notional == amount::total(
                sim::worths(v, holdings[i]).map_values(|w: int| amount::abs(w)),
            )
        }),
{
    sim::equity_is_cash_plus_every_position(c.counters[i].venue, holdings[i]);
    sim::stakes_are_summed_without_sign(c.counters[i].venue, holdings[i]);
    amount::amounts_without_sign_add_up(
        sim::worths(c.counters[i].venue, holdings[i]).map_values(|w: int| amount::abs(w)),
    );
}

/// What arrives for one account on one venue moves that counter alone, and is reported to that account
/// alone, at the time it arrives.
pub proof fn an_arrival_concerns_its_own_counter(
    c: CounterModel,
    msg: ApplyPlace,
    now: Timestamp,
    after: CounterModel,
    events: Seq<AccountEvent>,
    j: int,
    k: int,
)
    requires
        placed(c, msg, now, after, events),
    ensures
        0 <= j < c.counters.len() && !is_for(c.counters[j], msg.account@, msg.order.exchange) ==> after.counters[j]
            == c.counters[j],
        after.counters.len() >= c.counters.len(),
        after.quotes == c.quotes,
        after.numbered == c.numbered,
        0 <= k < events.len() ==> events[k].account == msg.account && events[k].exchange_ts == now && events[k].local_ts
            == now,
        events.len() >= 1,
{
    let all = opened(c, msg.account, msg.order.exchange);
    let i = choose|i: int| {
        &&& #[trigger] stands_at(all, i, msg.account@, msg.order.exchange)
        &&& match sim::refused(all[i].venue, msg.order) {
            Some(reason) => {
                &&& after == (CounterModel { counters: all, ..c })
                &&& exists|reports: Seq<AccountData>|
                    #[trigger] sim::is_refusal(reports, msg.order, msg.order_id, reason) && events == tagged(
                        msg.account,
                        reports,
                        now,
                    )
            },
            None => {
                let (venue, reports) = sim::arrived(all[i].venue, now, msg.order, msg.order_id);
                &&& after == (CounterModel { counters: all.update(i, CounterView { venue, ..all[i] }), ..c })
                &&& events == tagged(msg.account, reports, now)
            },
        }
    };
    assert(stands_at(all, i, msg.account@, msg.order.exchange));
}

/// A simulated account's orders are numbered on, one by one: each request is to place one of them, in
/// its place, under an id that no other order of the run has.
pub proof fn simulated_orders_are_numbered_on(
    requests: Seq<CounterRequest>,
    account: AccountId,
    orders: Seq<Order>,
    numbered: u64,
    i: int,
    n: nat,
)
    requires
        places(requests, account, orders, numbered),
        0 <= i < orders.len(),
    ensures
        requests.len() == orders.len(),
        requests[i] is Place,
        requests[i]->Place_0.account == account,
        requests[i]->Place_0.order == orders[i],
        n != numbered + i + 1 ==> requests[i]->Place_0.order_id@ != "paper-"@ + text::digits(n),
        requests[i]->Place_0.order_id@ == "paper-"@ + text::digits((numbered + i + 1) as nat),
{
    if n != numbered + i + 1 {
        paper_ids_differ(n, (numbered + i + 1) as nat);
    }
}

/// A cancellation takes the oldest waiting order with that id off the book of its own counter, and tells
/// that account that it was cancelled; where there is none, nothing is told and no book moves.
pub proof fn a_cancellation_takes_its_order_off(
    c: CounterModel,
    msg: ApplyCancel,
    now: Timestamp,
    after: CounterModel,
    events: Seq<AccountEvent>,
    i: int,
    k: int,
    j: int,
)
    requires
        cancelled(c, msg, now, after, events),
    ensures
        ({
            let all = opened(c, msg.account, msg.exchange);
            &&& after.counters.len() == all.len()
            &&& after.quotes == c.quotes
            &&& after.numbered == c.numbered
            &&& 0 <= j < all.len() && !is_for(all[j], msg.account@, msg.exchange) ==> after.counters[j] == all[j]
            &&& stands_at(all, i, msg.account@, msg.exchange) && sim::waits_at(all[i].venue.book, k, msg.order_id@) ==> {
                let r = all[i].venue.book[k];
                &&& after.counters[i].venue.book == all[i].venue.book.remove(k)
                &&& after.counters[i].venue.cash == all[i].venue.cash
                &&& after.counters[i].venue.positions == all[i].venue.positions
                &&& events.len() == 1
                &&& events[0].account == msg.account
                &&& events[0].local_ts == now
                &&& events[0].data is OrderUpdate
                &&& sim::is_report_of(
                    events[0].data->OrderUpdate_0,
                    r.order,
                    r.order_id,
                    crate::domain::OrderStatus::Cancelled,
                )
            }
            &&& stands_at(all, i, msg.account@, msg.exchange) && !sim::waits(all[i].venue.book, msg.order_id@) ==> {
                &&& events.len() == 0
                &&& after.counters == all
            }
        }),
{
    let all = opened(c, msg.account, msg.exchange);
    let n = choose|n: int| {
        &&& #[trigger] stands_at(all, n, msg.account@, msg.exchange)
        &&& !sim::waits(all[n].venue.book, msg.order_id@) ==> after == (CounterModel { counters: all, ..c }) && events.len() == 0
        &&& forall|k: int| #[trigger]
            sim::waits_at(all[n].venue.book, k, msg.order_id@) ==> {
                let r = all[n].venue.book[k];
                &&& after == (CounterModel {
                    counters: all.update(
                        n,
                        CounterView { venue: SimModel { book: all[n].venue.book.remove(k), ..all[n].venue }, ..all[n] },
                    ),
                    ..c
                })
                &&& events == tagged(
                    msg.account,
                    seq![AccountData::OrderUpdate(sim::report_of(r.order, r.order_id, crate::domain::OrderStatus::Cancelled))],
                    now,
                )
            }
    };
    assert(stands_at(all, n, msg.account@, msg.exchange));
    if stands_at(all, i, msg.account@, msg.exchange) {
        assert(i == n);
    }
    if sim::waits(all[n].venue.book, msg.order_id@) {
        lemma_waits_somewhere(all[n].venue.book, msg.order_id@);
        let p = choose|p: int| #[trigger] sim::waits_at(all[n].venue.book, p, msg.order_id@);
        assert(sim::waits_at(all[n].venue.book, p, msg.order_id@));
    }
}

proof fn lemma_waits_somewhere(book: Seq<sim::Resting>, order_id: Seq<char>)
    requires
        sim::waits(book, order_id),
    ensures
        exists|p: int| #[trigger] sim::waits_at(book, p, order_id),
    decreases book.len(),
{
    let i = choose|i: int| 0 <= i < book.len() && (#[trigger] book[i]).order_id@ == order_id;
    lemma_oldest(book, i, order_id);
}

proof fn lemma_oldest(book: Seq<sim::Resting>, i: int, order_id: Seq<char>)
    requires
        0 <= i < book.len(),
        book[i].order_id@ == order_id,
    ensures
        exists|p: int| #[trigger] sim::waits_at(book, p, order_id),
    decreases i,
{
    if exists|j: int| 0 <= j < i && (#[trigger] book[j]).order_id@ == order_id {
        let j = choose|j: int| 0 <= j < i && (#[trigger] book[j]).order_id@ == order_id;
        lemma_oldest(book, j, order_id);
    } else {
        assert(sim::waits_at(book, i, order_id));
    }
}

} // verus!
