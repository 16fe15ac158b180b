//! One strategy of the engine whose parts talk to each other directly.

use vstd::prelude::*;
use crate::actor::{ExchangeEvent, ExchangeEventData};
use crate::domain::{AccountId, Exchange, Order, OutcomeEvent, Symbol, SymbolMeta, SymbolMetas};
use crate::event;
use crate::event::{AccountData, AccountEvent, IncomeEvent, MarketData, MarketEvent};
use crate::scope;
use crate::state;
use crate::state::StateModel;
use crate::strategy;
use crate::strategy::{AnyStrategy, Judgement};
use crate::strategy_runner;
use crate::strategy_runner::{AnyIdGen, IdSource, StrategyRunner};
use crate::subscription;
use crate::subscription::SubscriptionKind;

verus! {

/// What an executor starts with.
pub struct ExecutorArgs {
    pub strategy: AnyStrategy,
    pub symbol_metas: SymbolMetas,
}

/// A strategy at work.
pub struct ExecutorActor {
    runner: StrategyRunner,
}

/// The orders among decisions, in order.
pub open spec fn all_orders(ds: Seq<OutcomeEvent>) -> Seq<Order>
    decreases ds.len(),
{
    if ds.len() == 0 {
        Seq::empty()
    } else {
        all_orders(ds.drop_last()) + strategy_runner::orders_of(ds.last())
    }
}

impl ExecutorActor {
    /// What the strategy knows.
    pub closed spec fn known(&self) -> StateModel {
        self.runner.known()
    }

    /// The rules of the known legs.
    pub closed spec fn metas(&self) -> Map<(Exchange, Seq<char>), SymbolMeta> {
        self.runner.metas()
    }

    /// The legs that the strategy subscribes to.
    pub closed spec fn legs(&self) -> Set<(Exchange, Seq<char>)> {
        self.runner.legs()
    }

    /// The ids that the next orders may get.
    pub closed spec fn ids(&self) -> IdSource {
        self.runner.ids()
    }

    /// What the strategy may decide.
    pub closed spec fn judgement(&self) -> Judgement {
        self.runner.judgement()
    }

    /// An executor whose strategy follows the instruments of the streams that it wants, and knows
    /// nothing yet.
    pub fn new(args: ExecutorArgs) -> (e: Self)
        ensures
            e.metas() == args.symbol_metas@,
            strategy_runner::starts_blank(e.known(), e.legs()),
            args.strategy.may_wait(e.known().order_timeout_ms),
            exists|streams: Seq<(Exchange, SubscriptionKind)>, bare: Seq<(Exchange, Option<Symbol>)>| #[trigger]
                args.strategy.may_want(streams, bare) && e.legs() == scope::leg_set(subscription::legs_of(streams)),
            e.judgement() == args.strategy.judgement(),
            e.ids() == strategy_runner::own_ids(),
    {
        ExecutorActor { runner: StrategyRunner::asked(args.strategy, args.symbol_metas, AnyIdGen::random()) }
    }

    /// Lets the strategy decide on an event, and says which orders it asks for. They are noted as
    /// the strategy asked for them, and go out at the venues' precision.
    pub fn handle_event(&mut self, event: &IncomeEvent) -> (orders: Vec<Order>)
        ensures
            exists|ds: Seq<OutcomeEvent>, ids: Seq<Seq<String>>, out: Seq<OutcomeEvent>|
                {
                    &&& #[trigger] strategy_runner::all_carried_out(old(self).metas(), ds, ids, out)
                    &&& strategy_runner::all_named(old(self).ids(), ds, ids)
                    &&& old(self).judgement()(0, *event, state::applied(old(self).known(), *event), ds)
                    &&& orders@ == all_orders(out)
                    &&& final(self).known() == strategy_runner::all_noted(
                        state::applied(old(self).known(), *event),
                        ds,
                        ids,
                        event::local_time(*event),
                    )
                    &&& final(self).ids() == strategy_runner::later(
                        old(self).ids(),
                        strategy_runner::order_count(ds),
                    )
                },
            strategy::one_question_on(old(self).judgement(), final(self).judgement()),
            final(self).metas() == old(self).metas(),
            final(self).legs() == old(self).legs(),
    {
        let mut left = self.runner.on_event(event);
        let ghost out = left@;
        let ghost known = self.known();
        let ghost source = self.ids();
        let ghost judgement = self.judgement();
        let n = left.len();
        let mut orders: Vec<Order> = Vec::new();
        let mut i: usize = 0;
        assert(orders@ =~= all_orders(out.take(0)));
        while i < n
            invariant
                i <= n,
                n == out.len(),
                left@ == out.subrange(i as int, n as int),
                orders@ == all_orders(out.take(i as int)),
                self.known() == known,
                self.ids() == source,
                self.judgement() == judgement,
                self.metas() == old(self).metas(),
                self.legs() == old(self).legs(),
            decreases n - i,
        {
            let decision = left.remove(0);
            assert(left@ =~= out.subrange(i + 1, n as int));
            assert(out.take(i + 1).drop_last() =~= out.take(i as int));
            let ghost before = orders@;
            match decision {
                OutcomeEvent::PlaceOrders { orders: mut more, comment: _ } => {
                    orders.append(&mut more);
                },
                _ => {
                    assert(before + Seq::<Order>::empty() =~= before);
                },
            }
            assert(orders@ =~= all_orders(out.take(i + 1)));
            i = i + 1;
        }
        assert(out.take(i as int) =~= out);
        orders
    }
}

/// What a strategy is told of what a venue said.
pub open spec fn told(e: ExchangeEvent) -> IncomeEvent {
    match e.data {
        ExchangeEventData::FundingRate(x) => market(e, MarketData::FundingRate(x)),
        ExchangeEventData::BBO(x) => market(e, MarketData::BBO(x)),
        ExchangeEventData::Clock => market(e, MarketData::Clock),
        ExchangeEventData::OrderUpdate(x) => account(e, AccountData::OrderUpdate(x)),
        ExchangeEventData::Position(x) => account(e, AccountData::Position(x)),
        ExchangeEventData::Balance { exchange, asset, available } => account(
            e,
            AccountData::Balance { exchange, asset, available },
        ),
        ExchangeEventData::Equity { exchange, equity } => account(e, AccountData::Equity { exchange, equity }),
    }
}

/// A market event at the times of what the venue said.
pub open spec fn market(e: ExchangeEvent, data: MarketData) -> IncomeEvent {
    IncomeEvent::Market(MarketEvent { exchange_ts: e.exchange_ts, local_ts: e.local_ts, data })
}

/// An event of the real account at the times of what the venue said.
pub open spec fn account(e: ExchangeEvent, data: AccountData) -> IncomeEvent {
    IncomeEvent::Account(
        AccountEvent { account: AccountId::Live, exchange_ts: e.exchange_ts, local_ts: e.local_ts, data },
    )
}

/// What a strategy is told of what a venue said.
pub fn income_of(e: ExchangeEvent) -> (r: IncomeEvent)
    ensures
        r == told(e),
{
    let exchange_ts = e.exchange_ts;
    let local_ts = e.local_ts;
    let data = match e.data {
        ExchangeEventData::FundingRate(x) => {
            return IncomeEvent::market(exchange_ts, local_ts, MarketData::FundingRate(x));
        },
        ExchangeEventData::BBO(x) => {
            return IncomeEvent::market(exchange_ts, local_ts, MarketData::BBO(x));
        },
        ExchangeEventData::Clock => {
            return IncomeEvent::market(exchange_ts, local_ts, MarketData::Clock);
        },
        ExchangeEventData::OrderUpdate(x) => AccountData::OrderUpdate(x),
        ExchangeEventData::Position(x) => AccountData::Position(x),
        ExchangeEventData::Balance { exchange, asset, available } => AccountData::Balance {
            exchange,
            asset,
            available,
        },
        ExchangeEventData::Equity { exchange, equity } => AccountData::Equity { exchange, equity },
    };
    IncomeEvent::account(AccountId::Live, exchange_ts, local_ts, data)
}

/// The orders of decisions are all of them, in their order.
pub proof fn every_order_of_every_decision_is_told(ds: Seq<OutcomeEvent>, i: int, j: int)
    requires
        0 <= i < ds.len(),
        0 <= j < strategy_runner::orders_of(ds[i]).len(),
    ensures
        all_orders(ds).len() == strategy_runner::order_count(ds),
        strategy_runner::order_count(ds.take(i)) + j < all_orders(ds).len(),
        all_orders(ds)[strategy_runner::order_count(ds.take(i)) + j] == strategy_runner::orders_of(ds[i])[j],
    decreases ds.len(),
{
    lemma_order_count(ds);
    let rest = ds.drop_last();
    lemma_order_count(rest);
    if i < rest.len() {
        assert(rest[i] == ds[i]);
        assert(rest.take(i) =~= ds.take(i));
        every_order_of_every_decision_is_told(rest, i, j);
    } else {
        assert(ds.take(i) =~= rest);
        assert(ds[i] == ds.last());
    }
}

proof fn lemma_order_count(ds: Seq<OutcomeEvent>)
    ensures
        all_orders(ds).len() == strategy_runner::order_count(ds),
    decreases ds.len(),
{
    if ds.len() > 0 {
        lemma_order_count(ds.drop_last());
    }
}

/// What a venue says is handed on unchanged, with its times, and what it says of the account is of the
/// real one.
pub proof fn a_venues_words_are_handed_on(e: ExchangeEvent)
    ensures
        told(e) matches IncomeEvent::Market(m) ==> m.exchange_ts == e.exchange_ts && m.local_ts == e.local_ts,
        told(e) matches IncomeEvent::Account(a) ==> a.exchange_ts == e.exchange_ts && a.local_ts == e.local_ts
            && a.account is Live,
        e.data matches ExchangeEventData::FundingRate(x) ==> told(e) is Market && told(e)->Market_0.data
            == MarketData::FundingRate(x),
        e.data matches ExchangeEventData::BBO(x) ==> told(e) is Market && told(e)->Market_0.data == MarketData::BBO(x),
        e.data is Clock ==> told(e) is Market && told(e)->Market_0.data is Clock,
        e.data matches ExchangeEventData::OrderUpdate(x) ==> told(e) is Account && told(e)->Account_0.data
            == AccountData::OrderUpdate(x),
        e.data matches ExchangeEventData::Position(x) ==> told(e) is Account && told(e)->Account_0.data
            == AccountData::Position(x),
        e.data matches ExchangeEventData::Balance { exchange, asset, available } ==> told(e) is Account
            && told(e)->Account_0.data == (AccountData::Balance { exchange, asset, available }),
        e.data matches ExchangeEventData::Equity { exchange, equity } ==> told(e) is Account && told(e)->Account_0.data
            == (AccountData::Equity { exchange, equity }),
{
}

} // verus!
