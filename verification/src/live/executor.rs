//! Runs one strategy for one account.

use vstd::prelude::*;
use crate::domain::{AccountId, Exchange, OutcomeEvent, Position, PositionBaseline, Symbol};
use crate::domain::{SymbolMeta, SymbolMetas, Timestamp};
use crate::event;
use crate::event::IncomeEvent;
use crate::live::AccountOutcome;
use crate::scope;
use crate::state;
use crate::state::StateModel;
use crate::strategy;
use crate::strategy::{AnyStrategy, Judgement};
use crate::strategy_runner;
use crate::strategy_runner::{AnyIdGen, IdSource, StrategyRunner};
use crate::subscription;
use crate::subscription::SubscriptionKind;

verus! {

/// How old an event may be when the strategy gets it, in milliseconds.
pub const MAX_PIPELINE_LAG_MS: u64 = 1_000;

/// Of how many events that come too late one is told.
pub const LAG_WARN_EVERY: u64 = 1_000;

/// What an executor starts from.
pub struct ExecutorArgs {
    pub strategy: AnyStrategy,
    pub account: AccountId,
    pub symbol_metas: SymbolMetas,
    /// What is held, known before the first event.
    pub baselines: Vec<PositionBaseline>,
}

/// Asks a strategy what it holds of some instruments.
#[derive(Debug)]
pub struct GetPositions(pub Vec<Symbol>);

/// The strategy cannot keep up: it decides on old news.
#[derive(Clone, Copy, Debug, PartialEq, Eq, Structural)]
pub struct LagWarning {
    pub lag_ms: u64,
    pub lagging_events: u64,
}

/// How old an event is.
pub open spec fn lag(event: IncomeEvent, now: Timestamp) -> nat {
    if now > event::local_time(event) {
        (now - event::local_time(event)) as nat
    } else {
        0
    }
}

/// How many events came too late, with this one.
pub open spec fn late_so_far(so_far: u64, event: IncomeEvent, now: Timestamp) -> u64 {
    if lag(event, now) > MAX_PIPELINE_LAG_MS && so_far < u64::MAX {
        (so_far + 1) as u64
    } else {
        so_far
    }
}

/// The warning that an event gives rise to: one that comes too late, and is the first to do so or
/// the first of another batch.
pub open spec fn warning(so_far: u64, event: IncomeEvent, now: Timestamp) -> Option<LagWarning> {
    let late = late_so_far(so_far, event, now);
    if lag(event, now) > MAX_PIPELINE_LAG_MS && late % LAG_WARN_EVERY == 1 {
        Some(LagWarning { lag_ms: lag(event, now) as u64, lagging_events: late })
    } else {
        None
    }
}

/// The decisions, without their account.
pub open spec fn untagged(out: Seq<AccountOutcome>) -> Seq<OutcomeEvent> {
    out.map_values(|o: AccountOutcome| o.event)
}

/// Runs one strategy for one account.
pub struct ExecutorActor {
    runner: StrategyRunner,
    account: AccountId,
    lagging_events: u64,
}

/// Whether the state holds this position.
pub open spec fn is_held(s: StateModel, p: Position) -> bool {
    &&& s.symbols.dom().contains(p.symbol@)
    &&& s.symbols[p.symbol@].positions.dom().contains(p.exchange)
    &&& s.symbols[p.symbol@].positions[p.exchange] == p.size
}

/// Whether a list tells what is held on a leg.
pub open spec fn tells(v: Seq<Position>, exchange: Exchange, symbol: Seq<char>) -> bool {
    exists|i: int| 0 <= i < v.len() && (#[trigger] v[i]).exchange == exchange && v[i].symbol@ == symbol
}

/// Whether no leg is told twice.
pub open spec fn told_once(v: Seq<Position>) -> bool {
    forall|i: int, j: int| 0 <= i < j < v.len() ==> (#[trigger] v[i]).exchange != (#[trigger] v[j]).exchange
        || v[i].symbol@ != v[j].symbol@
}

impl ExecutorActor {
    /// What the strategy knows.
    pub closed spec fn known(&self) -> StateModel {
        self.runner.known()
    }

    /// The rules of the known legs.
    pub closed spec fn metas(&self) -> Map<(Exchange, Seq<char>), SymbolMeta> {
        self.runner.metas()
    }

    /// The legs that the strategy subscribes to.
    pub closed spec fn legs(&self) -> Set<(Exchange, Seq<char>)> {
        self.runner.legs()
    }

    /// The account that the strategy trades for.
    pub closed spec fn whose(&self) -> AccountId {
        self.account
    }

    /// How many events came too late.
    pub closed spec fn late(&self) -> u64 {
        self.lagging_events
    }

    /// The ids that the next orders may get.
    pub closed spec fn ids(&self) -> IdSource {
        self.runner.ids()
    }

    /// What the strategy may decide.
    pub closed spec fn judgement(&self) -> Judgement {
        self.runner.judgement()
    }

    /// An executor whose strategy follows the instruments of the streams that it wants, and knows
    /// what is held of them, and nothing else.
    pub fn new(args: ExecutorArgs) -> (e: Self)
        ensures
            e.whose() == args.account,
            e.metas() == args.symbol_metas@,
            e.late() == 0,
            exists|s: StateModel| e.known() == #[trigger] state::seeded_all(s, args.baselines@) && strategy_runner::starts_blank(s, e.legs())
                && args.strategy.may_wait(s.order_timeout_ms),
            exists|streams: Seq<(Exchange, SubscriptionKind)>, bare: Seq<(Exchange, Option<Symbol>)>| #[trigger]
                args.strategy.may_want(streams, bare) && e.legs() == scope::leg_set(subscription::legs_of(streams)),
            e.judgement() == args.strategy.judgement(),
            e.ids() == strategy_runner::own_ids(),
    {
        let mut runner = StrategyRunner::asked(args.strategy, args.symbol_metas, AnyIdGen::random());
        assert(strategy_runner::starts_blank(runner.known(), runner.legs()));
        runner.seed_positions(&args.baselines);
        ExecutorActor { runner, account: args.account, lagging_events: 0 }
    }

    fn check_pipeline_lag(&mut self, event: &IncomeEvent, now: Timestamp) -> (w: Option<LagWarning>)
        ensures
            w == warning(old(self).late(), *event, now),
            final(self).late() == late_so_far(old(self).late(), *event, now),
            final(self).runner == old(self).runner,
            final(self).account == old(self).account,
    {
        let lag_ms = now.saturating_sub(event.local_ts());
        if lag_ms <= MAX_PIPELINE_LAG_MS {
            return None;
        }
        if self.lagging_events < u64::MAX {
            self.lagging_events = self.lagging_events + 1;
        }
        if self.lagging_events % LAG_WARN_EVERY == 1 {
            Some(LagWarning { lag_ms, lagging_events: self.lagging_events })
        } else {
            None
        }
    }

    /// Lets the strategy decide on an event. Its decisions go out under its account.
    pub fn handle_event(&mut self, event: &IncomeEvent, now: Timestamp) -> (res: (Vec<AccountOutcome>, Option<LagWarning>))
        ensures
            res.1 == warning(old(self).late(), *event, now),
            final(self).late() == late_so_far(old(self).late(), *event, now),
            final(self).whose() == old(self).whose(),
            final(self).metas() == old(self).metas(),
            final(self).legs() == old(self).legs(),
            strategy::one_question_on(old(self).judgement(), final(self).judgement()),
            forall|i: int| 0 <= i < res.0@.len() ==> (#[trigger] res.0@[i]).account == old(self).whose(),
            exists|ds: Seq<OutcomeEvent>, ids: Seq<Seq<String>>|
                #[trigger] strategy_runner::all_carried_out(old(self).metas(), ds, ids, untagged(res.0@))
                    && strategy_runner::all_named(old(self).ids(), ds, ids) && old(self).judgement()(
                    0,
                    *event,
                    state::applied(old(self).known(), *event),
                    ds,
                ) && final(self).known() == strategy_runner::all_noted(
                    state::applied(old(self).known(), *event),
                    ds,
                    ids,
                    event::local_time(*event),
                ) && final(self).ids() == strategy_runner::later(
                    old(self).ids(),
                    strategy_runner::order_count(ds),
                ),
    {
        let warning = self.check_pipeline_lag(event, now);
        assert(self.ids() == old(self).ids());
        assert(self.judgement() == old(self).judgement());
        assert(self.metas() == old(self).metas());
        assert(self.known() == old(self).known());
        let mut left = self.runner.on_event(event);
        let ghost all = left@;
        let ghost (ds, ids) = choose|ds: Seq<OutcomeEvent>, ids: Seq<Seq<String>>|
            #[trigger] strategy_runner::all_carried_out(old(self).metas(), ds, ids, all)
                && strategy_runner::all_named(old(self).ids(), ds, ids) && old(self).judgement()(
                0,
                *event,
                state::applied(old(self).known(), *event),
                ds,
            ) && self.known() == strategy_runner::all_noted(
                state::applied(old(self).known(), *event),
                ds,
                ids,
                event::local_time(*event),
            ) && self.ids() == strategy_runner::later(old(self).ids(), strategy_runner::order_count(ds));
        assert(strategy_runner::all_named(old(self).ids(), ds, ids));
        let n = left.len();
        let mut out: Vec<AccountOutcome> = Vec::new();
        let mut i: usize = 0;
        while i < n
            invariant
                i <= n,
                n == all.len(),
                left@ == all.subrange(i as int, n as int),
                out@.len() == i,
                self.account == old(self).account,
                forall|j: int| 0 <= j < i ==> (#[trigger] out@[j]).account == self.account && out@[j].event == all[j],
            decreases n - i,
        {
            let decision = left.remove(0);
            assert(left@ =~= all.subrange(i + 1, n as int));
            out.push(AccountOutcome { account: self.account.clone(), event: decision });
            i = i + 1;
        }
        assert(untagged(out@) =~= all);
        (out, warning)
    }

    /// What is held of some instruments. It is the state of the last event, so it must be asked
    /// for before the strategy stops.
    pub fn get_positions(&self, msg: &GetPositions) -> (v: Vec<Position>)
        ensures
            forall|i: int| 0 <= i < v@.len() ==> is_held(self.known(), #[trigger] v@[i]) && scope::listed(msg.0@, v@[i].symbol@),
            forall|k: int, exchange: Exchange| #![trigger msg.0@[k], self.known().symbols[msg.0@[k]@].positions.dom().contains(exchange)]
                0 <= k < msg.0@.len() && self.known().symbols.dom().contains(msg.0@[k]@)
                    && self.known().symbols[msg.0@[k]@].positions.dom().contains(exchange) ==> tells(v@, exchange, msg.0@[k]@),
            scope::no_repeats(msg.0@) ==> told_once(v@),
    {
        let state = self.runner.state();
        let mut v: Vec<Position> = Vec::new();
        let mut k: usize = 0;
        while k < msg.0.len()
            invariant
                k <= msg.0.len(),
                state@ == self.known(),
                scope::no_repeats(msg.0@) ==> told_once(v@),
                forall|i: int| 0 <= i < v@.len() ==> scope::listed(msg.0@.take(k as int), (#[trigger] v@[i]).symbol@),
                forall|i: int| 0 <= i < v@.len() ==> is_held(self.known(), #[trigger] v@[i]) && scope::listed(msg.0@, v@[i].symbol@),
                forall|a: int, exchange: Exchange| #![trigger msg.0@[a], self.known().symbols[msg.0@[a]@].positions.dom().contains(exchange)]
                    0 <= a < k && self.known().symbols.dom().contains(msg.0@[a]@)
                        && self.known().symbols[msg.0@[a]@].positions.dom().contains(exchange) ==> tells(v@, exchange, msg.0@[a]@),
            decreases msg.0.len() - k,
        {
            let symbol = &msg.0[k];
            assert(scope::listed(msg.0@, msg.0@[k as int]@));
            let ghost before = v@;
            if let Some(s) = state.symbol_state(symbol) {
                let list = s.positions();
                let mut i: usize = 0;
                while i < list.len()
                    invariant
                        i <= list.len(),
                        v@.len() == before.len() + i,
                        symbol@ == msg.0@[k as int]@,
                        scope::listed(msg.0@, symbol@),
                        self.known().symbols.dom().contains(symbol@),
                        s@ == self.known().symbols[symbol@],
                        forall|j: int| 0 <= j < list@.len() ==> s@.positions.dom().contains((#[trigger] list@[j]).exchange) && s@.positions[list@[j].exchange] == list@[j].size,
                        forall|j: int| 0 <= j < before.len() ==> #[trigger] v@[j] == before[j],
                        v@.len() == before.len() + i,
                        forall|a: int, b: int| 0 <= a < b < list@.len() ==> (#[trigger] list@[a]).exchange != (#[trigger] list@[b]).exchange,
                        forall|j: int| 0 <= j < i ==> v@[before.len() + j].exchange == (#[trigger] list@[j]).exchange && v@[before.len() + j].symbol@ == symbol@,
                        forall|j: int| 0 <= j < v@.len() ==> is_held(self.known(), #[trigger] v@[j]) && scope::listed(msg.0@, v@[j].symbol@),
                    decreases list.len() - i,
                {
                    v.push(
                        Position { exchange: list[i].exchange, symbol: symbol.clone(), size: list[i].size },
                    );
                    i = i + 1;
                }
                proof {
                    assert forall|exchange: Exchange| s@.positions.dom().contains(exchange) implies #[trigger] tells(v@, exchange, symbol@) by {
                        let j = choose|j: int| 0 <= j < list@.len() && (#[trigger] list@[j]).exchange == exchange;
                        assert(v@[before.len() + j].exchange == exchange);
                    }
                    assert forall|j: int| before.len() <= j < v@.len() implies (#[trigger] v@[j]).symbol@ == symbol@ by {
                        let at = j - before.len();
                        assert(v@[before.len() + at].exchange == list@[at].exchange);
                    }
                    if scope::no_repeats(msg.0@) {
                        assert forall|a: int, b: int| 0 <= a < b < v@.len() implies (#[trigger] v@[a]).exchange != (#[trigger] v@[b]).exchange || v@[a].symbol@ != v@[b].symbol@ by {
                            let n = before.len() as int;
                            if b < n {
                                assert(before[a].exchange != before[b].exchange || before[a].symbol@ != before[b].symbol@);
                            } else if a < n {
                                assert(v@[n + (b - n)].symbol@ == symbol@ && list@[b - n].exchange == v@[n + (b - n)].exchange);
                                assert(scope::listed(msg.0@.take(k as int), before[a].symbol@));
                                let x = choose|x: int| 0 <= x < k && (#[trigger] msg.0@.take(k as int)[x])@ == before[a].symbol@;
                                assert(msg.0@[x]@ != msg.0@[k as int]@);
                            } else {
                                assert(list@[a - n].exchange != list@[b - n].exchange);
                            }
                        }
                    }
                }
            }
            proof {
                let done = msg.0@.take(k + 1);
                assert forall|i: int| 0 <= i < v@.len() implies scope::listed(done, (#[trigger] v@[i]).symbol@) by {
                    if i < before.len() {
                        assert(scope::listed(msg.0@.take(k as int), before[i].symbol@));
                        let x = choose|x: int| 0 <= x < k && (#[trigger] msg.0@.take(k as int)[x])@ == before[i].symbol@;
                        assert(done[x]@ == v@[i].symbol@);
                    } else {
                        assert(done[k as int]@ == v@[i].symbol@);
                    }
                }
                assert forall|a: int, exchange: Exchange| #![trigger msg.0@[a], self.known().symbols[msg.0@[a]@].positions.dom().contains(exchange)]
                    0 <= a < k + 1 && self.known().symbols.dom().contains(msg.0@[a]@)
                        && self.known().symbols[msg.0@[a]@].positions.dom().contains(exchange) implies tells(v@, exchange, msg.0@[a]@) by {
                    if a < k {
                        assert(tells(before, exchange, msg.0@[a]@));
                        let j = choose|j: int| 0 <= j < before.len() && (#[trigger] before[j]).exchange == exchange && before[j].symbol@ == msg.0@[a]@;
                        assert(v@[j] == before[j]);
                    }
                }
            }
            k = k + 1;
        }
        v
    }
}

/// An event is late by the time since the engine got it, and not at all where that is still to come.
pub proof fn lag_is_the_time_since_arrival(event: IncomeEvent, now: Timestamp)
    ensures
        now >= event::local_time(event) ==> lag(event, now) == now - event::local_time(event),
        now <= event::local_time(event) ==> lag(event, now) == 0,
{
}

/// Late events are counted, and others are not: an event is late when it took longer than a second.
pub proof fn late_events_are_counted(so_far: u64, event: IncomeEvent, now: Timestamp)
    ensures
        now > event::local_time(event) + 1_000 && so_far < u64::MAX ==> late_so_far(so_far, event, now) == so_far + 1,
        now <= event::local_time(event) + 1_000 ==> late_so_far(so_far, event, now) == so_far,
{
}

/// The first late event is warned of, then every thousandth from there; a warning tells how late it was
/// and how many there have been. An event in time is never warned of.
pub proof fn lateness_is_warned_of_now_and_then(so_far: u64, event: IncomeEvent, now: Timestamp)
    requires
        so_far < u64::MAX,
    ensures
        warning(so_far, event, now) is Some <==> now > event::local_time(event) + 1_000 && so_far % 1_000 == 0,
        warning(so_far, event, now) is Some ==> {
            &&& warning(so_far, event, now)->0.lag_ms == now - event::local_time(event)
            &&& warning(so_far, event, now)->0.lagging_events == so_far + 1
        },
{
}

/// Taking the account off decisions leaves the decisions, in their order.
pub proof fn decisions_lose_nothing_but_the_account(out: Seq<AccountOutcome>, i: int)
    requires
        0 <= i < out.len(),
    ensures
        untagged(out).len() == out.len(),
        untagged(out)[i] == out[i].event,
{
}

/// A position that is told is the one held on its leg.
pub proof fn a_told_position_is_held(s: StateModel, p: Position)
    requires
        is_held(s, p),
    ensures
        s.symbols.dom().contains(p.symbol@),
        state::held(s.symbols[p.symbol@], p.exchange) == p.size,
{
}

/// Positions that are told once each name no leg twice.
pub proof fn no_leg_is_told_twice(v: Seq<Position>, i: int, j: int)
    requires
        told_once(v),
        0 <= i < v.len(),
        0 <= j < v.len(),
        v[i].exchange == v[j].exchange,
        v[i].symbol@ == v[j].symbol@,
    ensures
        i == j,
{
}

} // verus!
