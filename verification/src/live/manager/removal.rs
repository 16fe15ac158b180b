//! Takes strategies off, step by step.
//!
//! The order of the steps is the point. A strategy is off before its orders are cancelled, or it
//! would place them again; its orders are gone before its positions are closed, or one of them
//! could open a new position. Whatever could not be done is told: a position that is taken for
//! closed is watched by nobody.

use vstd::prelude::*;
use vstd::string::StringExecFns;
use crate::amount;
use crate::amount::size_of;
use crate::domain;
use crate::domain::{AccountId, AccountKey, Exchange, ExchangeError, Order, OrderType, Position};
use crate::domain::{Quantity, Side, Symbol};
use crate::live::income_processor::ActorId;
use crate::live::manager::RemoveStrategies;
use crate::live::manager::provisioning;
use crate::live::manager::provisioning::list_to_text;
use crate::live::outcome_processor::PlaceVerdict;
use crate::scope;
use crate::scope::contains_symbol;
use crate::table;
use crate::table::{Key, Table};
use crate::text;
use crate::text::{join_text, joined};

verus! {

/// A strategy that is at work.
#[derive(Debug)]
pub struct RegisteredExecutor {
    pub executor: ActorId,
    pub account: AccountId,
    /// The instruments that it trades.
    pub symbols: Vec<Symbol>,
}

/// Whether a strategy is meant: it is the account's, and trades one of the instruments.
pub open spec fn is_hit(reg: RegisteredExecutor, account: AccountKey, targets: Seq<Symbol>) -> bool {
    reg.account@ == account && exists|i: int|
        0 <= i < targets.len() && scope::listed(reg.symbols@, (#[trigger] targets[i])@)
}

/// The instruments that a strategy trades and that are not among the targets.
pub open spec fn uncovered(symbols: Seq<Symbol>, targets: Seq<Symbol>) -> Seq<Seq<char>>
    decreases symbols.len(),
{
    if symbols.len() == 0 {
        Seq::empty()
    } else {
        let earlier = uncovered(symbols.drop_last(), targets);
        if scope::listed(targets, symbols.last()@) {
            earlier
        } else {
            earlier.push(symbols.last()@)
        }
    }
}

/// Whether a strategy is to be taken off: it is meant, and trades nothing but the targets.
pub open spec fn goes(reg: RegisteredExecutor, account: AccountKey, targets: Seq<Symbol>) -> bool {
    is_hit(reg, account, targets) && uncovered(reg.symbols@, targets).len() == 0
}

/// How it is told that a strategy is not taken off because it trades more than the targets.
pub open spec fn refusal_text(missing: Seq<Seq<char>>) -> Seq<char> {
    "实例覆盖 "@ + provisioning::list_text(missing) + " 不在本次 targets 内，拒绝部分降级"@
}

/// The strategies that go, in their order.
pub open spec fn going(regs: Seq<RegisteredExecutor>, account: AccountKey, targets: Seq<Symbol>) -> Seq<ActorId>
    decreases regs.len(),
{
    if regs.len() == 0 {
        Seq::empty()
    } else {
        let earlier = going(regs.drop_last(), account, targets);
        if goes(regs.last(), account, targets) {
            earlier.push(regs.last().executor)
        } else {
            earlier
        }
    }
}

/// The strategies that stay, in their order.
pub open spec fn staying(regs: Seq<RegisteredExecutor>, account: AccountKey, targets: Seq<Symbol>) -> Seq<RegisteredExecutor>
    decreases regs.len(),
{
    if regs.len() == 0 {
        Seq::empty()
    } else {
        let earlier = staying(regs.drop_last(), account, targets);
        if goes(regs.last(), account, targets) {
            earlier
        } else {
            earlier.push(regs.last())
        }
    }
}

/// What is told of the strategies that are meant and stay.
pub open spec fn refusals(regs: Seq<RegisteredExecutor>, account: AccountKey, targets: Seq<Symbol>) -> Seq<Seq<char>>
    decreases regs.len(),
{
    if regs.len() == 0 {
        Seq::empty()
    } else {
        let earlier = refusals(regs.drop_last(), account, targets);
        let reg = regs.last();
        if is_hit(reg, account, targets) && !goes(reg, account, targets) {
            earlier.push(refusal_text(uncovered(reg.symbols@, targets)))
        } else {
            earlier
        }
    }
}

/// The next thing to do.
#[derive(Debug)]
pub enum RemovalStep {
    /// Ask a strategy what it holds of the targets.
    AskPositions(ActorId),
    /// Let a strategy get no more events.
    Unregister(ActorId),
    /// Stop a strategy, and wait until it has stopped.
    Stop(ActorId),
    /// Cancel the orders that are left on an instrument.
    CancelLeftovers(Symbol),
    /// Place an order through the gateway.
    Place(Order),
    Done(Result<(), ExchangeError>),
}

/// What a step came to.
#[derive(Debug)]
pub enum RemovalReply {
    Positions(Result<Vec<Position>, String>),
    Unregistered,
    Stopped(Result<(), String>),
    LeftoversCancelled(Symbol, Result<(), ExchangeError>),
    Placed(Symbol, Result<PlaceVerdict, String>),
}

/// The steps by which one strategy goes.
pub open spec fn steps_for(id: ActorId, ask: bool) -> Seq<RemovalStep> {
    if ask {
        seq![RemovalStep::AskPositions(id), RemovalStep::Unregister(id), RemovalStep::Stop(id)]
    } else {
        seq![RemovalStep::Unregister(id), RemovalStep::Stop(id)]
    }
}

/// The steps by which strategies go, one after the other.
pub open spec fn stopping(ids: Seq<ActorId>, ask: bool) -> Seq<RemovalStep>
    decreases ids.len(),
{
    if ids.len() == 0 {
        Seq::empty()
    } else {
        stopping(ids.drop_last(), ask) + steps_for(ids.last(), ask)
    }
}

/// The steps by which the targets' orders go.
pub open spec fn cancelling(targets: Seq<Symbol>) -> Seq<RemovalStep> {
    targets.map_values(|s: Symbol| RemovalStep::CancelLeftovers(s))
}

/// All steps before positions are closed: the strategies go, then, where the venue can have
/// anything of ours, their orders.
pub open spec fn plan(ids: Seq<ActorId>, ask: bool, targets: Seq<Symbol>, cleanup: bool) -> Seq<RemovalStep> {
    stopping(ids, ask) + (if cleanup {
        cancelling(targets)
    } else {
        Seq::empty()
    })
}

/// Whether a step is one by which a strategy goes.
pub open spec fn is_stopping(step: RemovalStep) -> bool {
    step is AskPositions || step is Unregister || step is Stop
}

/// Strategies are off before any order is cancelled, and orders are cancelled before any is
/// placed: no step by which a strategy goes comes after a cancellation, and the plan places
/// nothing.
pub proof fn strategies_go_before_their_orders(
    ids: Seq<ActorId>,
    ask: bool,
    targets: Seq<Symbol>,
    cleanup: bool,
    i: int,
    j: int,
)
    requires
        0 <= i < j < plan(ids, ask, targets, cleanup).len(),
        plan(ids, ask, targets, cleanup)[i] is CancelLeftovers,
    ensures
        plan(ids, ask, targets, cleanup)[j] is CancelLeftovers,
{
    lemma_stopping(ids, ask);
    let first = stopping(ids, ask);
    if i < first.len() {
        assert(is_stopping(first[i]));
    }
}

proof fn lemma_stopping(ids: Seq<ActorId>, ask: bool)
    ensures
        forall|i: int| 0 <= i < stopping(ids, ask).len() ==> is_stopping(#[trigger] stopping(ids, ask)[i]),
    decreases ids.len(),
{
    if ids.len() > 0 {
        lemma_stopping(ids.drop_last(), ask);
        let a = stopping(ids.drop_last(), ask);
        let b = steps_for(ids.last(), ask);
        assert forall|i: int| 0 <= i < stopping(ids, ask).len() implies is_stopping(#[trigger] stopping(ids, ask)[i]) by {
            if i < a.len() {
                assert((a + b)[i] == a[i]);
            } else {
                assert((a + b)[i] == b[i - a.len()]);
            }
        }
    }
}

/// A strategy is asked what it holds before it is stopped, and stopped after it was let go: its
/// three steps stand together in this order.
pub proof fn a_strategy_is_asked_before_it_stops(id: ActorId)
    ensures
        steps_for(id, true)[0] == RemovalStep::AskPositions(id),
        steps_for(id, true)[1] == RemovalStep::Unregister(id),
        steps_for(id, true)[2] == RemovalStep::Stop(id),
{
}

/// Whether this order closes a position: at the market, in the other direction, reducing only,
/// and for all of it.
pub open spec fn closes(order: Order, exchange: Exchange, symbol: Symbol, size: Quantity) -> bool {
    &&& order.exchange == exchange
    &&& order.symbol == symbol
    &&& order.side == if size > 0 { Side::Short } else { Side::Long }
    &&& order.order_type is Market
    &&& order.quantity == amount::clamp(amount::abs(size as int))
    &&& order.reduce_only
    &&& order.id@ == ""@
    &&& domain::owns_id(exchange, order.client_order_id@)
}

/// The positions that are to be closed on a venue, in their order.
pub open spec fn to_close(found: Seq<((Exchange, Symbol), Quantity)>, exchange: Exchange) -> Seq<(Symbol, Quantity)>
    decreases found.len(),
{
    if found.len() == 0 {
        Seq::empty()
    } else {
        let earlier = to_close(found.drop_last(), exchange);
        let ((on, symbol), size) = found.last();
        if on == exchange && !domain::is_empty_size(size as int) {
            earlier.push((symbol, size))
        } else {
            earlier
        }
    }
}

/// Whether these orders close these positions, one for one.
pub open spec fn all_close(steps: Seq<RemovalStep>, exchange: Exchange, positions: Seq<(Symbol, Quantity)>) -> bool {
    &&& steps.len() == positions.len()
    &&& forall|i: int| 0 <= i < steps.len() ==> (#[trigger] steps[i] matches RemovalStep::Place(order) && closes(order, exchange, positions[i].0, positions[i].1))
}

/// Whether these steps follow the planned ones: the orders that close the positions that were
/// found, once.
pub open spec fn follow(
    steps: Seq<RemovalStep>,
    closing: bool,
    exchange: Exchange,
    found: Seq<((Exchange, Symbol), Quantity)>,
) -> bool {
    if closing {
        steps.len() == 0
    } else {
        all_close(steps, exchange, to_close(found, exchange))
    }
}

/// Whether one of these steps closes a position of this size in the instrument.
pub open spec fn is_closed_by(
    steps: Seq<RemovalStep>,
    i: int,
    exchange: Exchange,
    symbol: Seq<char>,
    size: Quantity,
) -> bool {
    0 <= i < steps.len() && (steps[i] matches RemovalStep::Place(order) && order.symbol@ == symbol && closes(
        order,
        exchange,
        order.symbol,
        size,
    ))
}

proof fn lemma_to_close(found: Seq<((Exchange, Symbol), Quantity)>, exchange: Exchange, k: int) -> (j: int)
    requires
        0 <= k < found.len(),
        found[k].0.0 == exchange,
        !domain::is_empty_size(found[k].1 as int),
    ensures
        0 <= j < to_close(found, exchange).len(),
        to_close(found, exchange)[j] == (found[k].0.1, found[k].1),
    decreases found.len(),
{
    if k == found.len() - 1 {
        to_close(found, exchange).len() - 1
    } else {
        lemma_to_close(found.drop_last(), exchange, k)
    }
}

/// No position is left behind: whatever the strategies that go hold on the venue, and is not
/// nothing, is closed by an order of its own.
pub proof fn what_is_held_is_closed(
    found: Seq<((Exchange, Symbol), Quantity)>,
    steps: Seq<RemovalStep>,
    exchange: Exchange,
    symbol: Seq<char>,
)
    requires
        table::distinct_keys(found),
        follow(steps, false, exchange, found),
        table::entries_map(found).dom().contains((exchange, symbol)),
        !domain::is_empty_size(table::entries_map(found)[(exchange, symbol)] as int),
    ensures
        exists|i: int|
            is_closed_by(steps, i, exchange, symbol, table::entries_map(found)[(exchange, symbol)]),
{
    let k = choose|k: int| #[trigger] table::names(found, k, (exchange, symbol));
    table::lemma_entry_in_map(found, k);
    let j = lemma_to_close(found, exchange, k);
    assert(steps[j] is Place);
    assert(is_closed_by(steps, j, exchange, symbol, found[k].1));
}

/// What a step that failed, or whose end is not known, is told as.
pub open spec fn shortfall(reply: RemovalReply) -> Option<Seq<char>> {
    match reply {
        RemovalReply::Positions(Err(e)) => Some("取本地持仓失败: "@ + e@),
        RemovalReply::Stopped(Err(e)) => Some("实例未确认停止: "@ + e@),
        RemovalReply::LeftoversCancelled(symbol, Err(e)) => Some(
            symbol@ + ": 遗留挂单未撤净 ("@ + domain::error_text(e) + ")"@,
        ),
        RemovalReply::Placed(symbol, Ok(v)) => if v is ExchangeSpoke {
            Some(symbol@ + ": 平仓单结论未知（交易所已回报，REST 失败），需复核"@)
        } else {
            None
        },
        RemovalReply::Placed(symbol, Err(e)) => Some(symbol@ + ": 平仓下单失败 ("@ + e@ + ")"@),
        _ => None,
    }
}

/// How a removal that could not be completed is told.
pub open spec fn incomplete_text(account: AccountKey, exchange: Exchange, left: Seq<Seq<char>>) -> Seq<char> {
    "撤下未完成（账户 "@ + domain::account_name(account) + "，交易所 "@ + domain::exchange_name(exchange)
        + "），需人工核对: "@ + text::join(left, "; "@)
}

/// Whether this is how a removal ends: well, exactly when nothing was left undone.
pub open spec fn is_verdict(
    res: Result<(), ExchangeError>,
    account: AccountKey,
    exchange: Exchange,
    left: Seq<Seq<char>>,
) -> bool {
    match res {
        Ok(()) => left.len() == 0,
        Err(e) => left.len() > 0 && (e matches ExchangeError::Other(s) && s@ == incomplete_text(
            account,
            exchange,
            left,
        )),
    }
}

/// Sums up a removal: it fails if anything was left undone.
pub fn finish_removal(account: &AccountId, exchange: Exchange, incomplete: &Vec<String>) -> (res: Result<(), ExchangeError>)
    ensures
        is_verdict(res, account@, exchange, text::views(incomplete@)),
{
    assert(text::views(incomplete@).len() == incomplete@.len());
    if incomplete.len() == 0 {
        return Ok(());
    }
    let mut s = joined("撤下未完成（账户 ", account.name().as_str());
    s.append("，交易所 ");
    s.append(exchange.name());
    s.append("），需人工核对: ");
    s.append(join_text(incomplete, "; ").as_str());
    Err(ExchangeError::Other(s))
}

/// What is left undone after several replies.
pub open spec fn left_after(left: Seq<Seq<char>>, replies: Seq<RemovalReply>) -> Seq<Seq<char>>
    decreases replies.len(),
{
    if replies.len() == 0 {
        left
    } else {
        let earlier = left_after(left, replies.drop_last());
        match shortfall(replies.last()) {
            Some(s) => earlier.push(s),
            None => earlier,
        }
    }
}

/// Nothing that was left undone is forgotten: one step that failed, or whose end is not known,
/// and the removal does not end well, whatever comes after it.
pub proof fn one_shortfall_fails_the_removal(
    left: Seq<Seq<char>>,
    replies: Seq<RemovalReply>,
    i: int,
    res: Result<(), ExchangeError>,
    account: AccountKey,
    exchange: Exchange,
)
    requires
        0 <= i < replies.len(),
        shortfall(replies[i]) is Some,
        is_verdict(res, account, exchange, left_after(left, replies)),
    ensures
        res is Err,
{
    lemma_left_grows(left, replies, i);
}

proof fn lemma_left_grows(left: Seq<Seq<char>>, replies: Seq<RemovalReply>, i: int)
    requires
        0 <= i < replies.len(),
        shortfall(replies[i]) is Some,
    ensures
        left_after(left, replies).len() > 0,
    decreases replies.len(),
{
    let rest = replies.drop_last();
    if i < rest.len() {
        assert(rest[i] == replies[i]);
        lemma_left_grows(left, rest, i);
    }
}

/// A removal under way.
pub struct Removal {
    account: AccountId,
    exchange: Exchange,
    targets: Vec<Symbol>,
    todo: Vec<RemovalStep>,
    /// How many steps have been given out.
    at: usize,
    /// Whether the orders that close positions are among the steps, or there are to be none.
    closing: bool,
    positions: Table<(Exchange, Symbol), Quantity>,
    incomplete: Vec<String>,
}

/// What a removal holds positions of.
pub open spec fn found_all(
    m: Map<(Exchange, Seq<char>), Quantity>,
    positions: Seq<Position>,
) -> Map<(Exchange, Seq<char>), Quantity>
    decreases positions.len(),
{
    if positions.len() == 0 {
        m
    } else {
        let p = positions.last();
        found_all(m, positions.drop_last()).insert((p.exchange, p.symbol@), p.size)
    }
}

/// Whether this is how a removal starts out.
pub open spec fn is_planned(
    r: Removal,
    msg: RemoveStrategies,
    executors: Seq<RegisteredExecutor>,
    accounts: Set<Exchange>,
) -> bool {
    let cleanup = accounts.contains(msg.exchange) && msg.account is Live;
    &&& r.inv()
    &&& r.whose() == msg.account@
    &&& r.venue() == msg.exchange
    &&& r.target_list() == msg.symbols@
    &&& r.given() == 0
    &&& r.is_closing() == !cleanup
    &&& r.holdings() == Map::<(Exchange, Seq<char>), Quantity>::empty()
    &&& r.positions() == Seq::<((Exchange, Symbol), Quantity)>::empty()
    &&& r.left() == refusals(executors, msg.account@, msg.symbols@)
    &&& r.steps() == plan(
        going(executors, msg.account@, msg.symbols@),
        msg.flatten && msg.account is Live,
        msg.symbols@,
        cleanup,
    )
}

impl Removal {
    /// The steps so far.
    pub closed spec fn steps(&self) -> Seq<RemovalStep> {
        self.todo@
    }

    /// How many steps have been given out.
    pub closed spec fn given(&self) -> nat {
        self.at as nat
    }

    /// Whether the orders that close positions are among the steps, or there are to be none.
    pub closed spec fn is_closing(&self) -> bool {
        self.closing
    }

    /// What the strategies that go hold, by leg, in the order in which it was told.
    pub closed spec fn positions(&self) -> Seq<((Exchange, Symbol), Quantity)> {
        self.positions.entries()
    }

    /// What the strategies that go hold, by leg.
    pub open spec fn holdings(&self) -> Map<(Exchange, Seq<char>), Quantity> {
        table::entries_map(self.positions())
    }

    /// What was left undone.
    pub closed spec fn left(&self) -> Seq<Seq<char>> {
        text::views(self.incomplete@)
    }

    /// Whose strategies go.
    pub closed spec fn whose(&self) -> AccountKey {
        self.account@
    }

    /// Where positions are closed.
    pub closed spec fn venue(&self) -> Exchange {
        self.exchange
    }

    /// What is to go.
    pub closed spec fn target_list(&self) -> Seq<Symbol> {
        self.targets@
    }

    /// No more steps have been given out than there are, and none of them is the end.
    pub closed spec fn inv(&self) -> bool {
        &&& self.at <= self.todo@.len()
        &&& forall|i: int| 0 <= i < self.todo@.len() ==> !(#[trigger] self.todo@[i] is Done)
    }

    /// The instruments that are to go.
    pub fn targets(&self) -> (v: &Vec<Symbol>)
        ensures
            v@ == self.target_list(),
    {
        &self.targets
    }

    /// Plans a removal: which of the strategies go, and by which steps. `has_account` says whether
    /// the engine has an account on the venue; without one nothing of the engine's can be there.
    pub fn new(msg: RemoveStrategies, executors: Vec<RegisteredExecutor>, has_account: bool) -> (r: (
        Removal,
        Vec<RegisteredExecutor>,
    ))
        ensures
            r.0.inv(),
            r.0.whose() == msg.account@,
            r.0.venue() == msg.exchange,
            r.0.target_list() == msg.symbols@,
            r.0.given() == 0,
            r.0.is_closing() == !(has_account && msg.account is Live),
            r.0.holdings() == Map::<(Exchange, Seq<char>), Quantity>::empty(),
            r.0.positions() == Seq::<((Exchange, Symbol), Quantity)>::empty(),
            r.1@ == staying(executors@, msg.account@, msg.symbols@),
            r.0.left() == refusals(executors@, msg.account@, msg.symbols@),
            r.0.steps() == plan(
                going(executors@, msg.account@, msg.symbols@),
                msg.flatten && msg.account is Live,
                msg.symbols@,
                has_account && msg.account is Live,
            ),
    {
        let ghost all = executors@;
        let ghost account = msg.account@;
        let ghost targets = msg.symbols@;
        let is_live = msg.account.is_live();
        let ask = msg.flatten && is_live;
        let mut todo: Vec<RemovalStep> = Vec::new();
        let mut kept: Vec<RegisteredExecutor> = Vec::new();
        let mut incomplete: Vec<String> = Vec::new();
        let mut left = executors;
        let n = left.len();
        let mut i: usize = 0;
        assert(todo@ =~= stopping(going(all.take(0), account, targets), ask));
        assert(kept@ =~= staying(all.take(0), account, targets));
        assert(text::views(incomplete@) =~= refusals(all.take(0), account, targets));
        while i < n
            invariant
                i <= n,
                n == all.len(),
                account == msg.account@,
                targets == msg.symbols@,
                left@ == all.subrange(i as int, n as int),
                todo@ == stopping(going(all.take(i as int), account, targets), ask),
                kept@ == staying(all.take(i as int), account, targets),
                text::views(incomplete@) == refusals(all.take(i as int), account, targets),
            decreases n - i,
        {
            let reg = left.remove(0);
            assert(reg == all[i as int]);
            assert(left@ =~= all.subrange(i + 1, n as int));
            assert(all.take(i + 1).drop_last() =~= all.take(i as int));
            if !hit(&reg, &msg.account, &msg.symbols) {
                kept.push(reg);
            } else {
                let missing = not_covered(&reg.symbols, &msg.symbols);
                assert(text::views(missing@).len() == missing@.len());
                if missing.len() > 0 {
                    let mut s = joined("实例覆盖 ", list_to_text(&missing).as_str());
                    s.append(" 不在本次 targets 内，拒绝部分降级");
                    let ghost was = incomplete@;
                    incomplete.push(s);
                    assert(text::views(incomplete@) =~= text::views(was).push(s@));
                    kept.push(reg);
                } else {
                    let id = reg.executor;
                    let ghost was = todo@;
                    if ask {
                        todo.push(RemovalStep::AskPositions(id));
                    }
                    todo.push(RemovalStep::Unregister(id));
                    todo.push(RemovalStep::Stop(id));
                    proof {
                        assert(todo@ =~= was + steps_for(id, ask));
                        let now = going(all.take(i + 1), account, targets);
                        assert(now.drop_last() =~= going(all.take(i as int), account, targets));
                    }
                }
            }
            i = i + 1;
        }
        assert(all.take(i as int) =~= all);
        let ghost stops = todo@;
        if is_live && has_account {
            let mut k: usize = 0;
            assert(todo@ =~= stops + cancelling(targets.take(0)));
            while k < msg.symbols.len()
                invariant
                    k <= msg.symbols.len(),
                    targets == msg.symbols@,
                    todo@ == stops + cancelling(targets.take(k as int)),
                decreases msg.symbols.len() - k,
            {
                todo.push(RemovalStep::CancelLeftovers(msg.symbols[k].clone()));
                assert(todo@ =~= stops + cancelling(targets.take(k + 1)));
                k = k + 1;
            }
            assert(targets.take(k as int) =~= targets);
        } else {
            assert(stops + Seq::<RemovalStep>::empty() =~= stops);
        }
        proof {
            lemma_stopping(going(all, account, targets), ask);
            assert forall|i: int| 0 <= i < todo@.len() implies !(#[trigger] todo@[i] is Done) by {
                if i < stops.len() {
                    assert(is_stopping(stops[i]));
                }
            }
        }
        (
            Removal {
                account: msg.account,
                exchange: msg.exchange,
                targets: msg.symbols,
                todo,
                at: 0,
                closing: !(is_live && has_account),
                positions: Table::new(),
                incomplete,
            },
            kept,
        )
    }

    fn plan_closing(&mut self)
        ensures
            final(self).at == old(self).at,
            final(self).closing,
            final(self).positions == old(self).positions,
            final(self).incomplete == old(self).incomplete,
            final(self).account == old(self).account,
            final(self).exchange == old(self).exchange,
            final(self).targets == old(self).targets,
            exists|orders: Seq<RemovalStep>|
                #[trigger] all_close(orders, old(self).exchange, to_close(old(self).positions.entries(), old(self).exchange))
                    && final(self).todo@ == old(self).todo@ + orders,
    {
        self.closing = true;
        let ghost found = self.positions.entries();
        let ghost start = self.todo@;
        let ghost mut orders: Seq<RemovalStep> = Seq::empty();
        let n = self.positions.len();
        let mut i: usize = 0;
        assert(self.todo@ =~= start + orders);
        while i < n
            invariant
                i <= n,
                n == found.len(),
                found == self.positions.entries(),
                self.at == old(self).at,
                self.closing,
                self.positions == old(self).positions,
                self.incomplete == old(self).incomplete,
                self.account == old(self).account,
                self.exchange == old(self).exchange,
                self.targets == old(self).targets,
                all_close(orders, self.exchange, to_close(found.take(i as int), self.exchange)),
                self.todo@ == start + orders,
            decreases n - i,
        {
            assert(found.take(i + 1).drop_last() =~= found.take(i as int));
            let (on, symbol) = self.positions.key_at(i);
            let size = *self.positions.value_at(i);
            if *on == self.exchange && amount::exceeds(size, amount::QUANTITY_EPSILON) {
                let order = Order {
                    id: "".to_owned(),
                    exchange: self.exchange,
                    symbol: symbol.clone(),
                    side: if size > 0 {
                        Side::Short
                    } else {
                        Side::Long
                    },
                    order_type: OrderType::Market,
                    quantity: size_of(size),
                    reduce_only: true,
                    client_order_id: self.exchange.new_cli_order_id(),
                };
                let ghost step = RemovalStep::Place(order);
                self.todo.push(RemovalStep::Place(order));
                proof {
                    let next = orders.push(step);
                    let positions = to_close(found.take(i + 1), self.exchange);
                    assert forall|k: int| 0 <= k < next.len() implies (#[trigger] next[k] matches RemovalStep::Place(o) && closes(o, self.exchange, positions[k].0, positions[k].1)) by {
                        if k < orders.len() {
                            assert(next[k] == orders[k]);
                        }
                    }
                    assert(self.todo@ =~= start + next);
                    orders = next;
                }
            }
            i = i + 1;
        }
        assert(found.take(i as int) =~= found);
        assert(all_close(orders, old(self).exchange, to_close(old(self).positions.entries(), old(self).exchange)));
    }

    /// Gives out the next step. After the planned steps come the orders that close the positions
    /// that were found; after those, the end.
    pub fn next(&mut self) -> (step: RemovalStep)
        requires
            old(self).inv(),
        ensures
            final(self).inv(),
            final(self).left() == old(self).left(),
            final(self).holdings() == old(self).holdings(),
            final(self).positions() == old(self).positions(),
            final(self).whose() == old(self).whose(),
            final(self).venue() == old(self).venue(),
            final(self).target_list() == old(self).target_list(),
            old(self).given() < old(self).steps().len() ==> {
                &&& step == old(self).steps()[old(self).given() as int]
                &&& final(self).given() == old(self).given() + 1
                &&& final(self).steps() == old(self).steps()
                &&& final(self).is_closing() == old(self).is_closing()
            },
            old(self).given() == old(self).steps().len() ==> {
                &&& final(self).is_closing()
                &&& exists|orders: Seq<RemovalStep>| {
                    &&& final(self).steps() == old(self).steps() + orders
                    &&& #[trigger] follow(orders, old(self).is_closing(), old(self).venue(), old(self).positions())
                    &&& if orders.len() > 0 {
                        step == orders[0] && final(self).given() == old(self).given() + 1
                    } else {
                        (step matches RemovalStep::Done(res) && is_verdict(res, old(self).whose(), old(self).venue(), old(self).left())) && final(self).given() == old(self).given()
                    }
                }
            },
    {
        if self.at < self.todo.len() {
            let step = copy_step(&self.todo[self.at]);
            self.at = self.at + 1;
            return step;
        }
        let ghost before = self.todo@;
        let ghost mut orders: Seq<RemovalStep> = Seq::empty();
        if !self.closing {
            self.plan_closing();
            proof {
                orders = choose|orders: Seq<RemovalStep>|
                    #[trigger] all_close(orders, old(self).exchange, to_close(old(self).positions.entries(), old(self).exchange))
                        && self.todo@ == before + orders;
            }
        } else {
            assert(before + orders =~= before);
        }
        assert(follow(orders, old(self).is_closing(), old(self).venue(), old(self).positions()));
        assert forall|i: int| 0 <= i < self.todo@.len() implies !(#[trigger] self.todo@[i] is Done) by {
            if i >= before.len() {
                assert(self.todo@[i] == orders[i - before.len()]);
            }
        }
        if self.at < self.todo.len() {
            assert(self.todo@[self.at as int] == orders[0]);
            let step = copy_step(&self.todo[self.at]);
            self.at = self.at + 1;
            step
        } else {
            assert(orders.len() == 0);
            RemovalStep::Done(finish_removal(&self.account, self.exchange, &self.incomplete))
        }
    }

    /// Takes in what a step came to.
    pub fn report(&mut self, reply: RemovalReply)
        requires
            old(self).inv(),
        ensures
            final(self).inv(),
            final(self).steps() == old(self).steps(),
            final(self).given() == old(self).given(),
            final(self).is_closing() == old(self).is_closing(),
            final(self).whose() == old(self).whose(),
            final(self).venue() == old(self).venue(),
            final(self).target_list() == old(self).target_list(),
            final(self).left() == (match shortfall(reply) {
                Some(s) => old(self).left().push(s),
                None => old(self).left(),
            }),
            final(self).holdings() == (match reply {
                RemovalReply::Positions(Ok(v)) => found_all(old(self).holdings(), v@),
                _ => old(self).holdings(),
            }),
            !(reply is Positions) ==> final(self).positions() == old(self).positions(),
            table::distinct_keys(final(self).positions()),
    {
        let ghost was = self.incomplete@;
        match reply {
            RemovalReply::Positions(Ok(v)) => {
                let ghost m = self.positions@;
                let mut i: usize = 0;
                while i < v.len()
                    invariant
                        i <= v.len(),
                        self.positions@ == found_all(m, v@.take(i as int)),
                        self.todo == old(self).todo,
                        self.at == old(self).at,
                        self.closing == old(self).closing,
                        self.incomplete == old(self).incomplete,
                        self.account == old(self).account,
                        self.exchange == old(self).exchange,
                        self.targets == old(self).targets,
                    decreases v.len() - i,
                {
                    assert(v@.take(i + 1).drop_last() =~= v@.take(i as int));
                    self.positions.insert((v[i].exchange, v[i].symbol.clone()), v[i].size);
                    i = i + 1;
                }
                assert(v@.take(i as int) =~= v@);
            },
            RemovalReply::Positions(Err(e)) => {
                self.incomplete.push(joined("取本地持仓失败: ", e.as_str()));
            },
            RemovalReply::Unregistered => {},
            RemovalReply::Stopped(Ok(())) => {},
            RemovalReply::Stopped(Err(e)) => {
                self.incomplete.push(joined("实例未确认停止: ", e.as_str()));
            },
            RemovalReply::LeftoversCancelled(_, Ok(())) => {},
            RemovalReply::LeftoversCancelled(symbol, Err(e)) => {
                let mut s = joined(symbol.as_str(), ": 遗留挂单未撤净 (");
                s.append(e.message().as_str());
                s.append(")");
                self.incomplete.push(s);
            },
            RemovalReply::Placed(symbol, Ok(v)) => {
                match v {
                    PlaceVerdict::ExchangeSpoke => {
                        self.incomplete.push(
                            joined(symbol.as_str(), ": 平仓单结论未知（交易所已回报，REST 失败），需复核"),
                        );
                    },
                    _ => {},
                }
            },
            RemovalReply::Placed(symbol, Err(e)) => {
                let mut s = joined(symbol.as_str(), ": 平仓下单失败 (");
                s.append(e.as_str());
                s.append(")");
                self.incomplete.push(s);
            },
        }
        proof {
            use_type_invariant(&self.positions);
            if let Some(s) = shortfall(reply) {
                assert(text::views(self.incomplete@) =~= text::views(was).push(s));
            }
        }
    }
}

fn copy_step(step: &RemovalStep) -> (r: RemovalStep)
    ensures
        !(step is Done) ==> r == *step,
{
    match step {
        RemovalStep::AskPositions(id) => RemovalStep::AskPositions(*id),
        RemovalStep::Unregister(id) => RemovalStep::Unregister(*id),
        RemovalStep::Stop(id) => RemovalStep::Stop(*id),
        RemovalStep::CancelLeftovers(s) => RemovalStep::CancelLeftovers(s.clone()),
        RemovalStep::Place(o) => RemovalStep::Place(o.clone()),
        RemovalStep::Done(_) => RemovalStep::Done(Ok(())),
    }
}

fn hit(reg: &RegisteredExecutor, account: &AccountId, targets: &Vec<Symbol>) -> (b: bool)
    ensures
        b == is_hit(*reg, account@, targets@),
{
    if !reg.account.same(account) {
        return false;
    }
    let mut i: usize = 0;
    while i < targets.len()
        invariant
            i <= targets.len(),
            reg.account@ == account@,
            forall|j: int| 0 <= j < i ==> !scope::listed(reg.symbols@, (#[trigger] targets@[j])@),
        decreases targets.len() - i,
    {
        if contains_symbol(&reg.symbols, &targets[i]) {
            assert(scope::listed(reg.symbols@, targets@[i as int]@));
            return true;
        }
        i = i + 1;
    }
    false
}

fn not_covered(symbols: &Vec<Symbol>, targets: &Vec<Symbol>) -> (v: Vec<String>)
    ensures
        text::views(v@) == uncovered(symbols@, targets@),
{
    let mut v: Vec<String> = Vec::new();
    let mut i: usize = 0;
    assert(text::views(v@) =~= uncovered(symbols@.take(0), targets@));
    while i < symbols.len()
        invariant
            i <= symbols.len(),
            text::views(v@) == uncovered(symbols@.take(i as int), targets@),
        decreases symbols.len() - i,
    {
        assert(symbols@.take(i + 1).drop_last() =~= symbols@.take(i as int));
        if !contains_symbol(targets, &symbols[i]) {
            let ghost was = v@;
            v.push(symbols[i].clone());
            assert(text::views(v@) =~= text::views(was).push(symbols@[i as int]@));
        }
        i = i + 1;
    }
    assert(symbols@.take(i as int) =~= symbols@);
    v
}

/// A strategy goes exactly when it trades for the account, one of its instruments is to go, and none of
/// them is to stay: it is never cut in two.
pub proof fn a_strategy_goes_whole_or_stays(reg: RegisteredExecutor, account: AccountKey, targets: Seq<Symbol>)
    ensures
        goes(reg, account, targets) <==> {
            &&& reg.account@ == account
            &&& exists|i: int| 0 <= i < targets.len() && scope::listed(reg.symbols@, (#[trigger] targets[i])@)
            &&& forall|j: int| 0 <= j < reg.symbols@.len() ==> scope::listed(targets, (#[trigger] reg.symbols@[j])@)
        },
{
    lemma_none_picked(reg.symbols@, targets);
}

proof fn lemma_none_picked(symbols: Seq<Symbol>, targets: Seq<Symbol>)
    ensures
        uncovered(symbols, targets).len() == 0 <==> forall|j: int|
            0 <= j < symbols.len() ==> scope::listed(targets, (#[trigger] symbols[j])@),
    decreases symbols.len(),
{
    if symbols.len() > 0 {
        let rest = symbols.drop_last();
        lemma_none_picked(rest, targets);
        assert(symbols[symbols.len() - 1] == symbols.last());
        assert forall|j: int| 0 <= j < rest.len() implies rest[j] == #[trigger] symbols[j] by {}
        if uncovered(symbols, targets).len() == 0 {
            assert forall|j: int| 0 <= j < symbols.len() implies scope::listed(targets, (#[trigger] symbols[j])@) by {
                if j < rest.len() {
                    assert(scope::listed(targets, rest[j]@));
                }
            }
        }
        if forall|j: int| 0 <= j < symbols.len() ==> scope::listed(targets, (#[trigger] symbols[j])@) {
            assert forall|j: int| 0 <= j < rest.len() implies scope::listed(targets, (#[trigger] rest[j])@) by {
                assert(scope::listed(targets, symbols[j]@));
            }
        }
    }
}

/// The instruments that keep a strategy from going are those that are not to go, in their order.
pub proof fn what_is_not_to_go_is_named(symbols: Seq<Symbol>, targets: Seq<Symbol>)
    ensures
        uncovered(symbols, targets) == symbols.filter(|s: Symbol| !scope::listed(targets, s@)).map_values(
            |s: Symbol| s@,
        ),
    decreases symbols.len(),
{
    table::lemma_picked(symbols, |s: Symbol| !scope::listed(targets, s@), |s: Symbol| s@);
    if symbols.len() > 0 {
        what_is_not_to_go_is_named(symbols.drop_last(), targets);
    }
}

/// Each strategy at work either goes or stays, in its order, and those that are hit but stay are told
/// why.
pub proof fn each_strategy_goes_or_stays(regs: Seq<RegisteredExecutor>, account: AccountKey, targets: Seq<Symbol>)
    ensures
        going(regs, account, targets) == regs.filter(|r: RegisteredExecutor| goes(r, account, targets)).map_values(
            |r: RegisteredExecutor| r.executor,
        ),
        staying(regs, account, targets) == regs.filter(|r: RegisteredExecutor| !goes(r, account, targets)),
        refusals(regs, account, targets) == regs.filter(
            |r: RegisteredExecutor| is_hit(r, account, targets) && !goes(r, account, targets),
        ).map_values(|r: RegisteredExecutor| refusal_text(uncovered(r.symbols@, targets))),
    decreases regs.len(),
{
    table::lemma_picked(
        regs,
        |r: RegisteredExecutor| goes(r, account, targets),
        |r: RegisteredExecutor| r.executor,
    );
    table::lemma_picked_as_is(regs, |r: RegisteredExecutor| !goes(r, account, targets));
    table::lemma_picked(
        regs,
        |r: RegisteredExecutor| is_hit(r, account, targets) && !goes(r, account, targets),
        |r: RegisteredExecutor| refusal_text(uncovered(r.symbols@, targets)),
    );
    if regs.len() > 0 {
        each_strategy_goes_or_stays(regs.drop_last(), account, targets);
    }
}

/// Each strategy that goes is taken off its events before it is stopped, and asked before that for what
/// it holds where that matters; one after the other.
pub proof fn each_strategy_is_stopped_in_turn(ids: Seq<ActorId>, ask: bool, i: int)
    requires
        0 <= i < ids.len(),
    ensures
        ask ==> stopping(ids, ask).len() == 3 * ids.len(),
        ask ==> stopping(ids, ask)[3 * i] == RemovalStep::AskPositions(ids[i]),
        ask ==> stopping(ids, ask)[3 * i + 1] == RemovalStep::Unregister(ids[i]),
        ask ==> stopping(ids, ask)[3 * i + 2] == RemovalStep::Stop(ids[i]),
        !ask ==> stopping(ids, ask).len() == 2 * ids.len(),
        !ask ==> stopping(ids, ask)[2 * i] == RemovalStep::Unregister(ids[i]),
        !ask ==> stopping(ids, ask)[2 * i + 1] == RemovalStep::Stop(ids[i]),
    decreases ids.len(),
{
    reveal_with_fuel(stopping, 2);
    let rest = ids.drop_last();
    if rest.len() > 0 {
        each_strategy_is_stopped_in_turn(rest, ask, if i < rest.len() { i } else { 0 });
    }
    if i < rest.len() {
        assert(rest[i] == ids[i]);
    } else {
        assert(ids[i] == ids.last());
    }
}

/// A removal stops its strategies and, where orders can be left on the venue, has the leftovers of every
/// instrument cancelled; nothing else is done.
pub proof fn a_removal_cleans_every_instrument_up(
    ids: Seq<ActorId>,
    ask: bool,
    targets: Seq<Symbol>,
    cleanup: bool,
    i: int,
)
    requires
        0 <= i < targets.len(),
    ensures
        cleanup ==> plan(ids, ask, targets, cleanup).len() == stopping(ids, ask).len() + targets.len(),
        cleanup ==> plan(ids, ask, targets, cleanup)[stopping(ids, ask).len() + i] == RemovalStep::CancelLeftovers(
            targets[i],
        ),
        !cleanup ==> plan(ids, ask, targets, cleanup) == stopping(ids, ask),
        plan(ids, ask, targets, cleanup).take(stopping(ids, ask).len() as int) == stopping(ids, ask),
{
    assert(plan(ids, ask, targets, cleanup).take(stopping(ids, ask).len() as int) =~= stopping(ids, ask));
    assert(!cleanup ==> plan(ids, ask, targets, cleanup) =~= stopping(ids, ask));
}

/// An order that closes a position trades exactly what is held, the other way, at any price, and can
/// open nothing.
pub proof fn a_closing_order_undoes_the_position(order: Order, exchange: Exchange, symbol: Symbol, size: Quantity)
    requires
        closes(order, exchange, symbol, size),
        size > i128::MIN,
    ensures
        order.exchange == exchange,
        order.symbol == symbol,
        order.reduce_only,
        order.order_type is Market,
        order.quantity >= 0,
        size + domain::signed_size(order.side, order.quantity) == 0,
        order.id@.len() == 0,
        text::has_prefix(order.client_order_id@, domain::cli_order_prefix(exchange)),
{
    reveal_strlit("");
}

/// The positions to close are those found on the venue that count as something, in their order.
pub proof fn what_counts_on_the_venue_is_closed(found: Seq<((Exchange, Symbol), Quantity)>, exchange: Exchange)
    ensures
        to_close(found, exchange) == found.filter(
            |f: ((Exchange, Symbol), Quantity)| f.0.0 == exchange && (f.1 > 10_000 || f.1 < -10_000),
        ).map_values(|f: ((Exchange, Symbol), Quantity)| (f.0.1, f.1)),
    decreases found.len(),
{
    table::lemma_picked(
        found,
        |f: ((Exchange, Symbol), Quantity)| f.0.0 == exchange && (f.1 > 10_000 || f.1 < -10_000),
        |f: ((Exchange, Symbol), Quantity)| (f.0.1, f.1),
    );
    if found.len() > 0 {
        what_counts_on_the_venue_is_closed(found.drop_last(), exchange);
    }
}

/// A reply leaves something undone exactly when it tells of a failure, or of an order of which nobody
/// knows what became.
pub proof fn a_shortfall_is_a_failure_told(reply: RemovalReply)
    ensures
        shortfall(reply) is Some <==> match reply {
            RemovalReply::Positions(r) => r is Err,
            RemovalReply::Stopped(r) => r is Err,
            RemovalReply::LeftoversCancelled(_, r) => r is Err,
            RemovalReply::Placed(_, r) => r is Err || r->Ok_0 is ExchangeSpoke,
            _ => false,
        },
{
}

/// A removal is complete exactly when nothing was left undone before it and no reply left anything.
pub proof fn a_removal_is_complete_without_shortfalls(
    left: Seq<Seq<char>>,
    replies: Seq<RemovalReply>,
    res: Result<(), ExchangeError>,
    account: AccountKey,
    exchange: Exchange,
)
    requires
        is_verdict(res, account, exchange, left_after(left, replies)),
    ensures
        res is Ok <==> left.len() == 0 && forall|i: int|
            0 <= i < replies.len() ==> shortfall(#[trigger] replies[i]) is None,
{
    lemma_nothing_left(left, replies);
}

proof fn lemma_nothing_left(left: Seq<Seq<char>>, replies: Seq<RemovalReply>)
    ensures
        left_after(left, replies).len() == 0 <==> left.len() == 0 && forall|i: int|
            0 <= i < replies.len() ==> shortfall(#[trigger] replies[i]) is None,
    decreases replies.len(),
{
    if replies.len() > 0 {
        let rest = replies.drop_last();
        lemma_nothing_left(left, rest);
        assert(replies[replies.len() - 1] == replies.last());
        if left_after(left, replies).len() == 0 {
            assert forall|i: int| 0 <= i < replies.len() implies shortfall(#[trigger] replies[i]) is None by {
                if i < rest.len() {
                    assert(rest[i] == replies[i]);
                }
            }
        }
        if forall|i: int| 0 <= i < replies.len() ==> shortfall(#[trigger] replies[i]) is None {
            assert forall|i: int| 0 <= i < rest.len() implies shortfall(#[trigger] rest[i]) is None by {
                assert(rest[i] == replies[i]);
            }
        }
    }
}

/// What is found to be held on a leg is what was last told of it.
pub proof fn the_last_word_on_a_position_counts(
    m: Map<(Exchange, Seq<char>), Quantity>,
    positions: Seq<Position>,
    i: int,
    leg: (Exchange, Seq<char>),
)
    ensures
        0 <= i < positions.len() && (positions[i].exchange, positions[i].symbol@) == leg && (forall|j: int|
            i < j < positions.len() ==> (#[trigger] positions[j]).exchange != leg.0 || positions[j].symbol@ != leg.1)
            ==> found_all(m, positions).dom().contains(leg) && found_all(m, positions)[leg] == positions[i].size,
        (forall|j: int|
            0 <= j < positions.len() ==> (#[trigger] positions[j]).exchange != leg.0 || positions[j].symbol@ != leg.1)
            ==> found_all(m, positions).dom().contains(leg) == m.dom().contains(leg) && found_all(m, positions)[leg]
            == m[leg],
    decreases positions.len(),
{
    if positions.len() > 0 {
        let rest = positions.drop_last();
        the_last_word_on_a_position_counts(m, rest, i, leg);
        assert(positions[positions.len() - 1] == positions.last());
        assert forall|j: int| 0 <= j < rest.len() implies rest[j] == #[trigger] positions[j] by {}
    }
}

/// A removal that is not complete says of everything that was left undone.
pub proof fn an_incomplete_removal_says_what_is_left(
    res: Result<(), ExchangeError>,
    account: AccountKey,
    exchange: Exchange,
    left: Seq<Seq<char>>,
    i: int,
)
    requires
        is_verdict(res, account, exchange, left),
        0 <= i < left.len(),
    ensures
        res is Err,
        text::holds(domain::error_text(res->Err_0), left[i]),
{
    let joined = text::join(left, "; "@);
    text::joining_loses_no_part(left, "; "@, i);
    let start = "撤下未完成（账户 "@ + domain::account_name(account) + "，交易所 "@ + domain::exchange_name(exchange)
        + "），需人工核对: "@;
    text::what_is_held_stays_held(start, joined, Seq::empty(), left[i]);
    assert(start + joined + Seq::<char>::empty() =~= incomplete_text(account, exchange, left));
}

/// A strategy that is refused is told with the instruments that keep it.
pub proof fn a_refused_strategy_is_told_what_keeps_it(missing: Seq<Seq<char>>, i: int)
    requires
        0 <= i < missing.len(),
    ensures
        text::holds(refusal_text(missing), text::quoted(missing[i])),
{
    provisioning::a_list_is_told_item_by_item(missing, i);
    text::what_is_held_stays_held(
        "实例覆盖 "@,
        provisioning::list_text(missing),
        " 不在本次 targets 内，拒绝部分降级"@,
        text::quoted(missing[i]),
    );
}

/// A removal as planned is of the account, the venue and the instruments asked for: it stops exactly the
/// strategies that go, asks them for their positions where these are to be closed on the real account, and
/// cleans up where there is an account and it is the real one.
pub proof fn a_removal_is_planned_as_asked(
    r: Removal,
    msg: RemoveStrategies,
    executors: Seq<RegisteredExecutor>,
    accounts: Set<Exchange>,
)
    requires
        is_planned(r, msg, executors, accounts),
    ensures
        r.whose() == msg.account@,
        r.venue() == msg.exchange,
        r.target_list() == msg.symbols@,
        r.given() == 0,
        r.is_closing() <==> !(msg.account is Live && accounts.contains(msg.exchange)),
        r.holdings().dom() == Set::<(Exchange, Seq<char>)>::empty(),
        r.left() == refusals(executors, msg.account@, msg.symbols@),
        r.steps() == stopping(going(executors, msg.account@, msg.symbols@), msg.flatten && msg.account is Live) + (
        if msg.account is Live && accounts.contains(msg.exchange) {
            msg.symbols@.map_values(|s: Symbol| RemovalStep::CancelLeftovers(s))
        } else {
            Seq::empty()
        }),
{
}

} // verus!
