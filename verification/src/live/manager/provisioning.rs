//! What it takes to put strategies to work, and to take them off.

use vstd::prelude::*;
use vstd::string::StringExecFns;
use crate::domain;
use crate::domain::{AccountId, Exchange, ExchangeError, OrderUpdate, Position, PositionBaseline};
use crate::domain::{Symbol, SymbolMeta, SymbolMetas};
use crate::scope;
use crate::scope::SubscriptionScope;
use crate::subscription;
use crate::subscription::{Capabilities, SubscriptionKind};
use crate::table::{Key, Table};
use crate::text;
use crate::text::{join_text, joined, natural, quote, sort};

verus! {

/// A set of streams.
pub type StreamSet = Table<(Exchange, SubscriptionKind), ()>;

/// A stream as text.
pub open spec fn kind_text(kind: SubscriptionKind) -> Seq<char> {
    let symbol = text::quoted(subscription::stream_symbol(kind)@);
    match kind {
        SubscriptionKind::BBO { .. } => "BBO { symbol: "@ + symbol + " }"@,
        SubscriptionKind::Trades { .. } => "Trades { symbol: "@ + symbol + " }"@,
        SubscriptionKind::MarkPrice { .. } => "MarkPrice { symbol: "@ + symbol + " }"@,
        SubscriptionKind::FundingRate { .. } => "FundingRate { symbol: "@ + symbol + " }"@,
        SubscriptionKind::Candle { interval, .. } => "Candle { symbol: "@ + symbol + (match interval {
            subscription::CandleInterval::Min1 => ", interval: Min1 }"@,
            subscription::CandleInterval::Min5 => ", interval: Min5 }"@,
            subscription::CandleInterval::Hour1 => ", interval: Hour1 }"@,
        }),
    }
}

fn describe(kind: &SubscriptionKind) -> (s: String)
    ensures
        s@ == kind_text(*kind),
{
    let head = match kind {
        SubscriptionKind::BBO { .. } => "BBO { symbol: ",
        SubscriptionKind::Trades { .. } => "Trades { symbol: ",
        SubscriptionKind::MarkPrice { .. } => "MarkPrice { symbol: ",
        SubscriptionKind::FundingRate { .. } => "FundingRate { symbol: ",
        SubscriptionKind::Candle { .. } => "Candle { symbol: ",
    };
    let mut s = joined(head, quote(kind.symbol().as_str()).as_str());
    s.append(
        match kind {
            SubscriptionKind::Candle { interval, .. } => match interval {
                subscription::CandleInterval::Min1 => ", interval: Min1 }",
                subscription::CandleInterval::Min5 => ", interval: Min5 }",
                subscription::CandleInterval::Hour1 => ", interval: Hour1 }",
            },
            _ => " }",
        },
    );
    s
}

/// What stands in the way of a stream: the venue is not set up, its adapter does not carry the
/// stream, or the rules of the leg are not known.
pub open spec fn problem(
    exchange: Exchange,
    kind: SubscriptionKind,
    capabilities: Map<Exchange, Capabilities>,
    metas: Map<(Exchange, Seq<char>), SymbolMeta>,
) -> Option<Seq<char>> {
    let symbol = subscription::stream_symbol(kind)@;
    if !capabilities.dom().contains(exchange) {
        Some(domain::exchange_name(exchange) + " 未配置（"@ + kind_text(kind) + " 无从订阅）"@)
    } else if !subscription::carries(capabilities[exchange], kind) {
        Some(domain::exchange_name(exchange) + " 的适配层不支持 "@ + kind_text(kind))
    } else if !metas.dom().contains((exchange, symbol)) {
        Some(
            domain::exchange_name(exchange) + "/"@ + symbol
                + " 没有 SymbolMeta（元数据加载时被剔除或该合约不存在）—— 下单会被拒、私有回报会因无法折算张数被丢弃"@,
        )
    } else {
        None
    }
}

/// What stands in the way of streams.
pub open spec fn problems(
    streams: Seq<((Exchange, SubscriptionKind), ())>,
    capabilities: Map<Exchange, Capabilities>,
    metas: Map<(Exchange, Seq<char>), SymbolMeta>,
) -> Seq<Seq<char>>
    decreases streams.len(),
{
    if streams.len() == 0 {
        Seq::empty()
    } else {
        let (exchange, kind) = streams.last().0;
        let earlier = problems(streams.drop_last(), capabilities, metas);
        match problem(exchange, kind, capabilities, metas) {
            Some(p) => earlier.push(p),
            None => earlier,
        }
    }
}

fn problem_of(
    exchange: Exchange,
    kind: &SubscriptionKind,
    capabilities: &Table<Exchange, Capabilities>,
    metas: &SymbolMetas,
) -> (r: Option<String>)
    ensures
        match r {
            Some(s) => problem(exchange, *kind, capabilities@, metas@) == Some(s@),
            None => problem(exchange, *kind, capabilities@, metas@) is None,
        },
{
    match capabilities.get(&exchange) {
        None => {
            let mut s = exchange.name().to_owned();
            s.append(" 未配置（");
            s.append(describe(kind).as_str());
            s.append(" 无从订阅）");
            Some(s)
        },
        Some(c) => {
            if !c.supports(kind) {
                let mut s = exchange.name().to_owned();
                s.append(" 的适配层不支持 ");
                s.append(describe(kind).as_str());
                Some(s)
            } else if !metas.contains_key(&(exchange, kind.symbol().clone())) {
                let mut s = exchange.name().to_owned();
                s.append("/");
                s.append(kind.symbol().as_str());
                s.append(" 没有 SymbolMeta（元数据加载时被剔除或该合约不存在）—— 下单会被拒、私有回报会因无法折算张数被丢弃");
                Some(s)
            } else {
                None
            }
        },
    }
}

/// Whether `s` tells all that stands in the way, each once per stream and in order.
pub open spec fn tells_all(s: Seq<char>, found: Seq<Seq<char>>) -> bool {
    exists|lines: Seq<Seq<char>>|
        #[trigger] text::sorted(lines) && lines.to_multiset() == found.to_multiset() && s
            == "策略订阅不可行，拒绝投产: "@ + text::join(lines, "; "@)
}

/// Whether the venues can serve the streams. All that stands in the way is told at once.
pub fn validate_subscriptions(
    subscriptions: &StreamSet,
    capabilities: &Table<Exchange, Capabilities>,
    symbol_metas: &SymbolMetas,
) -> (res: Result<(), String>)
    ensures
        match res {
            Ok(()) => problems(subscriptions.entries(), capabilities@, symbol_metas@).len() == 0,
            Err(s) => problems(subscriptions.entries(), capabilities@, symbol_metas@).len() > 0
                && tells_all(s@, problems(subscriptions.entries(), capabilities@, symbol_metas@)),
        },
{
    let n = subscriptions.len();
    let ghost all = subscriptions.entries();
    let mut found: Vec<String> = Vec::new();
    let mut i: usize = 0;
    assert(text::views(found@) =~= problems(all.take(0), capabilities@, symbol_metas@));
    while i < n
        invariant
            i <= n,
            n == all.len(),
            all == subscriptions.entries(),
            text::views(found@) == problems(all.take(i as int), capabilities@, symbol_metas@),
        decreases n - i,
    {
        assert(all.take(i + 1).drop_last() =~= all.take(i as int));
        let (exchange, kind) = subscriptions.key_at(i);
        if let Some(p) = problem_of(*exchange, kind, capabilities, symbol_metas) {
            let ghost was = found@;
            found.push(p);
            assert(text::views(found@) =~= text::views(was).push(p@));
        }
        i = i + 1;
    }
    assert(all.take(i as int) =~= all);
    let ghost told = text::views(found@);
    assert(told.len() == found@.len());
    if found.len() == 0 {
        return Ok(());
    }
    let lines = sort(found);
    let mut s = "策略订阅不可行，拒绝投产: ".to_owned();
    s.append(join_text(&lines, "; ").as_str());
    assert(text::sorted(text::views(lines@)));
    Err(s)
}

/// Streams are accepted exactly when nothing stands in the way of any of them.
pub proof fn accepted_means_every_stream_can_be_served(
    streams: Seq<((Exchange, SubscriptionKind), ())>,
    capabilities: Map<Exchange, Capabilities>,
    metas: Map<(Exchange, Seq<char>), SymbolMeta>,
)
    ensures
        problems(streams, capabilities, metas).len() == 0 <==> forall|i: int|
            0 <= i < streams.len() ==> problem(
                (#[trigger] streams[i]).0.0,
                streams[i].0.1,
                capabilities,
                metas,
            ) is None,
    decreases streams.len(),
{
    if streams.len() > 0 {
        let rest = streams.drop_last();
        accepted_means_every_stream_can_be_served(rest, capabilities, metas);
        let last = streams.len() - 1;
        if problems(streams, capabilities, metas).len() == 0 {
            assert forall|i: int| 0 <= i < streams.len() implies problem((#[trigger] streams[i]).0.0, streams[i].0.1, capabilities, metas) is None by {
                if i < last {
                    assert(rest[i] == streams[i]);
                }
            }
        }
        if forall|i: int| 0 <= i < streams.len() ==> problem((#[trigger] streams[i]).0.0, streams[i].0.1, capabilities, metas) is None {
            assert forall|i: int| 0 <= i < rest.len() implies problem((#[trigger] rest[i]).0.0, rest[i].0.1, capabilities, metas) is None by {
                assert(streams[i] == rest[i]);
            }
            assert(problem(streams[last].0.0, streams[last].0.1, capabilities, metas) is None);
        }
    }
}

/// What a strategy starts from on a leg: the venue's snapshot on the real account, where there is
/// one; nothing held, where there is none, and on a simulated account.
pub open spec fn starting_position(
    account: AccountId,
    rest: Map<(Exchange, Seq<char>), PositionBaseline>,
    leg: (Exchange, Symbol),
) -> PositionBaseline {
    if account is Live && rest.dom().contains(leg.id()) {
        rest[leg.id()]
    } else {
        PositionBaseline {
            position: Position { exchange: leg.0, symbol: leg.1, size: 0 },
            snapshot_req_ts: 0,
        }
    }
}

/// What a strategy starts from: a position for every leg of its scope.
pub fn executor_baselines(
    account: &AccountId,
    scope: &SubscriptionScope,
    rest: &Table<(Exchange, Symbol), PositionBaseline>,
) -> (v: Vec<PositionBaseline>)
    ensures
        exists|legs: Seq<(Exchange, Symbol)>| {
            &&& #[trigger] scope::leg_set(legs) == scope@
            &&& scope::distinct_legs(legs)
            &&& v@ == Seq::new(legs.len(), |i: int| starting_position(*account, rest@, legs[i]))
        },
{
    let legs = scope.pairs();
    let mut v: Vec<PositionBaseline> = Vec::new();
    let mut i: usize = 0;
    while i < legs.len()
        invariant
            i <= legs.len(),
            v@.len() == i,
            forall|j: int| 0 <= j < i ==> #[trigger] v@[j] == starting_position(*account, rest@, legs@[j]),
        decreases legs.len() - i,
    {
        let known = if account.is_live() {
            match rest.get(&legs[i]) {
                Some(b) => Some(b.clone()),
                None => None,
            }
        } else {
            None
        };
        let b = match known {
            Some(b) => b,
            None => PositionBaseline {
                position: Position { exchange: legs[i].0, symbol: legs[i].1.clone(), size: 0 },
                snapshot_req_ts: 0,
            },
        };
        v.push(b);
        i = i + 1;
    }
    assert(v@ =~= Seq::new(legs@.len(), |i: int| starting_position(*account, rest@, legs@[i])));
    assert(scope::leg_set(legs@) == scope@);
    v
}

/// A simulated account never starts from a real position.
pub proof fn simulated_accounts_start_from_nothing(
    label: String,
    rest: Map<(Exchange, Seq<char>), PositionBaseline>,
    leg: (Exchange, Symbol),
)
    ensures
        starting_position(AccountId::Paper(label), rest, leg).position.size == 0,
        starting_position(AccountId::Paper(label), rest, leg).snapshot_req_ts == 0,
{
}

/// The open orders that this engine placed.
pub open spec fn own_orders(exchange: Exchange, all: Seq<OrderUpdate>) -> Seq<OrderUpdate>
    decreases all.len(),
{
    if all.len() == 0 {
        all
    } else {
        let earlier = own_orders(exchange, all.drop_last());
        if is_own(exchange, all.last()) {
            earlier.push(all.last())
        } else {
            earlier
        }
    }
}

/// Whether this engine placed an order: it carries a client order id, and that is this engine's.
pub open spec fn is_own(exchange: Exchange, o: OrderUpdate) -> bool {
    o.client_order_id matches Some(id) && domain::owns_id(exchange, id@)
}

/// The open orders that this engine placed. All others, and those that carry no id, are left
/// alone.
pub fn own_pending_orders(exchange: Exchange, all: &Vec<OrderUpdate>) -> (v: Vec<OrderUpdate>)
    ensures
        v@ == own_orders(exchange, all@),
{
    let mut v: Vec<OrderUpdate> = Vec::new();
    let mut i: usize = 0;
    assert(v@ =~= own_orders(exchange, all@.take(0)));
    while i < all.len()
        invariant
            i <= all.len(),
            v@ == own_orders(exchange, all@.take(i as int)),
        decreases all.len() - i,
    {
        assert(all@.take(i + 1).drop_last() =~= all@.take(i as int));
        let own = match &all[i].client_order_id {
            Some(id) => exchange.owns_cli_order_id(id.as_str()),
            None => false,
        };
        if own {
            v.push(all[i].clone());
        }
        i = i + 1;
    }
    assert(all@.take(i as int) =~= all@);
    v
}

/// Only orders of this engine's are ever taken for its own, and none of them is missed.
pub proof fn only_own_orders_are_touched(exchange: Exchange, all: Seq<OrderUpdate>, o: OrderUpdate)
    ensures
        own_orders(exchange, all).contains(o) <==> all.contains(o) && is_own(exchange, o),
    decreases all.len(),
{
    if all.len() > 0 {
        let rest = all.drop_last();
        let last = all.last();
        only_own_orders_are_touched(exchange, rest, o);
        assert(all =~= rest.push(last));
        lemma_push_has(rest, last, o);
        lemma_push_has(own_orders(exchange, rest), last, o);
    }
}

proof fn lemma_push_has<T>(s: Seq<T>, x: T, y: T)
    ensures
        s.push(x).contains(y) == (s.contains(y) || x == y),
{
    if s.contains(y) {
        let i = choose|i: int| 0 <= i < s.len() && s[i] == y;
        assert(s.push(x)[i] == y);
    }
    if x == y {
        assert(s.push(x)[s.len() as int] == y);
    }
    if s.push(x).contains(y) && x != y {
        let i = choose|i: int| 0 <= i < s.push(x).len() && s.push(x)[i] == y;
        assert(s[i] == y);
    }
}

/// A list of texts as text.
pub open spec fn list_text(list: Seq<Seq<char>>) -> Seq<char> {
    "["@ + text::join(list.map_values(|s: Seq<char>| text::quoted(s)), ", "@) + "]"@
}

/// A list of texts as text.
pub fn list_to_text(list: &Vec<String>) -> (s: String)
    ensures
        s@ == list_text(text::views(list@)),
{
    let mut quoted: Vec<String> = Vec::new();
    let mut i: usize = 0;
    while i < list.len()
        invariant
            i <= list.len(),
            quoted@.len() == i,
            forall|j: int| 0 <= j < i ==> (#[trigger] quoted@[j])@ == text::quoted(list@[j]@),
        decreases list.len() - i,
    {
        quoted.push(quote(list[i].as_str()));
        i = i + 1;
    }
    assert(text::views(quoted@) =~= text::views(list@).map_values(|s: Seq<char>| text::quoted(s)));
    let mut s = joined("[", join_text(&quoted, ", ").as_str());
    s.append("]");
    s
}

/// The venue's ids of orders.
pub open spec fn order_ids(orders: Seq<OrderUpdate>) -> Seq<Seq<char>> {
    orders.map_values(|o: OrderUpdate| o.order_id@)
}

fn ids_of(orders: &Vec<OrderUpdate>) -> (v: Vec<String>)
    ensures
        text::views(v@) == order_ids(orders@),
        v@.len() == orders@.len(),
{
    let mut v: Vec<String> = Vec::new();
    let mut i: usize = 0;
    while i < orders.len()
        invariant
            i <= orders.len(),
            v@.len() == i,
            forall|j: int| 0 <= j < i ==> (#[trigger] v@[j])@ == orders@[j].order_id@,
        decreases orders.len() - i,
    {
        v.push(orders[i].order_id.clone());
        i = i + 1;
    }
    assert(text::views(v@) =~= order_ids(orders@));
    v
}

/// How orders that will not go away are told.
pub open spec fn leftover_text(exchange: Exchange, symbol: Seq<char>, ids: Seq<Seq<char>>) -> Seq<char> {
    domain::exchange_name(exchange) + "/"@ + symbol + ": 撤单后复查仍有 "@ + text::digits(ids.len())
        + " 张本引擎遗留挂单，拒绝启动（留着无人看管的挂单开跑，策略会在旁边重复挂单）；order_id: "@
        + list_text(ids)
}

/// What to do next about the orders that an earlier run left open on a leg.
#[derive(Debug)]
pub enum LeftoverStep {
    /// Cancel these, by the venue's ids; what that comes to is asked afterwards.
    CancelAll(Vec<String>),
    Done(Result<(), ExchangeError>),
}

/// Cancels the orders that an earlier run left open on a leg, and makes sure that they are gone.
pub struct LeftoverCancel {
    pub exchange: Exchange,
    pub symbol: Symbol,
    /// Whether cancellations have been sent.
    pub cancelled: bool,
}

impl LeftoverCancel {
    /// Nothing has been asked yet.
    pub fn new(exchange: Exchange, symbol: Symbol) -> (c: Self)
        ensures
            c == (LeftoverCancel { exchange, symbol, cancelled: false }),
    {
        LeftoverCancel { exchange, symbol, cancelled: false }
    }

    /// Takes in the leg's open orders. The first time, this engine's are cancelled; the second
    /// time, any that are still there are a failure.
    pub fn on_fetched(&mut self, result: Result<Vec<OrderUpdate>, ExchangeError>) -> (step: LeftoverStep)
        ensures
            final(self).exchange == old(self).exchange,
            final(self).symbol == old(self).symbol,
            match result {
                Err(e) => step == LeftoverStep::Done(Err(e)) && *final(self) == *old(self),
                Ok(all) => {
                    let own = own_orders(old(self).exchange, all@);
                    if own.len() == 0 {
                        step == LeftoverStep::Done(Ok(())) && *final(self) == *old(self)
                    } else if !old(self).cancelled {
                        &&& step matches LeftoverStep::CancelAll(ids)
                        &&& text::views(ids@) == order_ids(own)
                        &&& final(self).cancelled
                    } else {
                        &&& *final(self) == *old(self)
                        &&& step matches LeftoverStep::Done(Err(ExchangeError::Other(s)))
                        &&& s@ == leftover_text(
                            old(self).exchange,
                            old(self).symbol@,
                            order_ids(own),
                        )
                    }
                },
            },
    {
        match result {
            Err(e) => LeftoverStep::Done(Err(e)),
            Ok(all) => {
                let own = own_pending_orders(self.exchange, &all);
                if own.len() == 0 {
                    LeftoverStep::Done(Ok(()))
                } else {
                    let ids = ids_of(&own);
                    if !self.cancelled {
                        self.cancelled = true;
                        LeftoverStep::CancelAll(ids)
                    } else {
                        let mut s = self.exchange.name().to_owned();
                        s.append("/");
                        s.append(self.symbol.as_str());
                        s.append(": 撤单后复查仍有 ");
                        s.append(natural(ids.len() as u128).as_str());
                        s.append(
                            " 张本引擎遗留挂单，拒绝启动（留着无人看管的挂单开跑，策略会在旁边重复挂单）；order_id: ",
                        );
                        s.append(list_to_text(&ids).as_str());
                        assert(text::views(ids@).len() == ids@.len());
                        LeftoverStep::Done(Err(ExchangeError::Other(s)))
                    }
                }
            },
        }
    }
}

/// A stream can be served exactly when its venue is set up and carries its kind, and the rules of its
/// leg are known.
pub proof fn a_stream_is_served_where_it_can_be(
    exchange: Exchange,
    kind: SubscriptionKind,
    capabilities: Map<Exchange, Capabilities>,
    metas: Map<(Exchange, Seq<char>), SymbolMeta>,
)
    ensures
        problem(exchange, kind, capabilities, metas) is None <==> {
            &&& capabilities.dom().contains(exchange)
            &&& subscription::carries(capabilities[exchange], kind)
            &&& metas.dom().contains((exchange, subscription::stream_symbol(kind)@))
        },
{
}

/// Every stream that cannot be served is told, in its order.
pub proof fn every_problem_is_told(
    streams: Seq<((Exchange, SubscriptionKind), ())>,
    capabilities: Map<Exchange, Capabilities>,
    metas: Map<(Exchange, Seq<char>), SymbolMeta>,
)
    ensures
        problems(streams, capabilities, metas) == streams.filter(
            |s: ((Exchange, SubscriptionKind), ())| problem(s.0.0, s.0.1, capabilities, metas) is Some,
        ).map_values(|s: ((Exchange, SubscriptionKind), ())| problem(s.0.0, s.0.1, capabilities, metas)->0),
    decreases streams.len(),
{
    crate::table::lemma_picked(
        streams,
        |s: ((Exchange, SubscriptionKind), ())| problem(s.0.0, s.0.1, capabilities, metas) is Some,
        |s: ((Exchange, SubscriptionKind), ())| problem(s.0.0, s.0.1, capabilities, metas)->0,
    );
    if streams.len() > 0 {
        every_problem_is_told(streams.drop_last(), capabilities, metas);
    }
}

/// The real account starts on a leg from what was read of it, and from nothing where nothing was read.
pub proof fn the_real_account_starts_from_what_was_read(
    rest: Map<(Exchange, Seq<char>), PositionBaseline>,
    leg: (Exchange, Symbol),
)
    ensures
        ({
            let b = starting_position(AccountId::Live, rest, leg);
            &&& rest.dom().contains((leg.0, leg.1@)) ==> b == rest[(leg.0, leg.1@)]
            &&& !rest.dom().contains((leg.0, leg.1@)) ==> b.position.exchange == leg.0 && b.position.symbol == leg.1
                && b.position.size == 0 && b.snapshot_req_ts == 0
        }),
{
}

/// The orders that are the engine's own are all of those on the venue that carry an id with its prefix,
/// in their order.
pub proof fn own_orders_keep_their_order(exchange: Exchange, all: Seq<OrderUpdate>)
    ensures
        own_orders(exchange, all) == all.filter(
            |o: OrderUpdate| o.client_order_id is Some && domain::owns_id(exchange, o.client_order_id->0@),
        ),
    decreases all.len(),
{
    crate::table::lemma_picked_as_is(
        all,
        |o: OrderUpdate| o.client_order_id is Some && domain::owns_id(exchange, o.client_order_id->0@),
    );
    if all.len() > 0 {
        own_orders_keep_their_order(exchange, all.drop_last());
    }
}

/// Orders are told by the ids that the venue gave them, one for one.
pub proof fn orders_are_told_by_their_ids(orders: Seq<OrderUpdate>, i: int)
    requires
        0 <= i < orders.len(),
    ensures
        order_ids(orders).len() == orders.len(),
        order_ids(orders)[i] == orders[i].order_id@,
{
}

/// A refusal of streams names every problem found.
pub proof fn a_refusal_names_every_problem(s: Seq<char>, found: Seq<Seq<char>>, i: int)
    requires
        tells_all(s, found),
        0 <= i < found.len(),
    ensures
        text::holds(s, found[i]),
{
    let lines = choose|lines: Seq<Seq<char>>|
        #[trigger] text::sorted(lines) && lines.to_multiset() == found.to_multiset() && s
            == "策略订阅不可行，拒绝投产: "@ + text::join(lines, "; "@);
    vstd::seq_lib::to_multiset_contains(found, found[i]);
    vstd::seq_lib::to_multiset_contains(lines, found[i]);
    assert(found.contains(found[i]));
    assert(found.to_multiset().count(found[i]) > 0);
    assert(lines.contains(found[i]));
    let j = choose|j: int| 0 <= j < lines.len() && lines[j] == found[i];
    let joined = text::join(lines, "; "@);
    text::joining_loses_no_part(lines, "; "@, j);
    text::what_is_held_stays_held("策略订阅不可行，拒绝投产: "@, joined, Seq::empty(), found[i]);
    assert("策略订阅不可行，拒绝投产: "@ + joined + Seq::<char>::empty() =~= s);
}

/// A list is told with every item, quoted.
pub proof fn a_list_is_told_item_by_item(list: Seq<Seq<char>>, i: int)
    requires
        0 <= i < list.len(),
    ensures
        text::holds(list_text(list), text::quoted(list[i])),
{
    let parts = list.map_values(|s: Seq<char>| text::quoted(s));
    text::joining_loses_no_part(parts, ", "@, i);
    text::what_is_held_stays_held("["@, text::join(parts, ", "@), "]"@, text::quoted(list[i]));
}

/// Orders left over are told with their leg and each of their ids.
pub proof fn leftovers_are_told_by_id(exchange: Exchange, symbol: Seq<char>, ids: Seq<Seq<char>>, i: int)
    requires
        0 <= i < ids.len(),
    ensures
        text::has_prefix(leftover_text(exchange, symbol, ids), domain::exchange_name(exchange) + "/"@ + symbol),
        text::holds(leftover_text(exchange, symbol, ids), text::quoted(ids[i])),
{
    a_list_is_told_item_by_item(ids, i);
    let leg = domain::exchange_name(exchange) + "/"@ + symbol;
    let start = leg + ": 撤单后复查仍有 "@ + text::digits(ids.len())
        + " 张本引擎遗留挂单，拒绝启动（留着无人看管的挂单开跑，策略会在旁边重复挂单）；order_id: "@;
    text::what_is_held_stays_held(start, list_text(ids), Seq::empty(), text::quoted(ids[i]));
    assert(start + list_text(ids) + Seq::<char>::empty() =~= leftover_text(exchange, symbol, ids));
    assert(leftover_text(exchange, symbol, ids).take(leg.len() as int) =~= leg);
}

} // verus!
