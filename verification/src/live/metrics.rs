//! What the engine tells about itself: accounts, positions, orders, results.
//!
//! The view is built from events alone. Simulated accounts have books of their own and never
//! touch those of the real one. Results count from the start of the session: what was already
//! held then is no profit.

use vstd::prelude::*;
use crate::amount;
use crate::amount::{minus, plus, size_of};
use crate::domain;
use crate::domain::{AccountId, AccountKey, Exchange, Money, PositionBaseline, Quantity, Symbol};
use crate::event;
use crate::event::{AccountData, AccountEvent, Delivery, IncomeEvent, MarketEvent, Reach};
use crate::live::supervisor::record::Ratio;
use crate::scope;
use crate::state;
use crate::state::{AccountInfo, StateManager, StateModel, SymbolModel, SymbolState};
use crate::stats;
use crate::stats::{StatsModel, TradingStats};
use crate::table;
use crate::table::{Key, Table};

verus! {

/// How often a report is made, in milliseconds.
pub const DEFAULT_REPORT_INTERVAL_MS: u64 = 60_000;

/// The view has no orders to give up.
pub const NO_ORDER_TIMEOUT: u64 = 0;

/// Totals by instrument or simulated account keep no fills in full.
pub const NO_FILL_DETAIL: usize = 0;

/// An instrument's positions over its venues, and what they are worth.
#[derive(Clone, Copy, Debug, PartialEq, Eq, Structural)]
pub struct SymbolExposure {
    /// The sum of the positions.
    pub net_size: Quantity,
    /// What the positions are worth, each without its sign.
    pub gross_notional: Money,
    /// What the positions are worth.
    pub net_notional: Money,
    /// What the positions are worth beyond those at the start of the session.
    pub session_notional_delta: Money,
    /// On how many venues there is a position.
    pub legs: u64,
    /// On how many of them there is no quote to value it by.
    pub unpriced_legs: u64,
}

/// No position.
pub open spec fn no_exposure() -> SymbolExposure {
    SymbolExposure {
        net_size: 0,
        gross_notional: 0,
        net_notional: 0,
        session_notional_delta: 0,
        legs: 0,
        unpriced_legs: 0,
    }
}

impl Default for SymbolExposure {
    fn default() -> (e: Self)
        ensures
            e == no_exposure(),
    {
        SymbolExposure {
            net_size: 0,
            gross_notional: 0,
            net_notional: 0,
            session_notional_delta: 0,
            legs: 0,
            unpriced_legs: 0,
        }
    }
}

/// Every venue, in a fixed order.
pub open spec fn venues() -> Seq<Exchange> {
    seq![Exchange::Binance, Exchange::OKX, Exchange::Hyperliquid, Exchange::IBKR]
}

/// What was held on a venue at the start of the session; nothing where nothing is known.
pub open spec fn start_of(baseline: Map<Exchange, Quantity>, exchange: Exchange) -> Quantity {
    if baseline.dom().contains(exchange) {
        baseline[exchange]
    } else {
        0
    }
}

/// The sum of two counts, as far as a `u64` counts.
pub open spec fn count_sum(a: u64, b: u64) -> u64 {
    if a + b > u64::MAX {
        u64::MAX
    } else {
        (a + b) as u64
    }
}

/// The exposure with one venue more. A venue that holds nothing adds nothing; one without a quote
/// adds its position, and nothing to what the positions are worth.
pub open spec fn with_venue(
    e: SymbolExposure,
    s: SymbolModel,
    baseline: Map<Exchange, Quantity>,
    exchange: Exchange,
) -> SymbolExposure {
    let size = state::held(s, exchange);
    if domain::is_empty_size(size as int) {
        e
    } else {
        let counted = SymbolExposure {
            legs: count_sum(e.legs, 1),
            net_size: amount::clamp(e.net_size + size) as Quantity,
            ..e
        };
        if s.bbos.dom().contains(exchange) {
            let quote = s.bbos[exchange];
            let gained = amount::clamp(size - start_of(baseline, exchange));
            SymbolExposure {
                gross_notional: amount::clamp(
                    e.gross_notional + event::worth_at_mid(quote, amount::clamp(amount::abs(size as int))),
                ) as Money,
                net_notional: amount::clamp(e.net_notional + event::worth_at_mid(quote, size as int)) as Money,
                session_notional_delta: amount::clamp(
                    e.session_notional_delta + event::worth_at_mid(quote, gained),
                ) as Money,
                ..counted
            }
        } else {
            SymbolExposure { unpriced_legs: count_sum(e.unpriced_legs, 1), ..counted }
        }
    }
}

/// The exposure over the first venues.
pub open spec fn exposure_over(
    s: SymbolModel,
    baseline: Map<Exchange, Quantity>,
    over: Seq<Exchange>,
) -> SymbolExposure
    decreases over.len(),
{
    if over.len() == 0 {
        no_exposure()
    } else {
        with_venue(exposure_over(s, baseline, over.drop_last()), s, baseline, over.last())
    }
}

/// An instrument's exposure.
pub open spec fn exposure(s: SymbolModel, baseline: Map<Exchange, Quantity>) -> SymbolExposure {
    exposure_over(s, baseline, venues())
}

/// What was held at the start of the session.
pub open spec fn baseline_view(b: Option<&Table<Exchange, Quantity>>) -> Map<Exchange, Quantity> {
    match b {
        Some(t) => t@,
        None => Map::empty(),
    }
}

fn add_venue(
    e: SymbolExposure,
    s: &SymbolState,
    baseline: Option<&Table<Exchange, Quantity>>,
    exchange: Exchange,
) -> (r: SymbolExposure)
    ensures
        r == with_venue(e, s@, baseline_view(baseline), exchange),
{
    let size = s.position_size(exchange);
    if !amount::exceeds(size, amount::QUANTITY_EPSILON) {
        return e;
    }
    let legs = e.legs.saturating_add(1);
    let net_size = plus(e.net_size, size);
    match s.bbo(exchange) {
        Some(bbo) => {
            let start: Quantity = match baseline {
                Some(t) => match t.get(&exchange) {
                    Some(q) => *q,
                    None => 0,
                },
                None => 0,
            };
            SymbolExposure {
                legs,
                net_size,
                gross_notional: plus(e.gross_notional, bbo.worth_at_mid(size_of(size))),
                net_notional: plus(e.net_notional, bbo.worth_at_mid(size)),
                session_notional_delta: plus(
                    e.session_notional_delta,
                    bbo.worth_at_mid(minus(size, start)),
                ),
                unpriced_legs: e.unpriced_legs,
            }
        },
        None => SymbolExposure {
            legs,
            net_size,
            unpriced_legs: e.unpriced_legs.saturating_add(1),
            ..e
        },
    }
}

/// An instrument's exposure over its venues, against what was held at the start of the session.
pub fn exposure_of(s: &SymbolState, baseline: Option<&Table<Exchange, Quantity>>) -> (e: SymbolExposure)
    ensures
        e == exposure(s@, baseline_view(baseline)),
{
    proof {
        let v = venues();
        reveal_with_fuel(exposure_over, 5);
        assert(v.drop_last() =~= seq![Exchange::Binance, Exchange::OKX, Exchange::Hyperliquid]);
        assert(v.drop_last().drop_last() =~= seq![Exchange::Binance, Exchange::OKX]);
        assert(v.drop_last().drop_last().drop_last() =~= seq![Exchange::Binance]);
        assert(v.drop_last().drop_last().drop_last().drop_last() =~= Seq::<Exchange>::empty());
    }
    let none = SymbolExposure::default();
    let one = add_venue(none, s, baseline, Exchange::Binance);
    let two = add_venue(one, s, baseline, Exchange::OKX);
    let three = add_venue(two, s, baseline, Exchange::Hyperliquid);
    add_venue(three, s, baseline, Exchange::IBKR)
}

/// A position without a quote is counted as such, and is not valued at some other price.
pub proof fn a_position_without_a_quote_is_not_valued(
    e: SymbolExposure,
    s: SymbolModel,
    baseline: Map<Exchange, Quantity>,
    exchange: Exchange,
)
    requires
        !domain::is_empty_size(state::held(s, exchange) as int),
        !s.bbos.dom().contains(exchange),
    ensures
        with_venue(e, s, baseline, exchange).unpriced_legs == count_sum(e.unpriced_legs, 1),
        with_venue(e, s, baseline, exchange).gross_notional == e.gross_notional,
        with_venue(e, s, baseline, exchange).net_notional == e.net_notional,
        with_venue(e, s, baseline, exchange).session_notional_delta == e.session_notional_delta,
{
}

proof fn lemma_no_gain(s: SymbolModel, baseline: Map<Exchange, Quantity>, over: Seq<Exchange>)
    requires
        forall|e: Exchange| #[trigger] state::held(s, e) == start_of(baseline, e),
    ensures
        exposure_over(s, baseline, over).session_notional_delta == 0,
    decreases over.len(),
{
    if over.len() > 0 {
        lemma_no_gain(s, baseline, over.drop_last());
        let e = over.last();
        assert(state::held(s, e) == start_of(baseline, e));
        if s.bbos.dom().contains(e) {
            let twice = event::twice_mid(s.bbos[e]);
            assert(0 * twice == 0);
        }
    }
}

/// What was held before the session adds nothing to what the session has earned, whatever it is
/// worth now.
pub proof fn what_was_there_before_earns_nothing(s: SymbolModel, baseline: Map<Exchange, Quantity>)
    requires
        forall|e: Exchange| #[trigger] state::held(s, e) == start_of(baseline, e),
    ensures
        exposure(s, baseline).session_notional_delta == 0,
{
    lemma_no_gain(s, baseline, venues());
}

/// Whether a venue holds something of the instrument.
pub open spec fn is_leg(s: SymbolModel) -> spec_fn(Exchange) -> bool {
    |e: Exchange| !domain::is_empty_size(state::held(s, e) as int)
}

/// Whether a venue holds something that no quote values.
pub open spec fn is_unpriced_leg(s: SymbolModel) -> spec_fn(Exchange) -> bool {
    |e: Exchange| !domain::is_empty_size(state::held(s, e) as int) && !s.bbos.dom().contains(e)
}

/// How many venues have a property.
pub open spec fn how_many(over: Seq<Exchange>, has: spec_fn(Exchange) -> bool) -> nat
    decreases over.len(),
{
    if over.len() == 0 {
        0
    } else {
        how_many(over.drop_last(), has) + if has(over.last()) {
            1nat
        } else {
            0nat
        }
    }
}

/// The exposure counts the venues that hold something, and those of them without a quote. Where no
/// venue holds anything there is no exposure.
pub proof fn exposure_counts_its_legs(s: SymbolModel, baseline: Map<Exchange, Quantity>)
    ensures
        exposure(s, baseline).legs == how_many(venues(), is_leg(s)),
        exposure(s, baseline).unpriced_legs == how_many(venues(), is_unpriced_leg(s)),
        how_many(venues(), is_leg(s)) == 0 ==> exposure(s, baseline) == no_exposure(),
{
    lemma_counts(s, baseline, venues());
}

proof fn lemma_counts(s: SymbolModel, baseline: Map<Exchange, Quantity>, over: Seq<Exchange>)
    requires
        over.len() <= u64::MAX,
    ensures
        exposure_over(s, baseline, over).legs == how_many(over, is_leg(s)),
        exposure_over(s, baseline, over).unpriced_legs == how_many(over, is_unpriced_leg(s)),
        how_many(over, is_leg(s)) <= over.len(),
        how_many(over, is_unpriced_leg(s)) <= over.len(),
        how_many(over, is_leg(s)) == 0 ==> exposure_over(s, baseline, over) == no_exposure(),
    decreases over.len(),
{
    if over.len() > 0 {
        lemma_counts(s, baseline, over.drop_last());
    }
}

/// What a venue's position is worth, where it holds something and has a quote.
pub open spec fn worth_on(s: SymbolModel, e: Exchange) -> int {
    if !domain::is_empty_size(state::held(s, e) as int) && s.bbos.dom().contains(e) {
        amount::halved(state::held(s, e) * event::twice_mid(s.bbos[e]))
    } else {
        0
    }
}

/// What the positions are worth, each without its sign.
pub open spec fn gross_worth(s: SymbolModel, over: Seq<Exchange>) -> int
    decreases over.len(),
{
    if over.len() == 0 {
        0
    } else {
        gross_worth(s, over.drop_last()) + amount::abs(worth_on(s, over.last()))
    }
}

/// What the positions are worth.
pub open spec fn net_worth(s: SymbolModel, over: Seq<Exchange>) -> int
    decreases over.len(),
{
    if over.len() == 0 {
        0
    } else {
        net_worth(s, over.drop_last()) + worth_on(s, over.last())
    }
}

proof fn lemma_worth(s: SymbolModel, baseline: Map<Exchange, Quantity>, over: Seq<Exchange>)
    requires
        forall|e: Exchange| s.bbos.dom().contains(e) ==> #[trigger] event::twice_mid(s.bbos[e]) >= 0,
        forall|e: Exchange| #[trigger] state::held(s, e) > i128::MIN || event::twice_mid(s.bbos[e]) != 1,
        gross_worth(s, over) <= i128::MAX,
    ensures
        exposure_over(s, baseline, over).gross_notional == gross_worth(s, over),
        exposure_over(s, baseline, over).net_notional == net_worth(s, over),
        amount::abs(net_worth(s, over)) <= gross_worth(s, over),
    decreases over.len(),
{
    if over.len() > 0 {
        let e = over.last();
        lemma_worth(s, baseline, over.drop_last());
        if !domain::is_empty_size(state::held(s, e) as int) && s.bbos.dom().contains(e) {
            let size = state::held(s, e) as int;
            let twice = event::twice_mid(s.bbos[e]);
            assert(twice >= 0);
            assert(amount::abs(size * twice) == amount::abs(size) * twice) by (nonlinear_arith)
                requires
                    twice >= 0,
            ;
            if twice == 0 {
                let coins = amount::clamp(amount::abs(size));
                assert(size * twice == 0 && coins * twice == 0 && amount::abs(size) * twice == 0) by (nonlinear_arith)
                    requires
                        twice == 0,
                ;
            } else if twice >= 2 {
                assert(2 * amount::abs(size) <= amount::abs(size) * twice) by (nonlinear_arith)
                    requires
                        twice >= 2,
                        amount::abs(size) >= 0,
                ;
            }
        }
    }
}

/// What the positions are worth together is no more than what they are worth each without its sign,
/// where no quote is below nothing and the sum is within range. A position at the end of the range
/// whose price is half a unit is left out: without its sign it does not fit.
pub proof fn net_is_at_most_gross(s: SymbolModel, baseline: Map<Exchange, Quantity>)
    requires
        forall|e: Exchange| s.bbos.dom().contains(e) ==> #[trigger] event::twice_mid(s.bbos[e]) >= 0,
        forall|e: Exchange| #[trigger] state::held(s, e) > i128::MIN || event::twice_mid(s.bbos[e]) != 1,
        gross_worth(s, venues()) <= i128::MAX,
    ensures
        exposure(s, baseline).gross_notional == gross_worth(s, venues()),
        exposure(s, baseline).net_notional == net_worth(s, venues()),
        amount::abs(exposure(s, baseline).net_notional as int) <= exposure(s, baseline).gross_notional,
{
    lemma_worth(s, baseline, venues());
}

/// What a venue holds, where that counts as something.
pub open spec fn coins_on(s: SymbolModel, e: Exchange) -> int {
    if domain::is_empty_size(state::held(s, e) as int) {
        0
    } else {
        state::held(s, e) as int
    }
}

/// What a venue's position is worth beyond that at the start of the session, where it holds
/// something and has a quote.
pub open spec fn gain_on(s: SymbolModel, baseline: Map<Exchange, Quantity>, e: Exchange) -> int {
    if !domain::is_empty_size(state::held(s, e) as int) && s.bbos.dom().contains(e) {
        amount::halved(
            amount::clamp(state::held(s, e) - start_of(baseline, e)) * event::twice_mid(s.bbos[e]),
        )
    } else {
        0
    }
}

/// The sum over venues.
pub open spec fn sum_over(over: Seq<Exchange>, f: spec_fn(Exchange) -> int) -> int
    decreases over.len(),
{
    if over.len() == 0 {
        0
    } else {
        sum_over(over.drop_last(), f) + f(over.last())
    }
}

/// Whether each number, and each sum of the first few, is within range.
pub open spec fn sums_fit(over: Seq<Exchange>, f: spec_fn(Exchange) -> int) -> bool {
    &&& forall|i: int| 0 <= i < over.len() ==> amount::fits(f(#[trigger] over[i]))
    &&& forall|n: int| 0 <= n <= over.len() ==> amount::fits(sum_over(#[trigger] over.take(n), f))
}

proof fn lemma_sums_fit_rest(over: Seq<Exchange>, f: spec_fn(Exchange) -> int)
    requires
        over.len() > 0,
        sums_fit(over, f),
    ensures
        sums_fit(over.drop_last(), f),
        amount::fits(f(over.last())),
        amount::fits(sum_over(over, f)),
{
    let rest = over.drop_last();
    assert(over[over.len() - 1] == over.last());
    assert(over.take(over.len() as int) =~= over);
    assert forall|i: int| 0 <= i < rest.len() implies amount::fits(f(#[trigger] rest[i])) by {
        assert(over[i] == rest[i]);
    }
    assert forall|n: int| 0 <= n <= rest.len() implies amount::fits(sum_over(#[trigger] rest.take(n), f)) by {
        assert(over.take(n) =~= rest.take(n));
    }
}

proof fn lemma_coins(s: SymbolModel, baseline: Map<Exchange, Quantity>, over: Seq<Exchange>)
    requires
        sums_fit(over, |e: Exchange| coins_on(s, e)),
    ensures
        exposure_over(s, baseline, over).net_size == sum_over(over, |e: Exchange| coins_on(s, e)),
    decreases over.len(),
{
    if over.len() > 0 {
        lemma_sums_fit_rest(over, |e: Exchange| coins_on(s, e));
        lemma_coins(s, baseline, over.drop_last());
    }
}

proof fn lemma_gains(s: SymbolModel, baseline: Map<Exchange, Quantity>, over: Seq<Exchange>)
    requires
        sums_fit(over, |e: Exchange| gain_on(s, baseline, e)),
    ensures
        exposure_over(s, baseline, over).session_notional_delta == sum_over(over, |e: Exchange| gain_on(s, baseline, e)),
    decreases over.len(),
{
    if over.len() > 0 {
        lemma_sums_fit_rest(over, |e: Exchange| gain_on(s, baseline, e));
        lemma_gains(s, baseline, over.drop_last());
    }
}

/// The exposure adds up what every venue holds, and what is gained on those that have a quote.
pub proof fn exposure_adds_up_its_legs(s: SymbolModel, baseline: Map<Exchange, Quantity>)
    ensures
        sums_fit(venues(), |e: Exchange| coins_on(s, e)) ==> exposure(s, baseline).net_size == sum_over(
            venues(),
            |e: Exchange| coins_on(s, e),
        ),
        sums_fit(venues(), |e: Exchange| gain_on(s, baseline, e)) ==> exposure(s, baseline).session_notional_delta
            == sum_over(venues(), |e: Exchange| gain_on(s, baseline, e)),
{
    if sums_fit(venues(), |e: Exchange| coins_on(s, e)) {
        lemma_coins(s, baseline, venues());
    }
    if sums_fit(venues(), |e: Exchange| gain_on(s, baseline, e)) {
        lemma_gains(s, baseline, venues());
    }
}

/// The instruments to follow, and what is held of them at the start.
pub struct RegisterSymbols {
    pub symbols: Vec<Symbol>,
    pub baselines: Vec<PositionBaseline>,
}

/// What the report is made from.
pub struct MetricsActorArgs {
    pub interval_ms: u64,
    /// Where reports are pushed to, if anywhere.
    pub push_url: Option<String>,
}

/// What has been seen.
#[verifier::ext_equal]
pub struct MetricsModel {
    /// The real account's view.
    pub state: StateModel,
    pub followed_symbols: Set<Seq<char>>,
    /// What was held at the start of the session, by instrument and venue.
    pub baseline: Map<Seq<char>, Map<Exchange, Quantity>>,
    pub per_symbol: Map<Seq<char>, StatsModel>,
    pub total: StatsModel,
    /// Events of instruments that are not followed.
    pub untracked_events: u64,
    pub paper_stats: Map<AccountKey, StatsModel>,
    pub paper_accounts: Map<(AccountKey, Exchange), AccountInfo>,
}

/// Nothing has been seen.
pub open spec fn nothing_seen() -> MetricsModel {
    MetricsModel {
        state: StateModel {
            symbols: Map::empty(),
            accounts: Map::empty(),
            statuses: Map::empty(),
            order_timeout_ms: NO_ORDER_TIMEOUT,
        },
        followed_symbols: Set::empty(),
        baseline: Map::empty(),
        per_symbol: Map::empty(),
        total: stats::no_trades(stats::DEFAULT_RECENT_FILLS),
        untracked_events: 0,
        paper_stats: Map::empty(),
        paper_accounts: Map::empty(),
    }
}

/// Whether an event is of an instrument that is not followed.
pub open spec fn is_untracked(m: MetricsModel, reach: Reach) -> bool {
    reach matches Reach::Symbol(_, symbol) && !m.followed_symbols.contains(symbol)
}

/// Totals under a key, or none yet.
pub open spec fn totals<I>(m: Map<I, StatsModel>, key: I) -> StatsModel {
    if m.dom().contains(key) {
        m[key]
    } else {
        stats::no_trades(NO_FILL_DETAIL)
    }
}

/// Totals after an account's event.
pub open spec fn totals_after<I>(m: Map<I, StatsModel>, key: I, data: AccountData) -> Map<I, StatsModel> {
    match data {
        AccountData::Fill(fill) => m.insert(key, stats::with_fill(totals(m, key), fill)),
        AccountData::OrderUpdate(update) => m.insert(
            key,
            stats::with_update(totals(m, key), update),
        ),
        _ => m,
    }
}

/// What a simulated account's event changes: its own books, and nothing of the real account.
pub open spec fn paper_seen(m: MetricsModel, account: AccountKey, data: AccountData) -> MetricsModel {
    MetricsModel {
        paper_stats: totals_after(m.paper_stats, account, data),
        paper_accounts: match data {
            AccountData::AccountInfo { exchange, equity, notional } => m.paper_accounts.insert(
                (account, exchange),
                AccountInfo { equity, notional },
            ),
            _ => m.paper_accounts,
        },
        ..m
    }
}

/// The instrument that an account's event is of.
pub open spec fn account_symbol(data: AccountData) -> Seq<char> {
    match data {
        AccountData::Fill(fill) => fill.symbol@,
        AccountData::OrderUpdate(update) => update.symbol@,
        _ => Seq::empty(),
    }
}

/// What the real account's event changes.
pub open spec fn live_seen(m: MetricsModel, e: AccountEvent) -> MetricsModel {
    if is_untracked(m, event::account_reach(e.data)) {
        MetricsModel { untracked_events: stats::one_more(m.untracked_events), ..m }
    } else {
        MetricsModel {
            total: match e.data {
                AccountData::Fill(fill) => stats::with_fill(m.total, fill),
                AccountData::OrderUpdate(update) => stats::with_update(m.total, update),
                _ => m.total,
            },
            per_symbol: totals_after(m.per_symbol, account_symbol(e.data), e.data),
            state: state::applied(m.state, IncomeEvent::Account(e)),
            ..m
        }
    }
}

/// What an account's event changes.
pub open spec fn account_seen(m: MetricsModel, e: AccountEvent) -> MetricsModel {
    match e.account {
        AccountId::Live => live_seen(m, e),
        AccountId::Paper(_) => paper_seen(m, e.account@, e.data),
    }
}

/// What market data changes.
pub open spec fn market_seen(m: MetricsModel, e: MarketEvent) -> MetricsModel {
    if is_untracked(m, event::market_reach(e.data)) {
        MetricsModel { untracked_events: stats::one_more(m.untracked_events), ..m }
    } else {
        MetricsModel { state: state::applied(m.state, IncomeEvent::Market(e)), ..m }
    }
}

/// What was held of an instrument at the start of the session.
pub open spec fn starts(b: Map<Seq<char>, Map<Exchange, Quantity>>, symbol: Seq<char>) -> Map<Exchange, Quantity> {
    if b.dom().contains(symbol) {
        b[symbol]
    } else {
        Map::empty()
    }
}

/// The first that is known of a leg is what was held at the start of the session.
pub open spec fn start_recorded(
    b: Map<Seq<char>, Map<Exchange, Quantity>>,
    symbol: Seq<char>,
    exchange: Exchange,
    size: Quantity,
) -> Map<Seq<char>, Map<Exchange, Quantity>> {
    let known = starts(b, symbol);
    b.insert(
        symbol,
        if known.dom().contains(exchange) {
            known
        } else {
            known.insert(exchange, size)
        },
    )
}

/// The baselines, one after the other.
pub open spec fn starts_recorded(
    b: Map<Seq<char>, Map<Exchange, Quantity>>,
    baselines: Seq<PositionBaseline>,
) -> Map<Seq<char>, Map<Exchange, Quantity>>
    decreases baselines.len(),
{
    if baselines.len() == 0 {
        b
    } else {
        let p = baselines.last().position;
        start_recorded(starts_recorded(b, baselines.drop_last()), p.symbol@, p.exchange, p.size)
    }
}

/// More instruments are followed, from these baselines on.
pub open spec fn followed(m: MetricsModel, symbols: Seq<Symbol>, baselines: Seq<PositionBaseline>) -> MetricsModel {
    MetricsModel {
        state: state::seeded_all(state::registered(m.state, symbols), baselines),
        followed_symbols: Set::new(|s: Seq<char>| m.followed_symbols.contains(s) || scope::listed(symbols, s)),
        baseline: starts_recorded(m.baseline, baselines),
        ..m
    }
}

/// Keeps the books from which the engine reports.
pub struct MetricsActor {
    state: StateManager,
    followed_symbols: Table<Symbol, ()>,
    baseline: Table<Symbol, Table<Exchange, Quantity>>,
    per_symbol: Table<Symbol, TradingStats>,
    total: TradingStats,
    untracked_events: u64,
    paper_stats: Table<AccountId, TradingStats>,
    paper_accounts: Table<(AccountId, Exchange), AccountInfo>,
    push_url: Option<String>,
}

/// The models of totals.
pub open spec fn stat_views<I>(m: Map<I, TradingStats>) -> Map<I, StatsModel> {
    m.map_values(|s: TradingStats| s@)
}

spec fn baseline_views(m: Map<Seq<char>, Table<Exchange, Quantity>>) -> Map<Seq<char>, Map<Exchange, Quantity>> {
    m.map_values(|t: Table<Exchange, Quantity>| t@)
}

impl View for MetricsActor {
    type V = MetricsModel;

    closed spec fn view(&self) -> MetricsModel {
        MetricsModel {
            state: self.state@,
            followed_symbols: self.followed_symbols@.dom(),
            baseline: baseline_views(self.baseline@),
            per_symbol: stat_views(self.per_symbol@),
            total: self.total@,
            untracked_events: self.untracked_events,
            paper_stats: stat_views(self.paper_stats@),
            paper_accounts: self.paper_accounts@,
        }
    }
}

/// Takes an account's event into the totals under a key.
fn tally<K: Key>(table: &mut Table<K, TradingStats>, key: K, data: &AccountData)
    ensures
        stat_views(final(table)@) == totals_after(stat_views(old(table)@), key.id(), *data),
{
    let counts = match data {
        AccountData::Fill(_) => true,
        AccountData::OrderUpdate(_) => true,
        _ => false,
    };
    if counts {
        let ghost m = table@;
        let ghost id = key.id();
        let mut s = TradingStats::with_recent_capacity(NO_FILL_DETAIL);
        let place = table.position(&key);
        if let Some(at) = place {
            s = table.replace_at(at, s);
        }
        match data {
            AccountData::Fill(fill) => s.apply_fill(fill),
            AccountData::OrderUpdate(update) => s.apply_order_update(update),
            _ => {},
        }
        match place {
            Some(at) => {
                table.replace_at(at, s);
            },
            None => {
                table.insert(key, s);
            },
        }
        assert(stat_views(table@) =~= stat_views(m).insert(id, s@));
    }
}

impl MetricsActor {
    /// Where reports are pushed to, if anywhere.
    pub closed spec fn target(&self) -> Option<String> {
        self.push_url
    }

    /// Nothing has been seen, and nothing is pushed.
    pub fn new() -> (a: Self)
        ensures
            a@ == nothing_seen(),
            a.target() is None,
    {
        Self::on_start(MetricsActorArgs { interval_ms: DEFAULT_REPORT_INTERVAL_MS, push_url: None })
    }

    /// Nothing has been seen.
    pub fn on_start(args: MetricsActorArgs) -> (a: Self)
        ensures
            a@ == nothing_seen(),
            a.target() == args.push_url,
    {
        let a = MetricsActor {
            state: StateManager::new(&Vec::new(), NO_ORDER_TIMEOUT),
            followed_symbols: Table::new(),
            baseline: Table::new(),
            per_symbol: Table::new(),
            total: TradingStats::default(),
            untracked_events: 0,
            paper_stats: Table::new(),
            paper_accounts: Table::new(),
            push_url: args.push_url,
        };
        assert(a@.state.symbols =~= Map::<Seq<char>, SymbolModel>::empty());
        assert(a@ =~= nothing_seen());
        a
    }

    /// Takes in a simulated account's event.
    pub fn apply_paper_event(&mut self, account: &AccountId, data: &AccountData)
        ensures
            final(self)@ == paper_seen(old(self)@, account@, *data),
            final(self).target() == old(self).target(),
    {
        tally(&mut self.paper_stats, account.clone(), data);
        if let AccountData::AccountInfo { exchange, equity, notional } = data {
            self.paper_accounts.insert(
                (account.clone(), *exchange),
                AccountInfo { equity: *equity, notional: *notional },
            );
        }
    }

    /// Notes what is held of a leg at the start of the session, unless something is noted.
    pub fn record_baseline(&mut self, symbol: &Symbol, exchange: Exchange, size: Quantity)
        ensures
            final(self)@ == (MetricsModel {
                baseline: start_recorded(old(self)@.baseline, symbol@, exchange, size),
                ..old(self)@
            }),
            final(self).target() == old(self).target(),
    {
        let ghost m = self.baseline@;
        let place = self.baseline.position(symbol);
        let mut t: Table<Exchange, Quantity> = Table::new();
        if let Some(at) = place {
            t = self.baseline.replace_at(at, t);
        }
        if !t.contains_key(&exchange) {
            t.insert(exchange, size);
        }
        match place {
            Some(at) => {
                self.baseline.replace_at(at, t);
            },
            None => {
                self.baseline.insert(symbol.clone(), t);
            },
        }
        assert(baseline_views(self.baseline@) =~= baseline_views(m).insert(symbol@, t@));
    }

    /// Follows more instruments, from these baselines on.
    pub fn register(&mut self, msg: &RegisterSymbols)
        ensures
            final(self)@ == followed(old(self)@, msg.symbols@, msg.baselines@),
            final(self).target() == old(self).target(),
    {
        self.state.register_symbols(&msg.symbols);
        let ghost before_set = self.followed_symbols@.dom();
        let mut i: usize = 0;
        while i < msg.symbols.len()
            invariant
                i <= msg.symbols.len(),
                self.target() == old(self).target(),
                self@.baseline == old(self)@.baseline,
                self@.per_symbol == old(self)@.per_symbol,
                self@.total == old(self)@.total,
                self@.untracked_events == old(self)@.untracked_events,
                self@.paper_stats == old(self)@.paper_stats,
                self@.paper_accounts == old(self)@.paper_accounts,
                self@.state == state::registered(old(self)@.state, msg.symbols@),
                forall|s: Seq<char>| #[trigger] self.followed_symbols@.dom().contains(s) == (before_set.contains(s) || scope::listed(msg.symbols@.take(i as int), s)),
            decreases msg.symbols.len() - i,
        {
            self.followed_symbols.insert(msg.symbols[i].clone(), ());
            proof {
                let done = msg.symbols@.take(i as int);
                assert(msg.symbols@.take(i + 1) =~= done.push(msg.symbols@[i as int]));
                scope::lemma_listed_push(done, msg.symbols@[i as int]);
                assert forall|s: Seq<char>| #[trigger] self.followed_symbols@.dom().contains(s) == (before_set.contains(s) || scope::listed(msg.symbols@.take(i + 1), s)) by {
                    assert(scope::listed(done.push(msg.symbols@[i as int]), s) == (scope::listed(done, s) || s == msg.symbols@[i as int]@));
                }
            }
            i = i + 1;
        }
        assert(msg.symbols@.take(i as int) =~= msg.symbols@);
        let ghost mid = self@;
        assert(mid.followed_symbols =~= followed(old(self)@, msg.symbols@, msg.baselines@).followed_symbols);
        let mut k: usize = 0;
        while k < msg.baselines.len()
            invariant
                k <= msg.baselines.len(),
                self.target() == old(self).target(),
                self@ == (MetricsModel {
                    baseline: starts_recorded(mid.baseline, msg.baselines@.take(k as int)),
                    ..mid
                }),
            decreases msg.baselines.len() - k,
        {
            assert(msg.baselines@.take(k + 1).drop_last() =~= msg.baselines@.take(k as int));
            let p = &msg.baselines[k].position;
            self.record_baseline(&p.symbol, p.exchange, p.size);
            k = k + 1;
        }
        assert(msg.baselines@.take(k as int) =~= msg.baselines@);
        self.state.seed_positions(&msg.baselines);
        assert(self@ =~= followed(old(self)@, msg.symbols@, msg.baselines@));
    }

    /// Whether the event is of an instrument that is not followed.
    fn out_of_range(&self, delivery: &Delivery) -> (b: bool)
        ensures
            b == is_untracked(self@, delivery@),
    {
        match delivery {
            Delivery::Symbol(_, symbol) => !self.followed_symbols.contains_key(symbol),
            _ => false,
        }
    }

    /// Takes in market data.
    pub fn on_market(&mut self, event: MarketEvent)
        ensures
            final(self)@ == market_seen(old(self)@, event),
            final(self).target() == old(self).target(),
    {
        if self.out_of_range(&event.data.delivery()) {
            self.untracked_events = self.untracked_events.saturating_add(1);
        } else {
            self.state.apply(&IncomeEvent::Market(event));
        }
    }

    /// Takes in an account's event.
    pub fn on_account(&mut self, event: AccountEvent)
        ensures
            final(self)@ == account_seen(old(self)@, event),
            final(self).target() == old(self).target(),
    {
        if event.account.is_paper() {
            self.apply_paper_event(&event.account, &event.data);
            return;
        }
        if self.out_of_range(&event.data.delivery()) {
            self.untracked_events = self.untracked_events.saturating_add(1);
            return;
        }
        match &event.data {
            AccountData::Fill(fill) => {
                self.total.apply_fill(fill);
                tally(&mut self.per_symbol, fill.symbol.clone(), &event.data);
            },
            AccountData::OrderUpdate(update) => {
                self.total.apply_order_update(update);
                tally(&mut self.per_symbol, update.symbol.clone(), &event.data);
            },
            _ => {},
        }
        self.state.apply(&IncomeEvent::Account(event));
    }
}

/// Simulated accounts never show in the real account's books.
pub proof fn simulated_events_never_leak(m: MetricsModel, e: AccountEvent)
    requires
        e.account is Paper,
    ensures
        account_seen(m, e).state == m.state,
        account_seen(m, e).total == m.total,
        account_seen(m, e).per_symbol == m.per_symbol,
        account_seen(m, e).untracked_events == m.untracked_events,
{
}

/// A simulated account's event goes into that account's books alone: a fill counts one more there,
/// as far as a counter goes, and a standing is taken down as it is told.
pub proof fn a_simulated_event_is_booked_to_its_account(m: MetricsModel, account: AccountKey, data: AccountData)
    ensures
        paper_seen(m, account, data).state == m.state,
        paper_seen(m, account, data).total == m.total,
        paper_seen(m, account, data).per_symbol == m.per_symbol,
        paper_seen(m, account, data).baseline == m.baseline,
        paper_seen(m, account, data).followed_symbols == m.followed_symbols,
        paper_seen(m, account, data).untracked_events == m.untracked_events,
        forall|other: AccountKey| other != account ==> paper_seen(m, account, data).paper_stats.dom().contains(other)
            == m.paper_stats.dom().contains(other) && #[trigger] paper_seen(m, account, data).paper_stats[other]
            == m.paper_stats[other],
        forall|other: (AccountKey, Exchange)| other.0 != account ==> paper_seen(m, account, data).paper_accounts.dom().contains(
            other,
        ) == m.paper_accounts.dom().contains(other) && #[trigger] paper_seen(m, account, data).paper_accounts[other]
            == m.paper_accounts[other],
        data is Fill && totals(m.paper_stats, account).fills < u64::MAX ==> paper_seen(
            m,
            account,
            data,
        ).paper_stats[account].fills == totals(m.paper_stats, account).fills + 1,
        data matches AccountData::AccountInfo { exchange, equity, notional } ==> paper_seen(
            m,
            account,
            data,
        ).paper_accounts[(account, exchange)] == (AccountInfo { equity, notional }),
{
}

/// What was held at the start of the session is what was known first.
pub proof fn the_first_baseline_is_kept(
    b: Map<Seq<char>, Map<Exchange, Quantity>>,
    symbol: Seq<char>,
    exchange: Exchange,
    first: Quantity,
    later: Quantity,
)
    requires
        !starts(b, symbol).dom().contains(exchange),
    ensures
        start_recorded(start_recorded(b, symbol, exchange, first), symbol, exchange, later)[symbol][exchange] == first,
{
}

/// A number in a report.
#[derive(Clone, Copy, Debug, PartialEq, Eq, Structural)]
pub enum GaugeValue {
    Coins(Quantity),
    Money(Money),
    Fraction(Ratio),
    Count(u64),
}

/// A named number, with what it is of.
#[derive(Debug)]
pub struct Gauge {
    pub name: &'static str,
    pub labels: Vec<(&'static str, String)>,
    pub value: GaugeValue,
}

/// A named number, with what it is of.
#[verifier::ext_equal]
pub struct GaugeModel {
    pub name: Seq<char>,
    pub labels: Seq<(Seq<char>, Seq<char>)>,
    pub value: GaugeValue,
}

impl View for Gauge {
    type V = GaugeModel;

    open spec fn view(&self) -> GaugeModel {
        GaugeModel {
            name: self.name@,
            labels: self.labels@.map_values(|l: (&'static str, String)| (l.0@, l.1@)),
            value: self.value,
        }
    }
}

/// The models of gauges.
pub open spec fn gauge_views(v: Seq<Gauge>) -> Seq<GaugeModel> {
    v.map_values(|g: Gauge| g@)
}

/// A number of the whole.
pub open spec fn of_all(name: Seq<char>, value: GaugeValue) -> GaugeModel {
    GaugeModel { name, labels: Seq::empty(), value }
}

/// A number of one thing.
pub open spec fn of_one(name: Seq<char>, key: Seq<char>, label: Seq<char>, value: GaugeValue) -> GaugeModel {
    GaugeModel { name, labels: seq![(key, label)], value }
}

/// A number of a simulated account on a venue.
pub open spec fn of_account_on(name: Seq<char>, account: Seq<char>, exchange: Seq<char>, value: GaugeValue) -> GaugeModel {
    GaugeModel { name, labels: seq![("account"@, account), ("exchange"@, exchange)], value }
}

fn gauge_of_all(name: &'static str, value: GaugeValue) -> (g: Gauge)
    ensures
        g@ == of_all(name@, value),
{
    let g = Gauge { name, labels: Vec::new(), value };
    assert(g@.labels =~= Seq::<(Seq<char>, Seq<char>)>::empty());
    g
}

fn gauge_of_one(name: &'static str, key: &'static str, label: &str, value: GaugeValue) -> (g: Gauge)
    ensures
        g@ == of_one(name@, key@, label@, value),
{
    let mut labels: Vec<(&'static str, String)> = Vec::new();
    labels.push((key, label.to_owned()));
    let g = Gauge { name, labels, value };
    assert(g@.labels =~= seq![(key@, label@)]);
    g
}

fn gauge_of_account_on(name: &'static str, account: &str, exchange: &str, value: GaugeValue) -> (g: Gauge)
    ensures
        g@ == of_account_on(name@, account@, exchange@, value),
{
    let mut labels: Vec<(&'static str, String)> = Vec::new();
    labels.push(("account", account.to_owned()));
    labels.push(("exchange", exchange.to_owned()));
    let g = Gauge { name, labels, value };
    assert(g@.labels =~= seq![("account"@, account@), ("exchange"@, exchange@)]);
    g
}

/// Adds a gauge to a report.
fn put(v: &mut Vec<Gauge>, g: Gauge)
    ensures
        gauge_views(final(v)@) == gauge_views(old(v)@).push(g@),
{
    let ghost was = v@;
    v.push(g);
    assert(gauge_views(v@) =~= gauge_views(was).push(g@));
}

/// How much of its equity an account has at stake; nothing where it has none.
pub open spec fn leverage(info: AccountInfo) -> Ratio {
    if info.equity > 0 {
        Ratio { numerator: info.notional, denominator: info.equity }
    } else {
        Ratio { numerator: 0, denominator: 1 }
    }
}

/// The real account on a venue.
pub open spec fn account_gauges(exchange: Exchange, info: AccountInfo) -> Seq<GaugeModel> {
    let name = domain::exchange_name(exchange);
    Seq::empty()
        .push(of_one("hft_equity"@, "exchange"@, name, GaugeValue::Money(info.equity)))
        .push(of_one("hft_account_notional"@, "exchange"@, name, GaugeValue::Money(info.notional)))
        .push(of_one("hft_account_leverage"@, "exchange"@, name, GaugeValue::Fraction(leverage(info))))
}

/// What a report adds up over the venues.
pub struct AccountTotals {
    pub equity: Money,
    pub notional: Money,
}

/// The sum over accounts.
pub open spec fn account_totals(list: Seq<(Exchange, AccountInfo)>) -> AccountTotals
    decreases list.len(),
{
    if list.len() == 0 {
        AccountTotals { equity: 0, notional: 0 }
    } else {
        let t = account_totals(list.drop_last());
        AccountTotals {
            equity: amount::clamp(t.equity + list.last().1.equity) as Money,
            notional: amount::clamp(t.notional + list.last().1.notional) as Money,
        }
    }
}

/// The real account, venue by venue.
pub open spec fn all_account_gauges(list: Seq<(Exchange, AccountInfo)>) -> Seq<GaugeModel>
    decreases list.len(),
{
    if list.len() == 0 {
        Seq::empty()
    } else {
        all_account_gauges(list.drop_last()) + account_gauges(list.last().0, list.last().1)
    }
}

/// An instrument's positions and orders.
pub open spec fn symbol_gauges(
    symbol: Seq<char>,
    e: SymbolExposure,
    pending: u64,
    own: Option<StatsModel>,
) -> Seq<GaugeModel> {
    let fills = match own {
        Some(t) => t.fills,
        None => 0,
    };
    let pnl: Money = match own {
        Some(t) => amount::clamp(t.cash + e.session_notional_delta) as Money,
        None => 0,
    };
    Seq::empty()
        .push(of_one("hft_position_net_size"@, "symbol"@, symbol, GaugeValue::Coins(e.net_size)))
        .push(of_one("hft_position_gross_notional"@, "symbol"@, symbol, GaugeValue::Money(e.gross_notional)))
        .push(of_one("hft_position_net_notional"@, "symbol"@, symbol, GaugeValue::Money(e.net_notional)))
        .push(of_one("hft_pending_orders"@, "symbol"@, symbol, GaugeValue::Count(pending)))
        .push(of_one("hft_symbol_fills"@, "symbol"@, symbol, GaugeValue::Count(fills)))
        .push(of_one("hft_symbol_session_pnl"@, "symbol"@, symbol, GaugeValue::Money(pnl)))
        .push(of_one("hft_single_leg"@, "symbol"@, symbol, GaugeValue::Count(if e.legs == 1 { 1 } else { 0 })))
}

/// What a report adds up over the instruments.
pub struct PositionTotals {
    pub session_value: Money,
    pub gross_notional: Money,
    pub abs_net_notional: Money,
    pub with_position: u64,
    pub single_leg: u64,
    pub unpriced_legs: u64,
    pub pending_orders: u64,
}

/// The sums with one instrument more.
pub open spec fn with_symbol(t: PositionTotals, e: SymbolExposure, pending: u64) -> PositionTotals {
    PositionTotals {
        session_value: amount::clamp(t.session_value + e.session_notional_delta) as Money,
        gross_notional: amount::clamp(t.gross_notional + e.gross_notional) as Money,
        abs_net_notional: amount::clamp(
            t.abs_net_notional + amount::clamp(amount::abs(e.net_notional as int)),
        ) as Money,
        with_position: if e.legs > 0 {
            count_sum(t.with_position, 1)
        } else {
            t.with_position
        },
        single_leg: if e.legs == 1 {
            count_sum(t.single_leg, 1)
        } else {
            t.single_leg
        },
        unpriced_legs: count_sum(t.unpriced_legs, e.unpriced_legs),
        pending_orders: count_sum(t.pending_orders, pending),
    }
}

/// An instrument's exposure as the books have it.
pub open spec fn symbol_exposure(m: MetricsModel, entry: (Symbol, SymbolState)) -> SymbolExposure {
    exposure(entry.1@, starts(m.baseline, entry.0@))
}

/// How many orders an instrument has under way.
pub open spec fn pending_of(entry: (Symbol, SymbolState)) -> u64 {
    entry.1@.pending.dom().len() as u64
}

/// The sums over instruments.
pub open spec fn position_totals(m: MetricsModel, list: Seq<(Symbol, SymbolState)>) -> PositionTotals
    decreases list.len(),
{
    if list.len() == 0 {
        PositionTotals {
            session_value: 0,
            gross_notional: 0,
            abs_net_notional: 0,
            with_position: 0,
            single_leg: 0,
            unpriced_legs: 0,
            pending_orders: 0,
        }
    } else {
        with_symbol(
            position_totals(m, list.drop_last()),
            symbol_exposure(m, list.last()),
            pending_of(list.last()),
        )
    }
}

/// An instrument's totals, if it has any.
pub open spec fn own_totals(m: MetricsModel, symbol: Seq<char>) -> Option<StatsModel> {
    if m.per_symbol.dom().contains(symbol) {
        Some(m.per_symbol[symbol])
    } else {
        None
    }
}

/// The instruments that have a position or an order, one by one.
pub open spec fn all_symbol_gauges(m: MetricsModel, list: Seq<(Symbol, SymbolState)>) -> Seq<GaugeModel>
    decreases list.len(),
{
    if list.len() == 0 {
        Seq::empty()
    } else {
        let earlier = all_symbol_gauges(m, list.drop_last());
        let entry = list.last();
        let e = symbol_exposure(m, entry);
        if e.legs == 0 && pending_of(entry) == 0 {
            earlier
        } else {
            earlier + symbol_gauges(entry.0@, e, pending_of(entry), own_totals(m, entry.0@))
        }
    }
}

/// The whole of the real account.
pub open spec fn summary_gauges(a: AccountTotals, p: PositionTotals, t: StatsModel) -> Seq<GaugeModel> {
    Seq::empty()
        .push(of_all("hft_total_equity"@, GaugeValue::Money(a.equity)))
        .push(of_all("hft_total_account_notional"@, GaugeValue::Money(a.notional)))
        .push(of_all("hft_position_gross_notional_total"@, GaugeValue::Money(p.gross_notional)))
        .push(of_all("hft_position_net_notional_abs_total"@, GaugeValue::Money(p.abs_net_notional)))
        .push(of_all("hft_symbols_with_position"@, GaugeValue::Count(p.with_position)))
        .push(of_all("hft_single_leg_symbols"@, GaugeValue::Count(p.single_leg)))
        .push(of_all("hft_unpriced_legs"@, GaugeValue::Count(p.unpriced_legs)))
        .push(of_all("hft_pending_orders_total"@, GaugeValue::Count(p.pending_orders)))
        .push(of_all("hft_rejected_orders_total"@, GaugeValue::Count(t.rejected_orders)))
        .push(of_all("hft_fills_total"@, GaugeValue::Count(t.fills)))
        .push(of_all("hft_forced_fills_total"@, GaugeValue::Count(t.forced_fills)))
        .push(of_all("hft_volume_total"@, GaugeValue::Money(t.volume)))
        .push(of_all("hft_fee_total"@, GaugeValue::Money(t.fee)))
        .push(of_all("hft_session_pnl"@, GaugeValue::Money(amount::clamp(t.cash + p.session_value) as Money)))
}

/// A simulated account's trading.
pub open spec fn paper_gauges(account: AccountKey, t: StatsModel) -> Seq<GaugeModel> {
    let name = domain::account_name(account);
    Seq::empty()
        .push(of_one("hft_paper_fills"@, "account"@, name, GaugeValue::Count(t.fills)))
        .push(of_one("hft_paper_volume"@, "account"@, name, GaugeValue::Money(t.volume)))
        .push(of_one("hft_paper_fee"@, "account"@, name, GaugeValue::Money(t.fee)))
        .push(of_one("hft_paper_cash"@, "account"@, name, GaugeValue::Money(t.cash)))
        .push(of_one("hft_paper_rejected_orders"@, "account"@, name, GaugeValue::Count(t.rejected_orders)))
}

/// The simulated accounts' trading.
pub open spec fn all_paper_gauges(list: Seq<(AccountId, TradingStats)>) -> Seq<GaugeModel>
    decreases list.len(),
{
    if list.len() == 0 {
        Seq::empty()
    } else {
        all_paper_gauges(list.drop_last()) + paper_gauges(list.last().0@, list.last().1@)
    }
}

/// A simulated account's standing on a venue.
pub open spec fn paper_account_gauges(account: AccountKey, exchange: Exchange, info: AccountInfo) -> Seq<GaugeModel> {
    let name = domain::account_name(account);
    let on = domain::exchange_name(exchange);
    Seq::empty()
        .push(of_account_on("hft_paper_equity"@, name, on, GaugeValue::Money(info.equity)))
        .push(of_account_on("hft_paper_notional"@, name, on, GaugeValue::Money(info.notional)))
}

/// The simulated accounts' standings.
pub open spec fn all_paper_account_gauges(list: Seq<((AccountId, Exchange), AccountInfo)>) -> Seq<GaugeModel>
    decreases list.len(),
{
    if list.len() == 0 {
        Seq::empty()
    } else {
        all_paper_account_gauges(list.drop_last()) + paper_account_gauges(
            list.last().0.0@,
            list.last().0.1,
            list.last().1,
        )
    }
}

impl MetricsActor {
    /// The real account's venues, in the order in which they came.
    pub closed spec fn accounts(&self) -> Seq<(Exchange, AccountInfo)> {
        self.state.account_list()
    }

    /// The instruments, in the order in which they came.
    pub closed spec fn symbols(&self) -> Seq<(Symbol, SymbolState)> {
        self.state.list()
    }

    /// The simulated accounts, in the order in which they came.
    pub closed spec fn papers(&self) -> Seq<(AccountId, TradingStats)> {
        self.paper_stats.entries()
    }

    /// The simulated accounts' venues, in the order in which they came.
    pub closed spec fn paper_venues(&self) -> Seq<((AccountId, Exchange), AccountInfo)> {
        self.paper_accounts.entries()
    }

    /// The report: the real account by venue, its instruments, its totals, then the simulated
    /// accounts.
    pub open spec fn reported(&self) -> Seq<GaugeModel> {
        all_account_gauges(self.accounts()) + all_symbol_gauges(self@, self.symbols())
            + summary_gauges(
            account_totals(self.accounts()),
            position_totals(self@, self.symbols()),
            self@.total,
        ) + all_paper_gauges(self.papers()) + all_paper_account_gauges(self.paper_venues())
    }

    fn report_accounts(&self, v: &mut Vec<Gauge>) -> (t: AccountTotals)
        ensures
            t == account_totals(self.accounts()),
            table::lists(self.accounts(), self@.state.accounts),
            gauge_views(final(v)@) == gauge_views(old(v)@) + all_account_gauges(self.accounts()),
    {
        let ghost list = self.accounts();
        let ghost start = gauge_views(v@);
        let n = self.state.account_count();
        let mut t = AccountTotals { equity: 0, notional: 0 };
        let mut i: usize = 0;
        assert(start + all_account_gauges(list.take(0)) =~= start);
        while i < n
            invariant
                i <= n,
                n == list.len(),
                list == self.state.account_list(),
                t == account_totals(list.take(i as int)),
                gauge_views(v@) == start + all_account_gauges(list.take(i as int)),
            decreases n - i,
        {
            assert(list.take(i + 1).drop_last() =~= list.take(i as int));
            let (exchange, info) = self.state.account_at(i);
            let leverage = if info.equity > 0 {
                Ratio { numerator: info.notional, denominator: info.equity }
            } else {
                Ratio { numerator: 0, denominator: 1 }
            };
            t = AccountTotals {
                equity: plus(t.equity, info.equity),
                notional: plus(t.notional, info.notional),
            };
            let name = exchange.name();
            put(v, gauge_of_one("hft_equity", "exchange", name, GaugeValue::Money(info.equity)));
            put(v, gauge_of_one("hft_account_notional", "exchange", name, GaugeValue::Money(info.notional)));
            put(v, gauge_of_one("hft_account_leverage", "exchange", name, GaugeValue::Fraction(leverage)));
            assert(gauge_views(v@) =~= start + all_account_gauges(list.take(i + 1)));
            i = i + 1;
        }
        assert(list.take(i as int) =~= list);
        t
    }

    fn report_symbol(&self, v: &mut Vec<Gauge>, symbol: &Symbol, e: SymbolExposure, pending: u64)
        ensures
            gauge_views(final(v)@) == gauge_views(old(v)@) + symbol_gauges(
                symbol@,
                e,
                pending,
                own_totals(self@, symbol@),
            ),
    {
        let ghost start = gauge_views(v@);
        let (fills, pnl): (u64, Money) = match self.per_symbol.get(symbol) {
            Some(t) => (t.fills, t.total_pnl(e.session_notional_delta)),
            None => (0, 0),
        };
        let name = symbol.as_str();
        put(v, gauge_of_one("hft_position_net_size", "symbol", name, GaugeValue::Coins(e.net_size)));
        put(v, gauge_of_one("hft_position_gross_notional", "symbol", name, GaugeValue::Money(e.gross_notional)));
        put(v, gauge_of_one("hft_position_net_notional", "symbol", name, GaugeValue::Money(e.net_notional)));
        put(v, gauge_of_one("hft_pending_orders", "symbol", name, GaugeValue::Count(pending)));
        put(v, gauge_of_one("hft_symbol_fills", "symbol", name, GaugeValue::Count(fills)));
        put(v, gauge_of_one("hft_symbol_session_pnl", "symbol", name, GaugeValue::Money(pnl)));
        put(v, gauge_of_one("hft_single_leg", "symbol", name, GaugeValue::Count(if e.legs == 1 { 1 } else { 0 })));
        assert(gauge_views(v@) =~= start + symbol_gauges(symbol@, e, pending, own_totals(self@, symbol@)));
    }

    fn report_symbols(&self, v: &mut Vec<Gauge>) -> (t: PositionTotals)
        ensures
            t == position_totals(self@, self.symbols()),
            amount::adds_up(session_deltas(self@, self.symbols())) ==> t.session_value == amount::total(
                session_deltas(self@, self.symbols()),
            ),
            gauge_views(final(v)@) == gauge_views(old(v)@) + all_symbol_gauges(self@, self.symbols()),
            state::lists_symbols(self.symbols(), self@.state),
    {
        let ghost list = self.symbols();
        let ghost start = gauge_views(v@);
        let n = self.state.symbol_count();
        let mut t = PositionTotals {
            session_value: 0,
            gross_notional: 0,
            abs_net_notional: 0,
            with_position: 0,
            single_leg: 0,
            unpriced_legs: 0,
            pending_orders: 0,
        };
        let mut i: usize = 0;
        assert(start + all_symbol_gauges(self@, list.take(0)) =~= start);
        while i < n
            invariant
                i <= n,
                n == list.len(),
                list == self.state.list(),
                t == position_totals(self@, list.take(i as int)),
                gauge_views(v@) == start + all_symbol_gauges(self@, list.take(i as int)),
            decreases n - i,
        {
            assert(list.take(i + 1).drop_last() =~= list.take(i as int));
            let symbol = self.state.symbol_at(i);
            let s = self.state.state_at(i);
            let baseline = self.baseline.get(symbol);
            assert(baseline_view(baseline) =~= starts(self@.baseline, symbol@));
            let e = exposure_of(s, baseline);
            let pending = s.pending_count() as u64;
            t = PositionTotals {
                session_value: plus(t.session_value, e.session_notional_delta),
                gross_notional: plus(t.gross_notional, e.gross_notional),
                abs_net_notional: plus(t.abs_net_notional, size_of(e.net_notional)),
                with_position: if e.legs > 0 {
                    t.with_position.saturating_add(1)
                } else {
                    t.with_position
                },
                single_leg: if e.legs == 1 {
                    t.single_leg.saturating_add(1)
                } else {
                    t.single_leg
                },
                unpriced_legs: t.unpriced_legs.saturating_add(e.unpriced_legs),
                pending_orders: t.pending_orders.saturating_add(pending),
            };
            if e.legs != 0 || pending != 0 {
                let ghost before = gauge_views(v@);
                self.report_symbol(v, symbol, e, pending);
                assert(gauge_views(v@) =~= start + all_symbol_gauges(self@, list.take(i + 1)));
            }
            i = i + 1;
        }
        assert(list.take(i as int) =~= list);
        proof {
            totals_add_up_every_instrument(self@, list);
        }
        t
    }

    fn report_summary(&self, v: &mut Vec<Gauge>, a: &AccountTotals, p: &PositionTotals)
        ensures
            gauge_views(final(v)@) == gauge_views(old(v)@) + summary_gauges(*a, *p, self@.total),
    {
        let ghost start = gauge_views(v@);
        let t = &self.total;
        put(v, gauge_of_all("hft_total_equity", GaugeValue::Money(a.equity)));
        put(v, gauge_of_all("hft_total_account_notional", GaugeValue::Money(a.notional)));
        put(v, gauge_of_all("hft_position_gross_notional_total", GaugeValue::Money(p.gross_notional)));
        put(v, gauge_of_all("hft_position_net_notional_abs_total", GaugeValue::Money(p.abs_net_notional)));
        put(v, gauge_of_all("hft_symbols_with_position", GaugeValue::Count(p.with_position)));
        put(v, gauge_of_all("hft_single_leg_symbols", GaugeValue::Count(p.single_leg)));
        put(v, gauge_of_all("hft_unpriced_legs", GaugeValue::Count(p.unpriced_legs)));
        put(v, gauge_of_all("hft_pending_orders_total", GaugeValue::Count(p.pending_orders)));
        put(v, gauge_of_all("hft_rejected_orders_total", GaugeValue::Count(t.rejected_orders)));
        put(v, gauge_of_all("hft_fills_total", GaugeValue::Count(t.fills)));
        put(v, gauge_of_all("hft_forced_fills_total", GaugeValue::Count(t.forced_fills)));
        put(v, gauge_of_all("hft_volume_total", GaugeValue::Money(t.volume)));
        put(v, gauge_of_all("hft_fee_total", GaugeValue::Money(t.fee)));
        put(v, gauge_of_all("hft_session_pnl", GaugeValue::Money(t.total_pnl(p.session_value))));
        assert(gauge_views(v@) =~= start + summary_gauges(*a, *p, self@.total));
    }

    fn report_papers(&self, v: &mut Vec<Gauge>)
        ensures
            gauge_views(final(v)@) == gauge_views(old(v)@) + all_paper_gauges(self.papers()) + all_paper_account_gauges(self.paper_venues()),
    {
        let ghost list = self.papers();
        let ghost start = gauge_views(v@);
        let n = self.paper_stats.len();
        let mut i: usize = 0;
        assert(start + all_paper_gauges(list.take(0)) =~= start);
        while i < n
            invariant
                i <= n,
                n == list.len(),
                list == self.paper_stats.entries(),
                gauge_views(v@) == start + all_paper_gauges(list.take(i as int)),
            decreases n - i,
        {
            assert(list.take(i + 1).drop_last() =~= list.take(i as int));
            let label = self.paper_stats.key_at(i).name();
            let name = label.as_str();
            let t = self.paper_stats.value_at(i);
            put(v, gauge_of_one("hft_paper_fills", "account", name, GaugeValue::Count(t.fills)));
            put(v, gauge_of_one("hft_paper_volume", "account", name, GaugeValue::Money(t.volume)));
            put(v, gauge_of_one("hft_paper_fee", "account", name, GaugeValue::Money(t.fee)));
            put(v, gauge_of_one("hft_paper_cash", "account", name, GaugeValue::Money(t.cash)));
            put(v, gauge_of_one("hft_paper_rejected_orders", "account", name, GaugeValue::Count(t.rejected_orders)));
            assert(gauge_views(v@) =~= start + all_paper_gauges(list.take(i + 1)));
            i = i + 1;
        }
        assert(list.take(i as int) =~= list);
        let ghost list2 = self.paper_venues();
        let ghost start2 = gauge_views(v@);
        let n2 = self.paper_accounts.len();
        let mut k: usize = 0;
        assert(start2 + all_paper_account_gauges(list2.take(0)) =~= start2);
        while k < n2
            invariant
                k <= n2,
                n2 == list2.len(),
                list2 == self.paper_accounts.entries(),
                gauge_views(v@) == start2 + all_paper_account_gauges(list2.take(k as int)),
            decreases n2 - k,
        {
            assert(list2.take(k + 1).drop_last() =~= list2.take(k as int));
            let (account, exchange) = self.paper_accounts.key_at(k);
            let info = self.paper_accounts.value_at(k);
            let label = account.name();
            let name = label.as_str();
            put(v, gauge_of_account_on("hft_paper_equity", name, exchange.name(), GaugeValue::Money(info.equity)));
            put(v, gauge_of_account_on("hft_paper_notional", name, exchange.name(), GaugeValue::Money(info.notional)));
            assert(gauge_views(v@) =~= start2 + all_paper_account_gauges(list2.take(k + 1)));
            k = k + 1;
        }
        assert(list2.take(k as int) =~= list2);
    }

    /// How many events of instruments that are not followed have come.
    pub fn untracked_events(&self) -> (n: u64)
        ensures
            n == self@.untracked_events,
    {
        self.untracked_events
    }

    /// What the real account has traded.
    pub fn total(&self) -> (t: &TradingStats)
        ensures
            t@ == self@.total,
    {
        &self.total
    }

    /// What is pushed, and where to: the report, if there is somewhere to push it, and else nothing.
    pub fn push(&self) -> (r: Option<(String, Vec<Gauge>)>)
        ensures
            r is Some == self.target() is Some,
            r matches Some((url, gauges)) ==> url@ == self.target()->0@ && gauge_views(gauges@) == self.reported(),
    {
        match &self.push_url {
            Some(url) => Some((url.clone(), self.report())),
            None => None,
        }
    }

    /// Makes a report.
    pub fn report(&self) -> (v: Vec<Gauge>)
        ensures
            gauge_views(v@) == self.reported(),
            table::lists(self.accounts(), self@.state.accounts),
            state::lists_symbols(self.symbols(), self@.state),
            table::distinct_keys(self.papers()),
            stat_views(table::entries_map(self.papers())) == self@.paper_stats,
            table::lists(self.paper_venues(), self@.paper_accounts),
    {
        proof {
            use_type_invariant(&self.paper_stats);
            use_type_invariant(&self.paper_accounts);
        }
        let mut v: Vec<Gauge> = Vec::new();
        assert(gauge_views(v@) =~= Seq::<GaugeModel>::empty());
        let a = self.report_accounts(&mut v);
        let p = self.report_symbols(&mut v);
        self.report_summary(&mut v, &a, &p);
        self.report_papers(&mut v);
        assert(gauge_views(v@) =~= self.reported());
        v
    }
}

/// Whether an instrument is reported by itself: it has a position or an order.
pub open spec fn is_reported(m: MetricsModel, entry: (Symbol, SymbolState)) -> bool {
    symbol_exposure(m, entry).legs != 0 || pending_of(entry) != 0
}

/// Whether a gauge is of an instrument.
pub open spec fn is_of_symbol(g: GaugeModel, symbol: Seq<char>) -> bool {
    g.labels == seq![("symbol"@, symbol)]
}

/// Exactly the instruments that have a position or an order have gauges of their own.
pub proof fn instruments_at_work_are_reported(m: MetricsModel, list: Seq<(Symbol, SymbolState)>, symbol: Seq<char>)
    ensures
        (exists|k: int|
            0 <= k < all_symbol_gauges(m, list).len() && is_of_symbol(#[trigger] all_symbol_gauges(m, list)[k], symbol))
            <==> (exists|i: int| 0 <= i < list.len() && (#[trigger] list[i]).0@ == symbol && is_reported(m, list[i])),
    decreases list.len(),
{
    if list.len() > 0 {
        let rest = list.drop_last();
        let entry = list.last();
        instruments_at_work_are_reported(m, rest, symbol);
        let earlier = all_symbol_gauges(m, rest);
        let all = all_symbol_gauges(m, list);
        let own = symbol_gauges(
            entry.0@,
            symbol_exposure(m, entry),
            pending_of(entry),
            own_totals(m, entry.0@),
        );
        assert forall|k: int| 0 <= k < own.len() implies (#[trigger] own[k]).labels == seq![("symbol"@, entry.0@)] by {}
        if exists|k: int| 0 <= k < all.len() && is_of_symbol(#[trigger] all[k], symbol) {
            let k = choose|k: int| 0 <= k < all.len() && is_of_symbol(#[trigger] all[k], symbol);
            if k < earlier.len() {
                assert(all[k] == earlier[k]);
                let i = choose|i: int| 0 <= i < rest.len() && (#[trigger] rest[i]).0@ == symbol && is_reported(m, rest[i]);
                assert(list[i] == rest[i]);
            } else {
                assert(all[k] == own[k - earlier.len()]);
                assert(seq![("symbol"@, symbol)][0] == seq![("symbol"@, entry.0@)][0]);
                assert(list[list.len() - 1] == entry);
            }
        }
        if exists|i: int| 0 <= i < list.len() && (#[trigger] list[i]).0@ == symbol && is_reported(m, list[i]) {
            let i = choose|i: int| 0 <= i < list.len() && (#[trigger] list[i]).0@ == symbol && is_reported(m, list[i]);
            if i < rest.len() {
                assert(rest[i] == list[i]);
                let k = choose|k: int| 0 <= k < earlier.len() && is_of_symbol(#[trigger] earlier[k], symbol);
                assert(all[k] == earlier[k]);
            } else {
                assert(all[earlier.len() as int] == own[0]);
                assert(is_of_symbol(all[earlier.len() as int], symbol));
            }
        }
    }
}

/// The sum of what the instruments are worth, each without its sign.
pub open spec fn sum_of_sizes(m: MetricsModel, list: Seq<(Symbol, SymbolState)>) -> int
    decreases list.len(),
{
    if list.len() == 0 {
        0
    } else {
        sum_of_sizes(m, list.drop_last()) + amount::abs(symbol_exposure(m, list.last()).net_notional as int)
    }
}

/// How many instruments are held on one venue alone.
pub open spec fn on_one_leg(m: MetricsModel, list: Seq<(Symbol, SymbolState)>) -> nat
    decreases list.len(),
{
    if list.len() == 0 {
        0
    } else {
        on_one_leg(m, list.drop_last()) + if symbol_exposure(m, list.last()).legs == 1 {
            1nat
        } else {
            0nat
        }
    }
}

/// The totals add up each instrument without its sign, as far as the range goes, so that none makes
/// up for another; and they count the instruments that are held on one venue alone.
pub proof fn totals_hide_no_instrument(m: MetricsModel, list: Seq<(Symbol, SymbolState)>)
    requires
        list.len() <= u64::MAX,
    ensures
        position_totals(m, list).abs_net_notional == amount::clamp(sum_of_sizes(m, list)),
        position_totals(m, list).single_leg == on_one_leg(m, list),
        on_one_leg(m, list) <= list.len(),
        sum_of_sizes(m, list) >= 0,
    decreases list.len(),
{
    if list.len() > 0 {
        totals_hide_no_instrument(m, list.drop_last());
    }
}

/// The leverage of an account without equity is zero.
pub proof fn no_equity_no_leverage(info: AccountInfo)
    requires
        info.equity <= 0,
    ensures
        leverage(info) == (Ratio { numerator: 0, denominator: 1 }),
{
}

/// What the instruments gained over the session, one by one.
pub open spec fn session_deltas(m: MetricsModel, list: Seq<(Symbol, SymbolState)>) -> Seq<int> {
    Seq::new(list.len(), |i: int| symbol_exposure(m, list[i]).session_notional_delta as int)
}

/// What the instruments' positions are worth without their signs, one by one.
pub open spec fn gross_notionals(m: MetricsModel, list: Seq<(Symbol, SymbolState)>) -> Seq<int> {
    Seq::new(list.len(), |i: int| symbol_exposure(m, list[i]).gross_notional as int)
}

/// The session value of a report is the sum of what every listed instrument gained over the session,
/// and its gross notional the sum of every listed instrument's, as long as the sums are within range.
pub proof fn totals_add_up_every_instrument(m: MetricsModel, list: Seq<(Symbol, SymbolState)>)
    ensures
        amount::adds_up(session_deltas(m, list)) ==> position_totals(m, list).session_value == amount::total(
            session_deltas(m, list),
        ),
        amount::adds_up(gross_notionals(m, list)) ==> position_totals(m, list).gross_notional == amount::total(
            gross_notionals(m, list),
        ),
    decreases list.len(),
{
    if list.len() > 0 {
        let rest = list.drop_last();
        totals_add_up_every_instrument(m, rest);
        let deltas = session_deltas(m, list);
        let sizes = gross_notionals(m, list);
        assert(deltas.drop_last() =~= session_deltas(m, rest));
        assert(sizes.drop_last() =~= gross_notionals(m, rest));
        if amount::adds_up(deltas) {
            amount::a_part_less_adds_up(deltas);
        }
        if amount::adds_up(sizes) {
            amount::a_part_less_adds_up(sizes);
        }
    }
}

/// A report counts every listed instrument that has a position once, and adds up the unpriced legs and
/// the orders under way of every listed instrument, as far as a counter goes.
pub proof fn totals_count_every_instrument(m: MetricsModel, list: Seq<(Symbol, SymbolState)>)
    requires
        list.len() <= u64::MAX,
    ensures
        position_totals(m, list).with_position == amount::total(
            Seq::new(list.len(), |i: int| if symbol_exposure(m, list[i]).legs > 0 { 1int } else { 0 }),
        ),
        position_totals(m, list).with_position <= list.len(),
        ({
            let all = amount::total(Seq::new(list.len(), |i: int| symbol_exposure(m, list[i]).unpriced_legs as int));
            position_totals(m, list).unpriced_legs == if all > u64::MAX { u64::MAX as int } else { all }
        }),
        ({
            let all = amount::total(Seq::new(list.len(), |i: int| pending_of(list[i]) as int));
            position_totals(m, list).pending_orders == if all > u64::MAX { u64::MAX as int } else { all }
        }),
    decreases list.len(),
{
    if list.len() > 0 {
        let rest = list.drop_last();
        totals_count_every_instrument(m, rest);
        let held = Seq::new(list.len(), |i: int| if symbol_exposure(m, list[i]).legs > 0 { 1int } else { 0 });
        let held2 = Seq::new(rest.len(), |i: int| if symbol_exposure(m, rest[i]).legs > 0 { 1int } else { 0 });
        assert(held.drop_last() =~= held2);
        let unpriced = Seq::new(list.len(), |i: int| symbol_exposure(m, list[i]).unpriced_legs as int);
        let unpriced2 = Seq::new(rest.len(), |i: int| symbol_exposure(m, rest[i]).unpriced_legs as int);
        assert(unpriced.drop_last() =~= unpriced2);
        let orders = Seq::new(list.len(), |i: int| pending_of(list[i]) as int);
        let orders2 = Seq::new(rest.len(), |i: int| pending_of(rest[i]) as int);
        assert(orders.drop_last() =~= orders2);
    }
}

/// The totals of the real account are the sums over all its venues, as long as these are within range.
pub proof fn account_totals_add_up_every_venue(list: Seq<(Exchange, AccountInfo)>)
    ensures
        ({
            let parts = Seq::new(list.len(), |i: int| list[i].1.equity as int);
            amount::adds_up(parts) ==> account_totals(list).equity == amount::total(parts)
        }),
        ({
            let parts = Seq::new(list.len(), |i: int| list[i].1.notional as int);
            amount::adds_up(parts) ==> account_totals(list).notional == amount::total(parts)
        }),
    decreases list.len(),
{
    if list.len() > 0 {
        let rest = list.drop_last();
        account_totals_add_up_every_venue(rest);
        let equities = Seq::new(list.len(), |i: int| list[i].1.equity as int);
        let notionals = Seq::new(list.len(), |i: int| list[i].1.notional as int);
        assert(equities.drop_last() =~= Seq::new(rest.len(), |i: int| rest[i].1.equity as int));
        assert(notionals.drop_last() =~= Seq::new(rest.len(), |i: int| rest[i].1.notional as int));
        if amount::adds_up(equities) {
            amount::a_part_less_adds_up(equities);
        }
        if amount::adds_up(notionals) {
            amount::a_part_less_adds_up(notionals);
        }
    }
}

proof fn lemma_held_inside(before: Seq<GaugeModel>, own: Seq<GaugeModel>, after: Seq<GaugeModel>, k: int)
    requires
        0 <= k < own.len(),
    ensures
        (before + own + after).contains(own[k]),
{
    assert((before + own + after)[before.len() + k] == own[k]);
}

impl MetricsActor {
    /// The session's PnL in a report is the cash of all fills plus the sum of what every listed
    /// instrument gained over the session, as long as the sums are within range.
    pub proof fn the_session_earns_its_cash_and_its_gains(&self)
        requires
            amount::adds_up(session_deltas(self@, self.symbols())),
            i128::MIN <= self@.total.cash + amount::total(session_deltas(self@, self.symbols())) <= i128::MAX,
        ensures
            self.reported().contains(
                of_all(
                    "hft_session_pnl"@,
                    GaugeValue::Money(
                        (self@.total.cash + amount::total(session_deltas(self@, self.symbols()))) as Money,
                    ),
                ),
            ),
    {
        totals_add_up_every_instrument(self@, self.symbols());
        self.totals_are_reported();
    }

    /// Every total is reported under its own name.
    pub proof fn totals_are_reported(&self)
        ensures
            self.reported().contains(of_all("hft_total_equity"@, GaugeValue::Money(account_totals(self.accounts()).equity))),
            self.reported().contains(of_all("hft_total_account_notional"@, GaugeValue::Money(account_totals(self.accounts()).notional))),
            self.reported().contains(of_all("hft_position_gross_notional_total"@, GaugeValue::Money(position_totals(self@, self.symbols()).gross_notional))),
            self.reported().contains(of_all("hft_position_net_notional_abs_total"@, GaugeValue::Money(position_totals(self@, self.symbols()).abs_net_notional))),
            self.reported().contains(of_all("hft_symbols_with_position"@, GaugeValue::Count(position_totals(self@, self.symbols()).with_position))),
            self.reported().contains(of_all("hft_single_leg_symbols"@, GaugeValue::Count(position_totals(self@, self.symbols()).single_leg))),
            self.reported().contains(of_all("hft_unpriced_legs"@, GaugeValue::Count(position_totals(self@, self.symbols()).unpriced_legs))),
            self.reported().contains(of_all("hft_pending_orders_total"@, GaugeValue::Count(position_totals(self@, self.symbols()).pending_orders))),
            self.reported().contains(of_all("hft_rejected_orders_total"@, GaugeValue::Count(self@.total.rejected_orders))),
            self.reported().contains(of_all("hft_fills_total"@, GaugeValue::Count(self@.total.fills))),
            self.reported().contains(of_all("hft_forced_fills_total"@, GaugeValue::Count(self@.total.forced_fills))),
            self.reported().contains(of_all("hft_volume_total"@, GaugeValue::Money(self@.total.volume))),
            self.reported().contains(of_all("hft_fee_total"@, GaugeValue::Money(self@.total.fee))),
            ({
                let pnl = self@.total.cash + position_totals(self@, self.symbols()).session_value;
                i128::MIN <= pnl <= i128::MAX ==> self.reported().contains(
                    of_all("hft_session_pnl"@, GaugeValue::Money(pnl as Money)),
                )
            }),
    {
        let before = all_account_gauges(self.accounts()) + all_symbol_gauges(self@, self.symbols());
        let own = summary_gauges(
            account_totals(self.accounts()),
            position_totals(self@, self.symbols()),
            self@.total,
        );
        let after = all_paper_gauges(self.papers()) + all_paper_account_gauges(self.paper_venues());
        assert(self.reported() =~= before + own + after);
        lemma_held_inside(before, own, after, 0);
        lemma_held_inside(before, own, after, 1);
        lemma_held_inside(before, own, after, 2);
        lemma_held_inside(before, own, after, 3);
        lemma_held_inside(before, own, after, 4);
        lemma_held_inside(before, own, after, 5);
        lemma_held_inside(before, own, after, 6);
        lemma_held_inside(before, own, after, 7);
        lemma_held_inside(before, own, after, 8);
        lemma_held_inside(before, own, after, 9);
        lemma_held_inside(before, own, after, 10);
        lemma_held_inside(before, own, after, 11);
        lemma_held_inside(before, own, after, 12);
        lemma_held_inside(before, own, after, 13);
    }

    /// Every venue of the real account is reported: its equity, what it has at stake, and the one
    /// over the other.
    pub proof fn every_venue_is_reported(&self, i: int)
        requires
            0 <= i < self.accounts().len(),
        ensures
            ({
                let name = domain::exchange_name(self.accounts()[i].0);
                let info = self.accounts()[i].1;
                &&& self.reported().contains(of_one("hft_equity"@, "exchange"@, name, GaugeValue::Money(info.equity)))
                &&& self.reported().contains(
                    of_one("hft_account_notional"@, "exchange"@, name, GaugeValue::Money(info.notional)),
                )
                &&& info.equity > 0 ==> self.reported().contains(
                    of_one(
                        "hft_account_leverage"@,
                        "exchange"@,
                        name,
                        GaugeValue::Fraction(Ratio { numerator: info.notional, denominator: info.equity }),
                    ),
                )
                &&& info.equity <= 0 ==> self.reported().contains(
                    of_one(
                        "hft_account_leverage"@,
                        "exchange"@,
                        name,
                        GaugeValue::Fraction(Ratio { numerator: 0, denominator: 1 }),
                    ),
                )
            }),
    {
        let list = self.accounts();
        let own = account_gauges(list[i].0, list[i].1);
        let (before, after) = lemma_venue_inside(list, i);
        let rest = all_symbol_gauges(self@, self.symbols()) + summary_gauges(
            account_totals(self.accounts()),
            position_totals(self@, self.symbols()),
            self@.total,
        ) + all_paper_gauges(self.papers()) + all_paper_account_gauges(self.paper_venues());
        assert(self.reported() =~= before + own + (after + rest));
        lemma_held_inside(before, own, after + rest, 0);
        lemma_held_inside(before, own, after + rest, 1);
        lemma_held_inside(before, own, after + rest, 2);
    }

    /// Every listed instrument with a position or an order under way is reported: its positions, its
    /// orders, its fills and what it earned, which is the cash of its own fills plus what its
    /// positions gained, or nothing where it had no fill.
    pub proof fn every_instrument_at_work_is_reported(&self, i: int)
        requires
            0 <= i < self.symbols().len(),
            symbol_exposure(self@, self.symbols()[i]).legs > 0 || pending_of(self.symbols()[i]) > 0,
        ensures
            ({
                let name = self.symbols()[i].0@;
                let e = symbol_exposure(self@, self.symbols()[i]);
                let own = self@.per_symbol;
                let pnl = own[name].cash + e.session_notional_delta;
                &&& self.reported().contains(
                    of_one("hft_position_net_size"@, "symbol"@, name, GaugeValue::Coins(e.net_size)),
                )
                &&& self.reported().contains(
                    of_one("hft_position_gross_notional"@, "symbol"@, name, GaugeValue::Money(e.gross_notional)),
                )
                &&& self.reported().contains(
                    of_one("hft_position_net_notional"@, "symbol"@, name, GaugeValue::Money(e.net_notional)),
                )
                &&& self.reported().contains(
                    of_one("hft_pending_orders"@, "symbol"@, name, GaugeValue::Count(pending_of(self.symbols()[i]))),
                )
                &&& own.dom().contains(name) ==> self.reported().contains(
                    of_one("hft_symbol_fills"@, "symbol"@, name, GaugeValue::Count(own[name].fills)),
                )
                &&& own.dom().contains(name) && i128::MIN <= pnl <= i128::MAX ==> self.reported().contains(
                    of_one("hft_symbol_session_pnl"@, "symbol"@, name, GaugeValue::Money(pnl as Money)),
                )
                &&& !own.dom().contains(name) ==> self.reported().contains(
                    of_one("hft_symbol_fills"@, "symbol"@, name, GaugeValue::Count(0)),
                ) && self.reported().contains(
                    of_one("hft_symbol_session_pnl"@, "symbol"@, name, GaugeValue::Money(0)),
                )
                &&& self.reported().contains(
                    of_one("hft_single_leg"@, "symbol"@, name, GaugeValue::Count(if e.legs == 1 { 1 } else { 0 })),
                )
            }),
    {
        let list = self.symbols();
        let entry = list[i];
        let own = symbol_gauges(
            entry.0@,
            symbol_exposure(self@, entry),
            pending_of(entry),
            own_totals(self@, entry.0@),
        );
        let (before, after) = lemma_instrument_inside(self@, list, i);
        let first = all_account_gauges(self.accounts());
        let rest = summary_gauges(
            account_totals(self.accounts()),
            position_totals(self@, self.symbols()),
            self@.total,
        ) + all_paper_gauges(self.papers()) + all_paper_account_gauges(self.paper_venues());
        assert(self.reported() =~= (first + before) + own + (after + rest));
        lemma_held_inside(first + before, own, after + rest, 0);
        lemma_held_inside(first + before, own, after + rest, 1);
        lemma_held_inside(first + before, own, after + rest, 2);
        lemma_held_inside(first + before, own, after + rest, 3);
        lemma_held_inside(first + before, own, after + rest, 4);
        lemma_held_inside(first + before, own, after + rest, 5);
        lemma_held_inside(first + before, own, after + rest, 6);
    }

    /// Every simulated account is reported under its own name: its fills, volume, fees, cash and
    /// refused orders.
    pub proof fn every_simulated_account_is_reported(&self, i: int)
        requires
            0 <= i < self.papers().len(),
        ensures
            ({
                let name = domain::account_name(self.papers()[i].0@);
                let t = self.papers()[i].1@;
                &&& self.reported().contains(of_one("hft_paper_fills"@, "account"@, name, GaugeValue::Count(t.fills)))
                &&& self.reported().contains(of_one("hft_paper_volume"@, "account"@, name, GaugeValue::Money(t.volume)))
                &&& self.reported().contains(of_one("hft_paper_fee"@, "account"@, name, GaugeValue::Money(t.fee)))
                &&& self.reported().contains(of_one("hft_paper_cash"@, "account"@, name, GaugeValue::Money(t.cash)))
                &&& self.reported().contains(
                    of_one("hft_paper_rejected_orders"@, "account"@, name, GaugeValue::Count(t.rejected_orders)),
                )
            }),
    {
        let list = self.papers();
        let own = paper_gauges(list[i].0@, list[i].1@);
        let (before, after) = lemma_account_inside(list, i);
        let first = all_account_gauges(self.accounts()) + all_symbol_gauges(self@, self.symbols()) + summary_gauges(
            account_totals(self.accounts()),
            position_totals(self@, self.symbols()),
            self@.total,
        );
        let rest = all_paper_account_gauges(self.paper_venues());
        assert(self.reported() =~= (first + before) + own + (after + rest));
        lemma_held_inside(first + before, own, after + rest, 0);
        lemma_held_inside(first + before, own, after + rest, 1);
        lemma_held_inside(first + before, own, after + rest, 2);
        lemma_held_inside(first + before, own, after + rest, 3);
        lemma_held_inside(first + before, own, after + rest, 4);
    }

    /// Every venue of a simulated account is reported: its equity and what it has at stake.
    pub proof fn every_simulated_venue_is_reported(&self, i: int)
        requires
            0 <= i < self.paper_venues().len(),
        ensures
            ({
                let name = domain::account_name(self.paper_venues()[i].0.0@);
                let on = domain::exchange_name(self.paper_venues()[i].0.1);
                let info = self.paper_venues()[i].1;
                &&& self.reported().contains(of_account_on("hft_paper_equity"@, name, on, GaugeValue::Money(info.equity)))
                &&& self.reported().contains(
                    of_account_on("hft_paper_notional"@, name, on, GaugeValue::Money(info.notional)),
                )
            }),
    {
        let list = self.paper_venues();
        let own = paper_account_gauges(list[i].0.0@, list[i].0.1, list[i].1);
        let (before, after) = lemma_account_venue_inside(list, i);
        let first = all_account_gauges(self.accounts()) + all_symbol_gauges(self@, self.symbols()) + summary_gauges(
            account_totals(self.accounts()),
            position_totals(self@, self.symbols()),
            self@.total,
        ) + all_paper_gauges(self.papers());
        assert(self.reported() =~= (first + before) + own + after);
        lemma_held_inside(first + before, own, after, 0);
        lemma_held_inside(first + before, own, after, 1);
    }
}

proof fn lemma_venue_inside(list: Seq<(Exchange, AccountInfo)>, i: int) -> (r: (Seq<GaugeModel>, Seq<GaugeModel>))
    requires
        0 <= i < list.len(),
    ensures
        all_account_gauges(list) == r.0 + account_gauges(list[i].0, list[i].1) + r.1,
    decreases list.len(),
{
    let rest = list.drop_last();
    if i == list.len() - 1 {
        assert(all_account_gauges(list) =~= all_account_gauges(rest) + account_gauges(list[i].0, list[i].1) + Seq::<GaugeModel>::empty());
        (all_account_gauges(rest), Seq::empty())
    } else {
        assert(rest[i] == list[i]);
        let (before, after) = lemma_venue_inside(rest, i);
        let last = all_account_gauges(list).skip(all_account_gauges(rest).len() as int);
        assert(all_account_gauges(list) =~= before + account_gauges(list[i].0, list[i].1) + (after + last));
        (before, after + last)
    }
}

proof fn lemma_instrument_inside(m: MetricsModel, list: Seq<(Symbol, SymbolState)>, i: int) -> (r: (Seq<GaugeModel>, Seq<GaugeModel>))
    requires
        0 <= i < list.len(),
        symbol_exposure(m, list[i]).legs > 0 || pending_of(list[i]) > 0,
    ensures
        all_symbol_gauges(m, list) == r.0 + symbol_gauges(list[i].0@, symbol_exposure(m, list[i]), pending_of(list[i]), own_totals(m, list[i].0@)) + r.1,
    decreases list.len(),
{
    let rest = list.drop_last();
    if i == list.len() - 1 {
        assert(all_symbol_gauges(m, list) =~= all_symbol_gauges(m, rest) + symbol_gauges(list[i].0@, symbol_exposure(m, list[i]), pending_of(list[i]), own_totals(m, list[i].0@)) + Seq::<GaugeModel>::empty());
        (all_symbol_gauges(m, rest), Seq::empty())
    } else {
        assert(rest[i] == list[i]);
        let (before, after) = lemma_instrument_inside(m, rest, i);
        let last = all_symbol_gauges(m, list).skip(all_symbol_gauges(m, rest).len() as int);
        assert(all_symbol_gauges(m, list) =~= before + symbol_gauges(list[i].0@, symbol_exposure(m, list[i]), pending_of(list[i]), own_totals(m, list[i].0@)) + (after + last));
        (before, after + last)
    }
}

proof fn lemma_account_inside(list: Seq<(AccountId, TradingStats)>, i: int) -> (r: (Seq<GaugeModel>, Seq<GaugeModel>))
    requires
        0 <= i < list.len(),
    ensures
        all_paper_gauges(list) == r.0 + paper_gauges(list[i].0@, list[i].1@) + r.1,
    decreases list.len(),
{
    let rest = list.drop_last();
    if i == list.len() - 1 {
        assert(all_paper_gauges(list) =~= all_paper_gauges(rest) + paper_gauges(list[i].0@, list[i].1@) + Seq::<GaugeModel>::empty());
        (all_paper_gauges(rest), Seq::empty())
    } else {
        assert(rest[i] == list[i]);
        let (before, after) = lemma_account_inside(rest, i);
        let last = all_paper_gauges(list).skip(all_paper_gauges(rest).len() as int);
        assert(all_paper_gauges(list) =~= before + paper_gauges(list[i].0@, list[i].1@) + (after + last));
        (before, after + last)
    }
}

proof fn lemma_account_venue_inside(list: Seq<((AccountId, Exchange), AccountInfo)>, i: int) -> (r: (Seq<GaugeModel>, Seq<GaugeModel>))
    requires
        0 <= i < list.len(),
    ensures
        all_paper_account_gauges(list) == r.0 + paper_account_gauges(list[i].0.0@, list[i].0.1, list[i].1) + r.1,
    decreases list.len(),
{
    let rest = list.drop_last();
    if i == list.len() - 1 {
        assert(all_paper_account_gauges(list) =~= all_paper_account_gauges(rest) + paper_account_gauges(list[i].0.0@, list[i].0.1, list[i].1) + Seq::<GaugeModel>::empty());
        (all_paper_account_gauges(rest), Seq::empty())
    } else {
        assert(rest[i] == list[i]);
        let (before, after) = lemma_account_venue_inside(rest, i);
        let last = all_paper_account_gauges(list).skip(all_paper_account_gauges(rest).len() as int);
        assert(all_paper_account_gauges(list) =~= before + paper_account_gauges(list[i].0.0@, list[i].0.1, list[i].1) + (after + last));
        (before, after + last)
    }
}

/// Every venue counts, once.
pub proof fn every_venue_counts_once(exchange: Exchange)
    ensures
        venues().contains(exchange),
        venues().no_duplicates(),
{
    assert(venues()[0] is Binance);
    assert(venues()[1] is OKX);
    assert(venues()[2] is Hyperliquid);
    assert(venues()[3] is IBKR);
}

/// An event of the real account on an instrument that is followed goes into the books: a fill and a
/// refusal into the totals and into those of the instrument, once each, and every event into the account's
/// view. Nothing of the simulated accounts moves.
pub proof fn a_real_event_is_booked_everywhere(m: MetricsModel, e: AccountEvent, other: Seq<char>)
    requires
        e.account is Live,
        event::account_reach(e.data) matches Reach::Symbol(_, symbol) ==> m.followed_symbols.contains(symbol),
    ensures
        ({
            let after = account_seen(m, e);
            &&& after.state == state::applied(m.state, IncomeEvent::Account(e))
            &&& e.data matches AccountData::Fill(fill) ==> {
                &&& after.total == stats::with_fill(m.total, fill)
                &&& after.per_symbol.dom().contains(fill.symbol@)
                &&& after.per_symbol[fill.symbol@] == stats::with_fill(totals(m.per_symbol, fill.symbol@), fill)
                &&& other != fill.symbol@ ==> totals(after.per_symbol, other) == totals(m.per_symbol, other)
            }
            &&& e.data matches AccountData::OrderUpdate(u) ==> {
                &&& after.total == stats::with_update(m.total, u)
                &&& after.per_symbol[u.symbol@] == stats::with_update(totals(m.per_symbol, u.symbol@), u)
                &&& other != u.symbol@ ==> totals(after.per_symbol, other) == totals(m.per_symbol, other)
            }
            &&& !(e.data is Fill) && !(e.data is OrderUpdate) ==> after.total == m.total && after.per_symbol == m.per_symbol
            &&& after.untracked_events == m.untracked_events
            &&& after.paper_stats == m.paper_stats
            &&& after.paper_accounts == m.paper_accounts
            &&& after.baseline == m.baseline
            &&& after.followed_symbols == m.followed_symbols
        }),
{
}

/// What has no totals yet has none.
pub proof fn totals_start_at_nothing(m: Map<Seq<char>, StatsModel>, key: Seq<char>)
    ensures
        m.dom().contains(key) ==> totals(m, key) == m[key],
        !m.dom().contains(key) ==> {
            let t = totals(m, key);
            t.fills == 0 && t.forced_fills == 0 && t.rejected_orders == 0 && t.volume == 0 && t.fee == 0 && t.cash == 0
                && t.recent_fills.len() == 0
        },
{
}

/// Market data moves the view and nothing else.
pub proof fn market_data_moves_the_view_alone(m: MetricsModel, e: MarketEvent)
    requires
        event::market_reach(e.data) matches Reach::Symbol(_, symbol) ==> m.followed_symbols.contains(symbol),
    ensures
        ({
            let after = market_seen(m, e);
            &&& after.state == state::applied(m.state, IncomeEvent::Market(e))
            &&& after.total == m.total
            &&& after.per_symbol == m.per_symbol
            &&& after.baseline == m.baseline
            &&& after.followed_symbols == m.followed_symbols
            &&& after.untracked_events == m.untracked_events
            &&& after.paper_stats == m.paper_stats
            &&& after.paper_accounts == m.paper_accounts
        }),
{
}

/// An event of an instrument that is not followed is counted and otherwise left alone.
pub proof fn strangers_are_counted_and_left_alone(m: MetricsModel, e: AccountEvent, q: MarketEvent)
    ensures
        e.account is Live && (event::account_reach(e.data) matches Reach::Symbol(_, symbol)
            && !m.followed_symbols.contains(symbol)) ==> {
            let after = account_seen(m, e);
            &&& m.untracked_events < u64::MAX ==> after.untracked_events == m.untracked_events + 1
            &&& after == (MetricsModel { untracked_events: after.untracked_events, ..m })
        },
        (event::market_reach(q.data) matches Reach::Symbol(_, symbol) && !m.followed_symbols.contains(symbol)) ==> {
            let after = market_seen(m, q);
            &&& m.untracked_events < u64::MAX ==> after.untracked_events == m.untracked_events + 1
            &&& after == (MetricsModel { untracked_events: after.untracked_events, ..m })
        },
{
}

proof fn lemma_starts_leave_other_legs(
    b: Map<Seq<char>, Map<Exchange, Quantity>>,
    baselines: Seq<PositionBaseline>,
    name: Seq<char>,
    exchange: Exchange,
)
    requires
        forall|j: int|
            0 <= j < baselines.len() ==> (#[trigger] baselines[j]).position.exchange != exchange
                || baselines[j].position.symbol@ != name,
    ensures
        starts(starts_recorded(b, baselines), name).dom().contains(exchange) == starts(b, name).dom().contains(exchange),
        starts(starts_recorded(b, baselines), name)[exchange] == starts(b, name)[exchange],
    decreases baselines.len(),
{
    if baselines.len() > 0 {
        let rest = baselines.drop_last();
        assert forall|j: int| 0 <= j < rest.len() implies (#[trigger] rest[j]).position.exchange != exchange
            || rest[j].position.symbol@ != name by {
            assert(rest[j] == baselines[j]);
        }
        lemma_starts_leave_other_legs(b, rest, name, exchange);
        assert(baselines[baselines.len() - 1] == baselines.last());
    }
}

/// The session of every leg starts from the first baseline told of it, and of no other leg.
pub proof fn every_session_starts_from_its_first_baseline(
    b: Map<Seq<char>, Map<Exchange, Quantity>>,
    baselines: Seq<PositionBaseline>,
    i: int,
)
    requires
        0 <= i < baselines.len(),
        state::is_first_of_leg(baselines, i),
    ensures
        ({
            let p = baselines[i].position;
            let after = starts(starts_recorded(b, baselines), p.symbol@);
            &&& after.dom().contains(p.exchange)
            &&& starts(b, p.symbol@).dom().contains(p.exchange) ==> after[p.exchange] == starts(b, p.symbol@)[p.exchange]
            &&& !starts(b, p.symbol@).dom().contains(p.exchange) ==> after[p.exchange] == p.size
        }),
    decreases baselines.len(),
{
    let rest = baselines.drop_last();
    let p = baselines[i].position;
    if i < baselines.len() - 1 {
        assert(rest[i] == baselines[i]);
        assert forall|j: int| 0 <= j < i implies (#[trigger] rest[j]).position.exchange != rest[i].position.exchange
            || rest[j].position.symbol@ != rest[i].position.symbol@ by {
            assert(rest[j] == baselines[j]);
        }
        every_session_starts_from_its_first_baseline(b, rest, i);
    } else {
        assert forall|j: int| 0 <= j < rest.len() implies (#[trigger] rest[j]).position.exchange != p.exchange
            || rest[j].position.symbol@ != p.symbol@ by {
            assert(rest[j] == baselines[j]);
        }
        lemma_starts_leave_other_legs(b, rest, p.symbol@, p.exchange);
    }
}

/// Instruments that are taken on are followed from then on, and nothing that was booked moves.
pub proof fn instruments_taken_on_are_followed(
    m: MetricsModel,
    symbols: Seq<Symbol>,
    baselines: Seq<PositionBaseline>,
    name: Seq<char>,
)
    ensures
        ({
            let after = followed(m, symbols, baselines);
            &&& after.followed_symbols.contains(name) <==> m.followed_symbols.contains(name) || exists|i: int|
                0 <= i < symbols.len() && (#[trigger] symbols[i])@ == name
            &&& after.state == state::seeded_all(state::registered(m.state, symbols), baselines)
            &&& after.baseline == starts_recorded(m.baseline, baselines)
            &&& after.total == m.total
            &&& after.per_symbol == m.per_symbol
            &&& after.paper_stats == m.paper_stats
            &&& after.paper_accounts == m.paper_accounts
            &&& after.untracked_events == m.untracked_events
        }),
{
}

/// What was held at the start is what the baseline says, and nothing where it says nothing.
pub proof fn a_session_starts_from_its_baseline(baseline: Map<Exchange, Quantity>, exchange: Exchange)
    ensures
        baseline.dom().contains(exchange) ==> start_of(baseline, exchange) == baseline[exchange],
        !baseline.dom().contains(exchange) ==> start_of(baseline, exchange) == 0,
{
}

/// At first nothing is followed, nothing is known and nothing is booked.
pub proof fn the_books_start_blank(name: Seq<char>, account: AccountKey)
    ensures
        !nothing_seen().followed_symbols.contains(name),
        !nothing_seen().state.symbols.dom().contains(name),
        !nothing_seen().per_symbol.dom().contains(name),
        !nothing_seen().baseline.dom().contains(name),
        !nothing_seen().paper_stats.dom().contains(account),
        nothing_seen().total.fills == 0,
        nothing_seen().total.rejected_orders == 0,
        nothing_seen().total.volume == 0,
        nothing_seen().total.fee == 0,
        nothing_seen().total.cash == 0,
        nothing_seen().untracked_events == 0,
        nothing_seen().state.order_timeout_ms == 0,
{
}

} // verus!
