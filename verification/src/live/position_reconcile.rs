//! Position reconciliation: the position that baselines and fills add up to, against what the
//! venue reports.
//!
//! A single disagreement is normal: a fill may have reached the venue and not yet the engine.
//! A disagreement that stays the same over several readings is not, whatever is traded
//! meanwhile; one that changes from reading to reading is fills under way.

use vstd::prelude::*;
use vstd::string::StringExecFns;
use crate::amount;
use crate::amount::{exceeds, larger, minus, QUANTITY_EPSILON, QUANTITY_PLACES};
use crate::domain;
use crate::domain::{Exchange, ExchangeError, Position, PositionBaseline, Quantity, Symbol};
use crate::domain::{SymbolMeta, SymbolMetas, Timestamp};
use crate::event::{AccountData, IncomeEvent};
use crate::state;
use crate::state::{StateManager, StateModel, SymbolModel, SymbolState};
use crate::table;
use crate::table::{Key, Table};
use crate::text;
use crate::text::{decimal_text, join_text, natural};

verus! {

/// How often the venues are asked for their positions, in milliseconds.
pub const DEFAULT_POSITION_POLL_INTERVAL_MS: u64 = 3_000;

/// After how many readings with the same disagreement the local position is given up.
pub const DEFAULT_MAX_CONSECUTIVE_MISMATCHES: u32 = 3;

/// A mirror has no orders to give up.
const NO_ORDER_TIMEOUT: u64 = 0;

/// A leg's disagreement that goes on.
#[derive(Clone, Copy, Debug, PartialEq, Eq, Structural)]
pub struct MismatchRecord {
    /// For how many readings it has been the same.
    pub streak: u32,
    /// Local minus reported, as of the last reading.
    pub last_diff: Quantity,
}

/// What a full reading says of an instrument: the last position under that name, and none where
/// there is none.
pub open spec fn reported_size(positions: Seq<Position>, symbol: Seq<char>) -> Quantity
    decreases positions.len(),
{
    if positions.len() == 0 {
        0
    } else if positions.last().symbol@ == symbol {
        positions.last().size
    } else {
        reported_size(positions.drop_last(), symbol)
    }
}

/// How much two readings of a leg may differ: its smallest tradable quantity of coins, and at
/// least what counts as noise.
pub open spec fn tolerance(
    metas: Map<(Exchange, Seq<char>), SymbolMeta>,
    leg: (Exchange, Seq<char>),
) -> int {
    if metas.dom().contains(leg) && domain::coin_step(metas[leg]) > QUANTITY_EPSILON {
        domain::coin_step(metas[leg])
    } else {
        QUANTITY_EPSILON as int
    }
}

/// One reading, and what it is held against.
pub struct Reading {
    pub exchange: Exchange,
    pub positions: Seq<Position>,
    pub metas: Map<(Exchange, Seq<char>), SymbolMeta>,
    pub max_consecutive: u32,
}

/// Local minus reported.
pub open spec fn difference(r: Reading, symbol: Seq<char>, s: SymbolModel) -> int {
    amount::clamp(state::held(s, r.exchange) - reported_size(r.positions, symbol))
}

/// Whether two amounts are further apart than the leg's tolerance.
pub open spec fn apart(r: Reading, symbol: Seq<char>, a: int, b: int) -> bool {
    amount::abs(amount::clamp(a - b)) > tolerance(r.metas, (r.exchange, symbol))
}

/// Whether the leg disagrees.
pub open spec fn disagrees(r: Reading, symbol: Seq<char>, s: SymbolModel) -> bool {
    amount::abs(difference(r, symbol, s)) > tolerance(r.metas, (r.exchange, symbol))
}

/// One more, as far as a `u32` counts.
pub open spec fn one_more(n: u32) -> u32 {
    if n < u32::MAX {
        (n + 1) as u32
    } else {
        n
    }
}

/// A leg's record after a disagreement: one more of the same, or the first of a new one.
pub open spec fn next_record(
    r: Reading,
    symbol: Seq<char>,
    s: SymbolModel,
    before: Option<MismatchRecord>,
) -> MismatchRecord {
    let diff = difference(r, symbol, s);
    MismatchRecord {
        streak: match before {
            Some(m) => if apart(r, symbol, diff, m.last_diff as int) {
                1
            } else {
                one_more(m.streak)
            },
            None => 1,
        },
        last_diff: diff as Quantity,
    }
}

/// A leg's record after a reading. A leg without a baseline is not compared; one that agrees
/// loses its record.
pub open spec fn record_after(
    r: Reading,
    symbol: Seq<char>,
    s: SymbolModel,
    before: Option<MismatchRecord>,
) -> Option<MismatchRecord> {
    if !s.seeded.dom().contains(r.exchange) {
        before
    } else if disagrees(r, symbol, s) {
        Some(next_record(r, symbol, s, before))
    } else {
        None
    }
}

/// Whether the reading settles that the leg has drifted.
pub open spec fn drifted(
    r: Reading,
    symbol: Seq<char>,
    s: SymbolModel,
    before: Option<MismatchRecord>,
) -> bool {
    s.seeded.dom().contains(r.exchange) && disagrees(r, symbol, s) && next_record(
        r,
        symbol,
        s,
        before,
    ).streak >= r.max_consecutive
}

/// What a map holds under a key.
pub open spec fn lookup(
    m: Map<(Exchange, Seq<char>), MismatchRecord>,
    leg: (Exchange, Seq<char>),
) -> Option<MismatchRecord> {
    if m.dom().contains(leg) {
        Some(m[leg])
    } else {
        None
    }
}

/// The records after one leg was compared.
pub open spec fn compared(
    r: Reading,
    m: Map<(Exchange, Seq<char>), MismatchRecord>,
    symbol: Seq<char>,
    s: SymbolModel,
) -> Map<(Exchange, Seq<char>), MismatchRecord> {
    let leg = (r.exchange, symbol);
    match record_after(r, symbol, s, lookup(m, leg)) {
        Some(x) => m.insert(leg, x),
        None => m.remove(leg),
    }
}

/// The records after the legs of these instruments were compared.
pub open spec fn all_compared(
    r: Reading,
    m: Map<(Exchange, Seq<char>), MismatchRecord>,
    list: Seq<(Symbol, SymbolState)>,
) -> Map<(Exchange, Seq<char>), MismatchRecord>
    decreases list.len(),
{
    if list.len() == 0 {
        m
    } else {
        compared(r, all_compared(r, m, list.drop_last()), list.last().0@, list.last().1@)
    }
}

/// How a drift is told.
pub open spec fn drift_text(r: Reading, symbol: Seq<char>, s: SymbolModel) -> Seq<char> {
    domain::exchange_name(r.exchange) + "/"@ + symbol + ": 本地 "@ + text::decimal(
        state::held(s, r.exchange) as int,
        QUANTITY_PLACES as nat,
    ) + " vs 交易所 "@ + text::decimal(
        reported_size(r.positions, symbol) as int,
        QUANTITY_PLACES as nat,
    ) + " (差 "@ + text::decimal(difference(r, symbol, s), QUANTITY_PLACES as nat) + ", 容差 "@
        + text::decimal(tolerance(r.metas, (r.exchange, symbol)), QUANTITY_PLACES as nat) + ")"@
}

/// The drifts that the reading settles, in the order of the instruments.
pub open spec fn drifts(
    r: Reading,
    m: Map<(Exchange, Seq<char>), MismatchRecord>,
    list: Seq<(Symbol, SymbolState)>,
) -> Seq<Seq<char>>
    decreases list.len(),
{
    if list.len() == 0 {
        Seq::empty()
    } else {
        let (symbol, s) = (list.last().0@, list.last().1@);
        let earlier = drifts(r, m, list.drop_last());
        if drifted(r, symbol, s, lookup(m, (r.exchange, symbol))) {
            earlier.push(drift_text(r, symbol, s))
        } else {
            earlier
        }
    }
}

/// How settled drifts are reported.
pub open spec fn drift_report(max_consecutive: u32, lines: Seq<Seq<char>>) -> Seq<char> {
    "持仓对账连续 "@ + text::digits(max_consecutive as nat)
        + " 次差值稳定的不一致，本地「基线 + Fill」已不可信: "@ + text::join(lines, "; "@)
}

fn reported_by(positions: &Vec<Position>, symbol: &Symbol) -> (q: Quantity)
    ensures
        q == reported_size(positions@, symbol@),
{
    let mut i: usize = positions.len();
    assert(positions@.take(i as int) =~= positions@);
    while i > 0
        invariant
            i <= positions.len(),
            reported_size(positions@, symbol@) == reported_size(positions@.take(i as int), symbol@),
        decreases i,
    {
        assert(positions@.take(i as int).drop_last() =~= positions@.take(i - 1));
        if positions[i - 1].symbol == *symbol {
            return positions[i - 1].size;
        }
        i = i - 1;
    }
    0
}

/// How much two readings of a leg may differ.
fn tolerance_of(metas: &SymbolMetas, exchange: Exchange, symbol: &Symbol) -> (q: Quantity)
    ensures
        q == tolerance(metas@, (exchange, symbol@)),
        q > 0,
{
    match metas.get(&(exchange, symbol.clone())) {
        Some(meta) => larger(meta.coin_size_step(), QUANTITY_EPSILON),
        None => QUANTITY_EPSILON,
    }
}

/// Holds positions against readings.
pub struct Reconciler {
    mirror: StateManager,
    symbol_metas: SymbolMetas,
    mismatches: Table<(Exchange, Symbol), MismatchRecord>,
    max_consecutive: u32,
}

impl Reconciler {
    /// The position that baselines and fills add up to.
    pub closed spec fn mirror(&self) -> StateModel {
        self.mirror@
    }

    /// The instruments of the mirror, in the order in which they came.
    pub closed spec fn list(&self) -> Seq<(Symbol, SymbolState)> {
        self.mirror.list()
    }

    /// The disagreements that go on.
    pub closed spec fn mismatches(&self) -> Map<(Exchange, Seq<char>), MismatchRecord> {
        self.mismatches@
    }

    /// The rules of the known legs.
    pub closed spec fn metas(&self) -> Map<(Exchange, Seq<char>), SymbolMeta> {
        self.symbol_metas@
    }

    /// How many readings with the same disagreement settle a drift.
    pub closed spec fn patience(&self) -> u32 {
        self.max_consecutive
    }

    /// The reading of a venue, as this reconciler holds it.
    pub open spec fn reading(&self, exchange: Exchange, positions: Seq<Position>) -> Reading {
        Reading { exchange, positions, metas: self.metas(), max_consecutive: self.patience() }
    }

    /// Nothing is followed yet.
    pub fn new(symbol_metas: SymbolMetas, max_consecutive: u32) -> (r: Self)
        ensures
            r.mirror().symbols == Map::<Seq<char>, SymbolModel>::empty(),
            r.mismatches() == Map::<(Exchange, Seq<char>), MismatchRecord>::empty(),
            r.metas() == symbol_metas@,
            r.patience() == max_consecutive,
    {
        let mirror = StateManager::new(&Vec::new(), NO_ORDER_TIMEOUT);
        assert(mirror@.symbols =~= Map::<Seq<char>, SymbolModel>::empty());
        Reconciler { mirror, symbol_metas, mismatches: Table::new(), max_consecutive }
    }

    /// Follows these instruments, from these baselines on.
    pub fn register(&mut self, symbols: &Vec<Symbol>, baselines: &Vec<PositionBaseline>)
        ensures
            final(self).mirror() == state::seeded_all(
                state::registered(old(self).mirror(), symbols@),
                baselines@,
            ),
            final(self).mismatches() == old(self).mismatches(),
            final(self).metas() == old(self).metas(),
            final(self).patience() == old(self).patience(),
    {
        self.mirror.register_symbols(symbols);
        self.mirror.seed_positions(baselines);
    }

    /// Takes in an event: fills of the instruments that are followed, and nothing else.
    pub fn on_event(&mut self, event: &IncomeEvent)
        ensures
            final(self).mirror() == (if event matches IncomeEvent::Account(e) && e.data is Fill {
                state::applied(old(self).mirror(), *event)
            } else {
                old(self).mirror()
            }),
            final(self).mismatches() == old(self).mismatches(),
            final(self).metas() == old(self).metas(),
            final(self).patience() == old(self).patience(),
    {
        if let IncomeEvent::Account(e) = event {
            if let AccountData::Fill(fill) = &e.data {
                if self.mirror.symbol_state(&fill.symbol).is_some() {
                    self.mirror.apply(event);
                }
            }
        }
    }

    /// Holds a venue's full reading against the mirror. An instrument that the reading does not
    /// name is not held there. Fails when a disagreement has stayed the same for as many readings
    /// as are allowed.
    pub fn reconcile(&mut self, exchange: Exchange, positions: &Vec<Position>) -> (res: Result<(), String>)
        ensures
            final(self).mirror() == old(self).mirror(),
            final(self).list() == old(self).list(),
            state::lists_symbols(old(self).list(), old(self).mirror()),
            final(self).mismatches() == all_compared(
                old(self).reading(exchange, positions@),
                old(self).mismatches(),
                old(self).list(),
            ),
            final(self).metas() == old(self).metas(),
            final(self).patience() == old(self).patience(),
            ({
                let lines = drifts(
                    old(self).reading(exchange, positions@),
                    old(self).mismatches(),
                    old(self).list(),
                );
                match res {
                    Ok(()) => lines.len() == 0,
                    Err(s) => lines.len() > 0 && s@ == drift_report(
                        old(self).reading(exchange, positions@).max_consecutive,
                        lines,
                    ),
                }
            }),
    {
        let ghost r = self.reading(exchange, positions@);
        let ghost m0 = self.mismatches@;
        let ghost list = self.mirror.list();
        let n = self.mirror.symbol_count();
        let mut confirmed: Vec<String> = Vec::new();
        let mut i: usize = 0;
        assert(text::views(confirmed@) =~= drifts(r, m0, list.take(0)));
        while i < n
            invariant
                i <= n,
                n == list.len(),
                list == self.mirror.list(),
                table::distinct_keys(list),
                r == self.reading(exchange, positions@),
                self.mirror == old(self).mirror,
                self.symbol_metas == old(self).symbol_metas,
                self.max_consecutive == old(self).max_consecutive,
                self.mismatches@ == all_compared(r, m0, list.take(i as int)),
                text::views(confirmed@) == drifts(r, m0, list.take(i as int)),
            decreases n - i,
        {
            proof {
                assert(list.take(i + 1).drop_last() =~= list.take(i as int));
                lemma_untouched(r, m0, list, i as int);
            }
            let symbol = self.mirror.symbol_at(i);
            let state = self.mirror.state_at(i);
            if state.is_position_seeded(exchange) {
                let reported = reported_by(positions, symbol);
                let local = state.position_size(exchange);
                let tol = tolerance_of(&self.symbol_metas, exchange, symbol);
                let diff = minus(local, reported);
                let key = (exchange, symbol.clone());
                if !exceeds(diff, tol) {
                    self.mismatches.remove(&key);
                } else {
                    let streak: u32 = match self.mismatches.get(&key) {
                        Some(prev) => if !exceeds(minus(diff, prev.last_diff), tol) {
                            if prev.streak < u32::MAX {
                                prev.streak + 1
                            } else {
                                prev.streak
                            }
                        } else {
                            1
                        },
                        None => 1,
                    };
                    self.mismatches.insert(key, MismatchRecord { streak, last_diff: diff });
                    if streak >= self.max_consecutive {
                        let line = drift_line(exchange, symbol, local, reported, diff, tol);
                        let ghost was = confirmed@;
                        confirmed.push(line);
                        assert(text::views(confirmed@) =~= text::views(was).push(line@));
                    }
                }
            } else {
                proof {
                    let m = self.mismatches@;
                    let leg = (exchange, symbol@);
                    assert(m.remove(leg) =~= m || m.dom().contains(leg));
                    assert(compared(r, m, symbol@, state@) =~= m);
                }
            }
            i = i + 1;
        }
        assert(list.take(i as int) =~= list);
        assert(text::views(confirmed@).len() == confirmed@.len());
        if confirmed.len() == 0 {
            Ok(())
        } else {
            let mut s = "持仓对账连续 ".to_owned();
            s.append(natural(self.max_consecutive as u128).as_str());
            s.append(" 次差值稳定的不一致，本地「基线 + Fill」已不可信: ");
            s.append(join_text(&confirmed, "; ").as_str());
            Err(s)
        }
    }
}

fn drift_line(
    exchange: Exchange,
    symbol: &Symbol,
    local: Quantity,
    reported: Quantity,
    diff: Quantity,
    tol: Quantity,
) -> (s: String)
    ensures
        s@ == domain::exchange_name(exchange) + "/"@ + symbol@ + ": 本地 "@ + text::decimal(
            local as int,
            QUANTITY_PLACES as nat,
        ) + " vs 交易所 "@ + text::decimal(reported as int, QUANTITY_PLACES as nat) + " (差 "@
            + text::decimal(diff as int, QUANTITY_PLACES as nat) + ", 容差 "@ + text::decimal(
            tol as int,
            QUANTITY_PLACES as nat,
        ) + ")"@,
{
    let mut s = exchange.name().to_owned();
    s.append("/");
    s.append(symbol.as_str());
    s.append(": 本地 ");
    s.append(decimal_text(local, QUANTITY_PLACES).as_str());
    s.append(" vs 交易所 ");
    s.append(decimal_text(reported, QUANTITY_PLACES).as_str());
    s.append(" (差 ");
    s.append(decimal_text(diff, QUANTITY_PLACES).as_str());
    s.append(", 容差 ");
    s.append(decimal_text(tol, QUANTITY_PLACES).as_str());
    s.append(")");
    s
}

/// Comparing the first legs leaves the record of a later one as it was.
proof fn lemma_untouched(
    r: Reading,
    m: Map<(Exchange, Seq<char>), MismatchRecord>,
    list: Seq<(Symbol, SymbolState)>,
    n: int,
)
    requires
        table::distinct_keys(list),
        0 <= n < list.len(),
    ensures
        lookup(all_compared(r, m, list.take(n)), (r.exchange, list[n].0@)) == lookup(
            m,
            (r.exchange, list[n].0@),
        ),
{
    lemma_not_compared(r, m, list, n, (r.exchange, list[n].0@));
}

/// Comparing legs leaves the records of all others as they were.
proof fn lemma_not_compared(
    r: Reading,
    m: Map<(Exchange, Seq<char>), MismatchRecord>,
    list: Seq<(Symbol, SymbolState)>,
    n: int,
    leg: (Exchange, Seq<char>),
)
    requires
        0 <= n <= list.len(),
        forall|i: int| 0 <= i < n ==> leg != (r.exchange, (#[trigger] list[i]).0@),
    ensures
        lookup(all_compared(r, m, list.take(n)), leg) == lookup(m, leg),
    decreases n,
{
    if n > 0 {
        assert(list.take(n).drop_last() =~= list.take(n - 1));
        assert(list.take(n).last() == list[n - 1]);
        lemma_not_compared(r, m, list, n - 1, leg);
    }
}

/// A reading touches a leg's record once, and by that leg alone.
pub proof fn each_leg_is_compared_on_its_own(
    r: Reading,
    m: Map<(Exchange, Seq<char>), MismatchRecord>,
    list: Seq<(Symbol, SymbolState)>,
    i: int,
)
    requires
        table::distinct_keys(list),
        0 <= i < list.len(),
    ensures
        lookup(all_compared(r, m, list), (r.exchange, list[i].0@)) == record_after(
            r,
            list[i].0@,
            list[i].1@,
            lookup(m, (r.exchange, list[i].0@)),
        ),
    decreases list.len(),
{
    let last = list.len() - 1;
    assert(list.drop_last() =~= list.take(last));
    if i < last {
        each_leg_is_compared_on_its_own(r, m, list.drop_last(), i);
        assert(list[i].0.id() != list[last].0.id());
    } else {
        lemma_untouched(r, m, list, i);
    }
}

/// A reading of one venue leaves the records of every other venue as they were.
pub proof fn venues_are_compared_apart(
    r: Reading,
    m: Map<(Exchange, Seq<char>), MismatchRecord>,
    list: Seq<(Symbol, SymbolState)>,
    leg: (Exchange, Seq<char>),
)
    requires
        leg.0 != r.exchange,
    ensures
        lookup(all_compared(r, m, list), leg) == lookup(m, leg),
{
    assert(list.take(list.len() as int) =~= list);
    lemma_not_compared(r, m, list, list.len() as int, leg);
}

/// A reading fails exactly when some leg with a baseline has drifted.
pub proof fn a_reading_fails_for_a_drifted_leg(
    r: Reading,
    m: Map<(Exchange, Seq<char>), MismatchRecord>,
    list: Seq<(Symbol, SymbolState)>,
)
    ensures
        drifts(r, m, list).len() > 0 <==> exists|i: int|
            0 <= i < list.len() && drifted(
                r,
                (#[trigger] list[i]).0@,
                list[i].1@,
                lookup(m, (r.exchange, list[i].0@)),
            ),
    decreases list.len(),
{
    if list.len() > 0 {
        let last = list.len() - 1;
        let rest = list.drop_last();
        a_reading_fails_for_a_drifted_leg(r, m, rest);
        if exists|i: int| 0 <= i < rest.len() && drifted(r, (#[trigger] rest[i]).0@, rest[i].1@, lookup(m, (r.exchange, rest[i].0@))) {
            let i = choose|i: int| 0 <= i < rest.len() && drifted(r, (#[trigger] rest[i]).0@, rest[i].1@, lookup(m, (r.exchange, rest[i].0@)));
            assert(list[i] == rest[i]);
        }
        if exists|i: int| 0 <= i < list.len() && drifted(r, (#[trigger] list[i]).0@, list[i].1@, lookup(m, (r.exchange, list[i].0@))) {
            let i = choose|i: int| 0 <= i < list.len() && drifted(r, (#[trigger] list[i]).0@, list[i].1@, lookup(m, (r.exchange, list[i].0@)));
            if i < last {
                assert(rest[i] == list[i]);
            }
        }
    }
}

/// One reading in which a leg agrees wipes out all that was held against it.
pub proof fn one_agreement_clears_the_record(
    r: Reading,
    symbol: Seq<char>,
    s: SymbolModel,
    before: Option<MismatchRecord>,
)
    requires
        s.seeded.dom().contains(r.exchange),
        !disagrees(r, symbol, s),
    ensures
        record_after(r, symbol, s, before) is None,
        !drifted(r, symbol, s, before),
{
}

/// A disagreement that differs from the last one counts as the first: however many come in a row,
/// they settle nothing where more than one is needed.
pub proof fn a_changing_difference_never_adds_up(
    r: Reading,
    symbol: Seq<char>,
    s: SymbolModel,
    before: MismatchRecord,
)
    requires
        r.max_consecutive > 1,
        apart(r, symbol, difference(r, symbol, s), before.last_diff as int),
    ensures
        !drifted(r, symbol, s, Some(before)),
        disagrees(r, symbol, s) && s.seeded.dom().contains(r.exchange) ==> record_after(
            r,
            symbol,
            s,
            Some(before),
        )->Some_0.streak == 1,
{
}

/// A leg's record after several readings, each with what was then known of the instrument.
pub open spec fn record_after_all(
    readings: Seq<(Reading, SymbolModel)>,
    symbol: Seq<char>,
) -> Option<MismatchRecord>
    decreases readings.len(),
{
    if readings.len() == 0 {
        None
    } else {
        record_after(
            readings.last().0,
            symbol,
            readings.last().1,
            record_after_all(readings.drop_last(), symbol),
        )
    }
}

/// A disagreement that stays the same is counted reading by reading, whatever is traded
/// meanwhile, and settles the drift with the reading that makes the count full.
pub proof fn a_steady_difference_settles_the_drift(
    readings: Seq<(Reading, SymbolModel)>,
    symbol: Seq<char>,
    diff: int,
)
    requires
        0 < readings.len() <= u32::MAX,
        forall|i: int|
            0 <= i < readings.len() ==> difference((#[trigger] readings[i]).0, symbol, readings[i].1)
                == diff && disagrees(readings[i].0, symbol, readings[i].1)
                && readings[i].1.seeded.dom().contains(readings[i].0.exchange),
    ensures
        record_after_all(readings, symbol) == Some(
            MismatchRecord { streak: readings.len() as u32, last_diff: diff as Quantity },
        ),
        drifted(
            readings.last().0,
            symbol,
            readings.last().1,
            record_after_all(readings.drop_last(), symbol),
        ) <==> readings.len() >= readings.last().0.max_consecutive,
    decreases readings.len(),
{
    let rest = readings.drop_last();
    assert(readings.last() == readings[readings.len() - 1]);
    if rest.len() > 0 {
        assert forall|i: int| 0 <= i < rest.len() implies difference((#[trigger] rest[i]).0, symbol, rest[i].1)
            == diff && disagrees(rest[i].0, symbol, rest[i].1) && rest[i].1.seeded.dom().contains(rest[i].0.exchange) by {
            assert(rest[i] == readings[i]);
        }
        a_steady_difference_settles_the_drift(rest, symbol, diff);
    }
}

/// Whether the last readings of a leg, as many as settle a drift, all disagree, each by the same as
/// the one before.
pub open spec fn is_steady(readings: Seq<(Reading, SymbolModel)>, symbol: Seq<char>) -> bool {
    let n = readings.last().0.max_consecutive as int;
    let len = readings.len() as int;
    &&& n <= len
    &&& forall|i: int| len - n <= i < len ==> disagrees((#[trigger] readings[i]).0, symbol, readings[i].1)
    &&& forall|i: int| len - n < i < len ==> !apart(
        (#[trigger] readings[i]).0,
        symbol,
        difference(readings[i].0, symbol, readings[i].1),
        difference(readings[i - 1].0, symbol, readings[i - 1].1),
    )
}

/// For how many readings the last disagreement has been the same.
spec fn run_of(readings: Seq<(Reading, SymbolModel)>, symbol: Seq<char>) -> nat
    decreases readings.len(),
{
    if readings.len() == 0 {
        0
    } else {
        let rest = readings.drop_last();
        let (r, s) = readings.last();
        if !disagrees(r, symbol, s) {
            0
        } else if run_of(rest, symbol) > 0 && !apart(
            r,
            symbol,
            difference(r, symbol, s),
            difference(rest.last().0, symbol, rest.last().1),
        ) {
            run_of(rest, symbol) + 1
        } else {
            1
        }
    }
}

spec fn capped(n: nat) -> u32 {
    if n <= u32::MAX {
        n as u32
    } else {
        u32::MAX
    }
}

spec fn all_seeded(readings: Seq<(Reading, SymbolModel)>) -> bool {
    forall|i: int| 0 <= i < readings.len() ==> (#[trigger] readings[i]).1.seeded.dom().contains(readings[i].0.exchange)
}

proof fn lemma_record_counts_run(readings: Seq<(Reading, SymbolModel)>, symbol: Seq<char>)
    requires
        all_seeded(readings),
    ensures
        match record_after_all(readings, symbol) {
            Some(m) => readings.len() > 0 && run_of(readings, symbol) > 0 && m.streak == capped(run_of(readings, symbol))
                && m.last_diff == difference(readings.last().0, symbol, readings.last().1),
            None => run_of(readings, symbol) == 0,
        },
    decreases readings.len(),
{
    if readings.len() > 0 {
        let rest = readings.drop_last();
        assert forall|i: int| 0 <= i < rest.len() implies (#[trigger] rest[i]).1.seeded.dom().contains(rest[i].0.exchange) by {
            assert(rest[i] == readings[i]);
        }
        lemma_record_counts_run(rest, symbol);
        assert(readings[readings.len() - 1] == readings.last());
        assert(readings.last().1.seeded.dom().contains(readings.last().0.exchange));
    }
}

#[verifier::opaque]
spec fn is_off(readings: Seq<(Reading, SymbolModel)>, symbol: Seq<char>, i: int) -> bool {
    disagrees(readings[i].0, symbol, readings[i].1)
}

#[verifier::opaque]
spec fn is_same(readings: Seq<(Reading, SymbolModel)>, symbol: Seq<char>, i: int) -> bool {
    !apart(
        readings[i].0,
        symbol,
        difference(readings[i].0, symbol, readings[i].1),
        difference(readings[i - 1].0, symbol, readings[i - 1].1),
    )
}

spec fn is_steady_for(readings: Seq<(Reading, SymbolModel)>, symbol: Seq<char>, n: int) -> bool {
    let len = readings.len() as int;
    &&& n <= len
    &&& forall|i: int| len - n <= i < len ==> #[trigger] is_off(readings, symbol, i)
    &&& forall|i: int| len - n < i < len ==> #[trigger] is_same(readings, symbol, i)
}

proof fn lemma_one_more_reading(readings: Seq<(Reading, SymbolModel)>, symbol: Seq<char>)
    requires
        readings.len() > 0,
    ensures
        forall|i: int| 0 <= i < readings.len() - 1 ==> #[trigger] is_off(readings.drop_last(), symbol, i) == is_off(
            readings,
            symbol,
            i,
        ),
        forall|i: int| 0 < i < readings.len() - 1 ==> #[trigger] is_same(readings.drop_last(), symbol, i) == is_same(
            readings,
            symbol,
            i,
        ),
        run_of(readings, symbol) == (if !is_off(readings, symbol, readings.len() - 1) {
            0
        } else if run_of(readings.drop_last(), symbol) > 0 && is_same(readings, symbol, readings.len() - 1) {
            run_of(readings.drop_last(), symbol) + 1
        } else {
            1
        }),
{
    reveal(is_off);
    reveal(is_same);
    assert(readings[readings.len() - 1] == readings.last());
    if readings.len() > 1 {
        assert(readings.drop_last().last() == readings[readings.len() - 2]);
    }
}

#[verifier::spinoff_prover]
proof fn lemma_run_is_steady(readings: Seq<(Reading, SymbolModel)>, symbol: Seq<char>, n: int)
    requires
        1 <= n,
    ensures
        run_of(readings, symbol) >= n <==> is_steady_for(readings, symbol, n),
    decreases readings.len(),
{
    let len = readings.len() as int;
    if len > 0 {
        let rest = readings.drop_last();
        lemma_one_more_reading(readings, symbol);
        if n > 1 {
            lemma_run_is_steady(rest, symbol, n - 1);
            if run_of(readings, symbol) >= n {
                assert forall|i: int| len - n <= i < len implies #[trigger] is_off(readings, symbol, i) by {
                    assert(i < len - 1 ==> is_off(rest, symbol, i));
                }
                assert forall|i: int| len - n < i < len implies #[trigger] is_same(readings, symbol, i) by {
                    assert(i < len - 1 ==> is_same(rest, symbol, i));
                }
            }
            if is_steady_for(readings, symbol, n) {
                assert(is_steady_for(rest, symbol, n - 1));
                assert(is_off(readings, symbol, len - 1));
                assert(is_same(readings, symbol, len - 1));
            }
        }
    }
}

/// Of a leg whose readings all came since it has a baseline, the last one settles the drift exactly
/// when the disagreement has been the same for as many readings as it takes.
pub proof fn a_drift_is_settled_by_steady_readings_alone(readings: Seq<(Reading, SymbolModel)>, symbol: Seq<char>)
    requires
        readings.len() > 0,
        readings.last().0.max_consecutive >= 1,
        forall|i: int|
            0 <= i < readings.len() ==> (#[trigger] readings[i]).1.seeded.dom().contains(readings[i].0.exchange),
    ensures
        drifted(
            readings.last().0,
            symbol,
            readings.last().1,
            record_after_all(readings.drop_last(), symbol),
        ) <==> is_steady(readings, symbol),
{
    lemma_record_counts_run(readings, symbol);
    let n = readings.last().0.max_consecutive as int;
    let len = readings.len() as int;
    lemma_run_is_steady(readings, symbol, n);
    assert(readings[len - 1] == readings.last());
    assert(is_steady_for(readings, symbol, n) == is_steady(readings, symbol)) by {
        reveal(is_off);
        reveal(is_same);
        if is_steady_for(readings, symbol, n) {
            assert forall|i: int| len - n <= i < len implies disagrees((#[trigger] readings[i]).0, symbol, readings[i].1) by {
                assert(is_off(readings, symbol, i));
            }
            assert forall|i: int| len - n < i < len implies !apart(
                (#[trigger] readings[i]).0,
                symbol,
                difference(readings[i].0, symbol, readings[i].1),
                difference(readings[i - 1].0, symbol, readings[i - 1].1),
            ) by {
                assert(is_same(readings, symbol, i));
            }
        }
    }
}

/// A reading, and the instruments that were followed when it came.
pub struct Visit {
    pub reading: Reading,
    pub list: Seq<(Symbol, SymbolState)>,
}

/// The records after readings, one after the other, from none.
pub open spec fn records_after(visits: Seq<Visit>) -> Map<(Exchange, Seq<char>), MismatchRecord>
    decreases visits.len(),
{
    if visits.len() == 0 {
        Map::empty()
    } else {
        all_compared(visits.last().reading, records_after(visits.drop_last()), visits.last().list)
    }
}

/// Whether a reading compares a leg: it is of the leg's venue, and the leg is followed there from a
/// baseline on.
pub open spec fn compares(v: Visit, leg: (Exchange, Seq<char>)) -> bool {
    let followed = table::entries_map(v.list);
    v.reading.exchange == leg.0 && followed.dom().contains(leg.1) && followed[leg.1]@.seeded.dom().contains(leg.0)
}

/// The readings that compared a leg, each with what was then known of the instrument.
pub open spec fn comparisons(visits: Seq<Visit>, leg: (Exchange, Seq<char>)) -> Seq<(Reading, SymbolModel)>
    decreases visits.len(),
{
    if visits.len() == 0 {
        Seq::empty()
    } else {
        let earlier = comparisons(visits.drop_last(), leg);
        let v = visits.last();
        if compares(v, leg) {
            earlier.push((v.reading, table::entries_map(v.list)[leg.1]@))
        } else {
            earlier
        }
    }
}

/// Whether the last reading compares an instrument, and settles that it has drifted.
pub open spec fn has_settled(visits: Seq<Visit>, symbol: Seq<char>) -> bool {
    let leg = (visits.last().reading.exchange, symbol);
    compares(visits.last(), leg) && is_steady(comparisons(visits, leg), symbol)
}

spec fn lists_are_distinct(visits: Seq<Visit>) -> bool {
    forall|i: int| 0 <= i < visits.len() ==> table::distinct_keys((#[trigger] visits[i]).list)
}

proof fn lemma_leg_history(visits: Seq<Visit>, leg: (Exchange, Seq<char>))
    requires
        lists_are_distinct(visits),
    ensures
        lookup(records_after(visits), leg) == record_after_all(comparisons(visits, leg), leg.1),
        all_seeded(comparisons(visits, leg)),
    decreases visits.len(),
{
    if visits.len() > 0 {
        let rest = visits.drop_last();
        assert forall|i: int| 0 <= i < rest.len() implies table::distinct_keys((#[trigger] rest[i]).list) by {
            assert(rest[i] == visits[i]);
        }
        lemma_leg_history(rest, leg);
        let v = visits.last();
        assert(visits[visits.len() - 1] == v);
        assert(table::distinct_keys(v.list));
        let m = records_after(rest);
        let followed = table::entries_map(v.list);
        let earlier = comparisons(rest, leg);
        assert(v.list.take(v.list.len() as int) =~= v.list);
        if v.reading.exchange != leg.0 {
            venues_are_compared_apart(v.reading, m, v.list, leg);
        } else if followed.dom().contains(leg.1) {
            let i = choose|i: int| #[trigger] table::names(v.list, i, leg.1);
            table::lemma_entry_in_map(v.list, i);
            assert(v.list[i].0@ == leg.1);
            each_leg_is_compared_on_its_own(v.reading, m, v.list, i);
            if compares(v, leg) {
                let now = earlier.push((v.reading, followed[leg.1]@));
                assert(now.drop_last() =~= earlier);
            }
        } else {
            assert forall|i: int| 0 <= i < v.list.len() implies leg != (v.reading.exchange, (#[trigger] v.list[i]).0@) by {
                table::lemma_entry_in_map(v.list, i);
            }
            lemma_not_compared(v.reading, m, v.list, v.list.len() as int, leg);
        }
    }
}

/// A reading fails exactly when some leg that it compares has disagreed by the same for as many
/// readings of that leg as it takes. Readings of other venues, and instruments that are not
/// followed or have no baseline there, have no say in it.
pub proof fn a_reading_fails_for_a_steady_disagreement(visits: Seq<Visit>)
    requires
        visits.len() > 0,
        visits.last().reading.max_consecutive >= 1,
        forall|i: int| 0 <= i < visits.len() ==> table::distinct_keys((#[trigger] visits[i]).list),
    ensures
        drifts(visits.last().reading, records_after(visits.drop_last()), visits.last().list).len() > 0
            <==> exists|symbol: Seq<char>| #[trigger] has_settled(visits, symbol),
{
    let rest = visits.drop_last();
    let v = visits.last();
    let r = v.reading;
    let m = records_after(rest);
    assert(visits[visits.len() - 1] == v);
    assert forall|i: int| 0 <= i < rest.len() implies table::distinct_keys((#[trigger] rest[i]).list) by {
        assert(rest[i] == visits[i]);
    }
    a_reading_fails_for_a_drifted_leg(r, m, v.list);
    assert forall|i: int| 0 <= i < v.list.len() && (#[trigger] v.list[i]).1@.seeded.dom().contains(r.exchange) implies drifted(
        r,
        v.list[i].0@,
        v.list[i].1@,
        lookup(m, (r.exchange, v.list[i].0@)),
    ) == is_steady(comparisons(visits, (r.exchange, v.list[i].0@)), v.list[i].0@) && compares(
        v,
        (r.exchange, v.list[i].0@),
    ) by {
        let symbol = v.list[i].0@;
        let leg = (r.exchange, symbol);
        table::lemma_entry_in_map(v.list, i);
        lemma_leg_history(rest, leg);
        lemma_leg_history(visits, leg);
        let all = comparisons(visits, leg);
        assert(all.drop_last() =~= comparisons(rest, leg));
        assert(all.last() == (r, v.list[i].1@));
        a_drift_is_settled_by_steady_readings_alone(all, symbol);
    }
    if drifts(r, m, v.list).len() > 0 {
        let i = choose|i: int|
            0 <= i < v.list.len() && drifted(r, (#[trigger] v.list[i]).0@, v.list[i].1@, lookup(m, (r.exchange, v.list[i].0@)));
        assert(v.list[i].1@.seeded.dom().contains(r.exchange));
        assert(has_settled(visits, v.list[i].0@));
    }
    if exists|symbol: Seq<char>| #[trigger] has_settled(visits, symbol) {
        let symbol = choose|symbol: Seq<char>| #[trigger] has_settled(visits, symbol);
        let i = choose|i: int| #[trigger] table::names(v.list, i, symbol);
        table::lemma_entry_in_map(v.list, i);
        assert(v.list[i].0@ == symbol);
        assert(v.list[i].1@.seeded.dom().contains(r.exchange));
    }
}

/// Registering an instrument again leaves what is held of it alone: a reading that tells just that
/// agrees, and fails for another leg or not at all.
pub proof fn registering_again_keeps_the_reading_agreeing(
    mirror: StateModel,
    symbol: Symbol,
    b: PositionBaseline,
    r: Reading,
    m: Map<(Exchange, Seq<char>), MismatchRecord>,
    list: Seq<(Symbol, SymbolState)>,
)
    requires
        mirror.symbols.dom().contains(symbol@),
        b.position.symbol@ == symbol@,
        b.position.exchange == r.exchange,
        mirror.symbols[symbol@].seeded.dom().contains(r.exchange),
        reported_size(r.positions, symbol@) == state::held(mirror.symbols[symbol@], r.exchange),
        state::lists_symbols(list, state::seeded_all(state::registered(mirror, seq![symbol]), seq![b])),
    ensures
        state::seeded_all(state::registered(mirror, seq![symbol]), seq![b]).symbols[symbol@] == mirror.symbols[symbol@],
        !disagrees(r, symbol@, mirror.symbols[symbol@]),
        drifts(r, m, list).len() > 0 <==> exists|i: int|
            0 <= i < list.len() && list[i].0@ != symbol@ && drifted(
                r,
                (#[trigger] list[i]).0@,
                list[i].1@,
                lookup(m, (r.exchange, list[i].0@)),
            ),
{
    let after = state::seeded_all(state::registered(mirror, seq![symbol]), seq![b]);
    assert(seq![b].drop_last() =~= Seq::<PositionBaseline>::empty());
    reveal_with_fuel(state::seeded_all, 2);
    assert(after.symbols[symbol@] == mirror.symbols[symbol@]);
    a_reading_fails_for_a_drifted_leg(r, m, list);
    assert forall|i: int| 0 <= i < list.len() && (#[trigger] list[i]).0@ == symbol@ implies !drifted(
        r,
        list[i].0@,
        list[i].1@,
        lookup(m, (r.exchange, list[i].0@)),
    ) by {
        table::lemma_entry_in_map(list, i);
        assert(state::models(table::entries_map(list))[symbol@] == list[i].1@);
    }
}

/// Says when a channel that must keep working has been silent for too long.
pub struct StalenessGuard {
    pub name: String,
    pub max_staleness_ms: u64,
    pub last_success_ms: Timestamp,
}

/// For how long a channel has been silent.
pub open spec fn silence(g: StalenessGuard, now: Timestamp) -> nat {
    if now > g.last_success_ms {
        (now - g.last_success_ms) as nat
    } else {
        0
    }
}

/// How a channel's silence is told.
pub open spec fn silence_report(g: StalenessGuard, now: Timestamp, error: Seq<char>) -> Seq<char> {
    g.name@ + "已停摆 "@ + text::digits(silence(g, now)) + "ms（上限 "@ + text::digits(
        g.max_staleness_ms as nat,
    ) + "ms），最后一次失败: "@ + error
}

impl StalenessGuard {
    /// The channel counts as working from now on.
    pub fn new(name: String, max_staleness_ms: u64, now: Timestamp) -> (g: Self)
        ensures
            g == (StalenessGuard { name, max_staleness_ms, last_success_ms: now }),
    {
        StalenessGuard { name, max_staleness_ms, last_success_ms: now }
    }

    /// The channel has worked.
    pub fn record_success(&mut self, now: Timestamp)
        ensures
            *final(self) == (StalenessGuard { last_success_ms: now, ..*old(self) }),
    {
        self.last_success_ms = now;
    }

    /// For how long the channel has been silent.
    pub fn stale_ms(&self, now: Timestamp) -> (ms: u64)
        ensures
            ms == silence(*self, now),
    {
        now.saturating_sub(self.last_success_ms)
    }

    /// The channel has failed: that is borne until it has been silent for too long.
    pub fn check_failure(&self, error: &ExchangeError, now: Timestamp) -> (res: Result<(), String>)
        ensures
            match res {
                Ok(()) => silence(*self, now) <= self.max_staleness_ms,
                Err(s) => silence(*self, now) > self.max_staleness_ms && s@ == silence_report(
                    *self,
                    now,
                    domain::error_text(*error),
                ),
            },
    {
        let stale_ms = self.stale_ms(now);
        if stale_ms <= self.max_staleness_ms {
            return Ok(());
        }
        let mut s = self.name.clone();
        s.append("已停摆 ");
        s.append(natural(stale_ms as u128).as_str());
        s.append("ms（上限 ");
        s.append(natural(self.max_staleness_ms as u128).as_str());
        s.append("ms），最后一次失败: ");
        s.append(error.message().as_str());
        Err(s)
    }
}

/// For how long a venue may fail to give a reading, in milliseconds.
pub const MAX_POLL_STALENESS_MS: u64 = 60_000;

/// What a [`PositionReconcileActor`] starts from.
pub struct PositionReconcileArgs {
    /// The venues on which the engine has an account.
    pub exchanges: Vec<Exchange>,
    pub symbol_metas: SymbolMetas,
    pub interval_ms: u64,
    pub max_consecutive_mismatches: u32,
}

/// Reconciles readings as they come in, and bears no venue's silence for too long.
pub struct PositionReconcileActor {
    pub reconciler: Reconciler,
    pub guards: Table<Exchange, StalenessGuard>,
}

/// What the watch over the venues remembers from one reading to the next.
pub struct Watch {
    pub mismatches: Map<(Exchange, Seq<char>), MismatchRecord>,
    pub guards: Map<Exchange, StalenessGuard>,
}

/// The text of a failure.
pub open spec fn failure(res: Result<(), String>) -> Option<Seq<char>> {
    match res {
        Ok(()) => None,
        Err(s) => Some(s@),
    }
}

/// What one venue's answer changes, and the failure that it leads to: positions are compared, and
/// a venue that gives none is borne until it has been silent for too long.
pub open spec fn watched(
    rec: Reconciler,
    w: Watch,
    exchange: Exchange,
    result: Result<Vec<Position>, ExchangeError>,
    now: Timestamp,
) -> (Watch, Option<Seq<char>>) {
    let g = w.guards[exchange];
    match result {
        Ok(positions) => {
            let r = rec.reading(exchange, positions@);
            let lines = drifts(r, w.mismatches, rec.list());
            (
                Watch {
                    mismatches: all_compared(r, w.mismatches, rec.list()),
                    guards: w.guards.insert(exchange, StalenessGuard { last_success_ms: now, ..g }),
                },
                if lines.len() > 0 {
                    Some(drift_report(r.max_consecutive, lines))
                } else {
                    None
                },
            )
        },
        Err(e) => (
            w,
            if silence(g, now) > g.max_staleness_ms {
                Some(silence_report(g, now, domain::error_text(e)))
            } else {
                None
            },
        ),
    }
}

/// What several answers change, up to the first that leads to a failure.
pub open spec fn watched_all(
    rec: Reconciler,
    w: Watch,
    results: Seq<(Exchange, Result<Vec<Position>, ExchangeError>)>,
    now: Timestamp,
) -> (Watch, Option<Seq<char>>)
    decreases results.len(),
{
    if results.len() == 0 {
        (w, None)
    } else {
        let (w1, failed) = watched_all(rec, w, results.drop_last(), now);
        if failed is Some {
            (w1, failed)
        } else {
            watched(rec, w1, results.last().0, results.last().1, now)
        }
    }
}

impl PositionReconcileActor {
    /// Every venue with an account has its guard, and counts as heard from now on.
    pub fn new(args: PositionReconcileArgs, now: Timestamp) -> (a: Self)
        ensures
            forall|e: Exchange|
                #[trigger] a.guards@.dom().contains(e) == exists|i: int|
                    0 <= i < args.exchanges@.len() && #[trigger] args.exchanges@[i] == e,
            forall|e: Exchange| #[trigger] a.guards@.dom().contains(e) ==> a.guards@[e].name@
                == domain::exchange_name(e) + " 持仓对账"@ && a.guards@[e].max_staleness_ms
                == MAX_POLL_STALENESS_MS && a.guards@[e].last_success_ms == now,
            a.reconciler.mirror().symbols == Map::<Seq<char>, SymbolModel>::empty(),
            a.reconciler.mismatches() == Map::<(Exchange, Seq<char>), MismatchRecord>::empty(),
            a.reconciler.metas() == args.symbol_metas@,
            a.reconciler.patience() == args.max_consecutive_mismatches,
    {
        let mut guards: Table<Exchange, StalenessGuard> = Table::new();
        let mut i: usize = 0;
        while i < args.exchanges.len()
            invariant
                i <= args.exchanges.len(),
                forall|e: Exchange|
                    #[trigger] guards@.dom().contains(e) == exists|j: int|
                        0 <= j < i && #[trigger] args.exchanges@[j] == e,
                forall|e: Exchange| #[trigger] guards@.dom().contains(e) ==> guards@[e].name@
                    == domain::exchange_name(e) + " 持仓对账"@ && guards@[e].max_staleness_ms
                    == MAX_POLL_STALENESS_MS && guards@[e].last_success_ms == now,
            decreases args.exchanges.len() - i,
        {
            let exchange = args.exchanges[i];
            let name = text::joined(exchange.name(), " 持仓对账");
            guards.insert(exchange, StalenessGuard::new(name, MAX_POLL_STALENESS_MS, now));
            i = i + 1;
        }
        PositionReconcileActor {
            reconciler: Reconciler::new(args.symbol_metas, args.max_consecutive_mismatches),
            guards,
        }
    }

    /// What the watch remembers.
    pub open spec fn watch(&self) -> Watch {
        Watch { mismatches: self.reconciler.mismatches(), guards: self.guards@ }
    }

    /// Takes in what asking a venue for its positions gave. Every venue that is asked has a
    /// guard.
    pub fn on_reading(
        &mut self,
        exchange: Exchange,
        result: &Result<Vec<Position>, ExchangeError>,
        now: Timestamp,
    ) -> (res: Result<(), String>)
        requires
            old(self).guards@.dom().contains(exchange),
        ensures
            final(self).guards@.dom() == old(self).guards@.dom(),
            final(self).reconciler.mirror() == old(self).reconciler.mirror(),
            final(self).reconciler.list() == old(self).reconciler.list(),
            final(self).reconciler.metas() == old(self).reconciler.metas(),
            final(self).reconciler.patience() == old(self).reconciler.patience(),
            (final(self).watch(), failure(res)) == watched(
                old(self).reconciler,
                old(self).watch(),
                exchange,
                *result,
                now,
            ),
    {
        match result {
            Ok(positions) => {
                if let Some(at) = self.guards.position(&exchange) {
                    let placeholder = StalenessGuard::new(String::new(), 0, 0);
                    let mut guard = self.guards.replace_at(at, placeholder);
                    guard.record_success(now);
                    self.guards.replace_at(at, guard);
                }
                assert(self.guards@ =~= old(self).guards@.insert(
                    exchange,
                    StalenessGuard { last_success_ms: now, ..old(self).guards@[exchange] },
                ));
                assert(self.guards@.dom() =~= old(self).guards@.dom());
                self.reconciler.reconcile(exchange, positions)
            },
            Err(e) => {
                match self.guards.get(&exchange) {
                    Some(guard) => guard.check_failure(e, now),
                    None => Ok(()),
                }
            },
        }
    }

    /// Takes in what asking the venues gave, one after the other, up to the first that settles a
    /// drift or has been silent for too long.
    pub fn poll_and_reconcile(
        &mut self,
        results: &Vec<(Exchange, Result<Vec<Position>, ExchangeError>)>,
        now: Timestamp,
    ) -> (res: Result<(), String>)
        requires
            forall|i: int|
                0 <= i < results@.len() ==> old(self).guards@.dom().contains((#[trigger] results@[i]).0),
        ensures
            final(self).guards@.dom() == old(self).guards@.dom(),
            final(self).reconciler.mirror() == old(self).reconciler.mirror(),
            final(self).reconciler.list() == old(self).reconciler.list(),
            final(self).reconciler.metas() == old(self).reconciler.metas(),
            final(self).reconciler.patience() == old(self).reconciler.patience(),
            (final(self).watch(), failure(res)) == watched_all(
                old(self).reconciler,
                old(self).watch(),
                results@,
                now,
            ),
            answers_once(results@) ==> (res is Ok <==> forall|i: int|
                0 <= i < results@.len() ==> is_borne(
                    old(self).reconciler,
                    old(self).watch(),
                    #[trigger] results@[i],
                    now,
                )),
    {
        let ghost rec = self.reconciler;
        let ghost w0 = self.watch();
        proof {
            if answers_once(results@) {
                a_poll_fails_for_any_answer(rec, w0, results@, now);
            }
        }
        let mut i: usize = 0;
        while i < results.len()
            invariant
                i <= results.len(),
                self.guards@.dom() == old(self).guards@.dom(),
                forall|i: int|
                    0 <= i < results@.len() ==> old(self).guards@.dom().contains((#[trigger] results@[i]).0),
                self.reconciler.mirror() == rec.mirror(),
                self.reconciler.list() == rec.list(),
                self.reconciler.metas() == rec.metas(),
                self.reconciler.patience() == rec.patience(),
                rec == old(self).reconciler,
                w0 == old(self).watch(),
                (self.watch(), None::<Seq<char>>) == watched_all(rec, w0, results@.take(i as int), now),
                answers_once(results@) ==> (watched_all(rec, w0, results@, now).1 is None <==> forall|k: int|
                    0 <= k < results@.len() ==> is_borne(rec, w0, #[trigger] results@[k], now)),
            decreases results.len() - i,
        {
            proof {
                assert(results@.take(i + 1).drop_last() =~= results@.take(i as int));
            }
            let (exchange, result) = &results[i];
            let step = self.on_reading(*exchange, result, now);
            i = i + 1;
            if step.is_err() {
                proof {
                    lemma_stops_at_failure(rec, w0, results@, i as int, now);
                }
                return step;
            }
        }
        assert(results@.take(i as int) =~= results@);
        Ok(())
    }
}

/// Once a reading has failed, later ones change nothing.
proof fn lemma_stops_at_failure(
    rec: Reconciler,
    w: Watch,
    results: Seq<(Exchange, Result<Vec<Position>, ExchangeError>)>,
    n: int,
    now: Timestamp,
)
    requires
        0 <= n <= results.len(),
        watched_all(rec, w, results.take(n), now).1 is Some,
    ensures
        watched_all(rec, w, results, now) == watched_all(rec, w, results.take(n), now),
    decreases results.len() - n,
{
    if n < results.len() {
        assert(results.take(n + 1).drop_last() =~= results.take(n));
        lemma_stops_at_failure(rec, w, results, n + 1, now);
    } else {
        assert(results.take(n) =~= results);
    }
}

/// Whether an answer is no ground to stop, as things stood before the poll: no leg has drifted by
/// what a venue reports, or a venue that reports nothing was heard lately.
pub open spec fn is_borne(
    rec: Reconciler,
    w: Watch,
    answer: (Exchange, Result<Vec<Position>, ExchangeError>),
    now: Timestamp,
) -> bool {
    match answer.1 {
        Ok(positions) => forall|i: int|
            0 <= i < rec.list().len() ==> !drifted(
                rec.reading(answer.0, positions@),
                (#[trigger] rec.list()[i]).0@,
                rec.list()[i].1@,
                lookup(w.mismatches, (answer.0, rec.list()[i].0@)),
            ),
        Err(_) => now - w.guards[answer.0].last_success_ms <= w.guards[answer.0].max_staleness_ms,
    }
}

/// Whether each venue answers at most once.
pub open spec fn answers_once(results: Seq<(Exchange, Result<Vec<Position>, ExchangeError>)>) -> bool {
    forall|i: int, j: int| 0 <= i < j < results.len() ==> (#[trigger] results[i]).0 != (#[trigger] results[j]).0
}

/// An answer leads to a failure exactly when it is a ground to stop.
pub proof fn an_answer_fails_for_what_it_says(
    rec: Reconciler,
    w: Watch,
    answer: (Exchange, Result<Vec<Position>, ExchangeError>),
    now: Timestamp,
)
    ensures
        watched(rec, w, answer.0, answer.1, now).1 is None <==> is_borne(rec, w, answer, now),
{
    if let Ok(positions) = answer.1 {
        a_reading_fails_for_a_drifted_leg(rec.reading(answer.0, positions@), w.mismatches, rec.list());
    }
}

/// A venue that did not answer is remembered as it was.
pub proof fn a_poll_touches_only_those_who_answered(
    rec: Reconciler,
    w: Watch,
    results: Seq<(Exchange, Result<Vec<Position>, ExchangeError>)>,
    now: Timestamp,
    exchange: Exchange,
    symbol: Seq<char>,
)
    requires
        forall|i: int| 0 <= i < results.len() ==> (#[trigger] results[i]).0 != exchange,
    ensures
        watched_all(rec, w, results, now).0.guards[exchange] == w.guards[exchange],
        lookup(watched_all(rec, w, results, now).0.mismatches, (exchange, symbol)) == lookup(
            w.mismatches,
            (exchange, symbol),
        ),
    decreases results.len(),
{
    if results.len() > 0 {
        let rest = results.drop_last();
        assert forall|i: int| 0 <= i < rest.len() implies (#[trigger] rest[i]).0 != exchange by {
            assert(results[i] == rest[i]);
        }
        a_poll_touches_only_those_who_answered(rec, w, rest, now, exchange, symbol);
        let (e, result) = results.last();
        assert(results[results.len() - 1].0 != exchange);
        if let Ok(positions) = result {
            let before = watched_all(rec, w, rest, now).0;
            venues_are_compared_apart(
                rec.reading(e, positions@),
                before.mismatches,
                rec.list(),
                (exchange, symbol),
            );
        }
    }
}

/// A poll that succeeds has looked at every answer: none was a ground to stop, as the answers before
/// it left things.
pub proof fn no_answer_is_passed_over(
    rec: Reconciler,
    w: Watch,
    results: Seq<(Exchange, Result<Vec<Position>, ExchangeError>)>,
    now: Timestamp,
    i: int,
)
    requires
        watched_all(rec, w, results, now).1 is None,
        0 <= i < results.len(),
    ensures
        watched_all(rec, w, results.take(i), now).1 is None,
        is_borne(rec, watched_all(rec, w, results.take(i), now).0, results[i], now),
        watched_all(rec, w, results.take(i + 1), now).0 == watched(
            rec,
            watched_all(rec, w, results.take(i), now).0,
            results[i].0,
            results[i].1,
            now,
        ).0,
    decreases results.len(),
{
    let rest = results.drop_last();
    if i < results.len() - 1 {
        no_answer_is_passed_over(rec, w, rest, now, i);
        assert(rest.take(i) =~= results.take(i));
        assert(rest.take(i + 1) =~= results.take(i + 1));
        assert(rest[i] == results[i]);
    } else {
        assert(results.take(i) =~= rest);
        assert(results.take(i + 1) =~= results);
        an_answer_fails_for_what_it_says(rec, watched_all(rec, w, rest, now).0, results[i], now);
    }
}

proof fn lemma_borne_by_own_records(
    rec: Reconciler,
    a: Watch,
    b: Watch,
    answer: (Exchange, Result<Vec<Position>, ExchangeError>),
    now: Timestamp,
)
    requires
        a.guards[answer.0] == b.guards[answer.0],
        forall|s: Seq<char>| #[trigger] lookup(a.mismatches, (answer.0, s)) == lookup(b.mismatches, (answer.0, s)),
    ensures
        is_borne(rec, a, answer, now) == is_borne(rec, b, answer, now),
{
    if let Ok(positions) = answer.1 {
        let r = rec.reading(answer.0, positions@);
        let list = rec.list();
        assert forall|i: int| 0 <= i < list.len() implies drifted(
            r,
            (#[trigger] list[i]).0@,
            list[i].1@,
            lookup(a.mismatches, (answer.0, list[i].0@)),
        ) == drifted(r, list[i].0@, list[i].1@, lookup(b.mismatches, (answer.0, list[i].0@))) by {
            assert(lookup(a.mismatches, (answer.0, list[i].0@)) == lookup(b.mismatches, (answer.0, list[i].0@)));
        }
    }
}

/// Where each venue answers once, a poll succeeds exactly when no answer is a ground to stop: a drift
/// on any venue, or the lasting silence of any, makes it fail.
pub proof fn a_poll_fails_for_any_answer(
    rec: Reconciler,
    w: Watch,
    results: Seq<(Exchange, Result<Vec<Position>, ExchangeError>)>,
    now: Timestamp,
)
    requires
        answers_once(results),
    ensures
        watched_all(rec, w, results, now).1 is None <==> forall|i: int|
            0 <= i < results.len() ==> is_borne(rec, w, #[trigger] results[i], now),
    decreases results.len(),
{
    if results.len() > 0 {
        let rest = results.drop_last();
        let last = results.last();
        let before = watched_all(rec, w, rest, now).0;
        assert forall|i: int, j: int| 0 <= i < j < rest.len() implies (#[trigger] rest[i]).0 != (#[trigger] rest[j]).0 by {
            assert(results[i].0 != results[j].0);
        }
        a_poll_fails_for_any_answer(rec, w, rest, now);
        assert(results[results.len() - 1] == last);
        assert forall|s: Seq<char>| before.guards[last.0] == w.guards[last.0] && #[trigger] lookup(
            before.mismatches,
            (last.0, s),
        ) == lookup(w.mismatches, (last.0, s)) by {
            assert forall|i: int| 0 <= i < rest.len() implies (#[trigger] rest[i]).0 != last.0 by {
                assert(results[i].0 != results[results.len() - 1].0);
            }
            a_poll_touches_only_those_who_answered(rec, w, rest, now, last.0, s);
        }
        assert(lookup(before.mismatches, (last.0, Seq::empty())) == lookup(w.mismatches, (last.0, Seq::empty())));
        lemma_borne_by_own_records(rec, before, w, last, now);
        an_answer_fails_for_what_it_says(rec, before, last, now);
        if watched_all(rec, w, results, now).1 is None {
            assert forall|i: int| 0 <= i < results.len() implies is_borne(rec, w, #[trigger] results[i], now) by {
                if i < rest.len() {
                    assert(rest[i] == results[i]);
                }
            }
        }
        if forall|i: int| 0 <= i < results.len() ==> is_borne(rec, w, #[trigger] results[i], now) {
            assert forall|i: int| 0 <= i < rest.len() implies is_borne(rec, w, #[trigger] rest[i], now) by {
                assert(rest[i] == results[i]);
            }
            assert(is_borne(rec, w, results[results.len() - 1], now));
        }
    }
}

/// Where each venue answers once and the poll succeeds, every venue's answer is taken in: a reading
/// is compared leg by leg with what was held against the leg before, and counts as heard now; a venue
/// that gave none is remembered as it was.
pub proof fn a_poll_takes_in_every_answer(
    rec: Reconciler,
    w: Watch,
    results: Seq<(Exchange, Result<Vec<Position>, ExchangeError>)>,
    now: Timestamp,
    i: int,
)
    requires
        answers_once(results),
        table::distinct_keys(rec.list()),
        watched_all(rec, w, results, now).1 is None,
        0 <= i < results.len(),
    ensures
        ({
            let after = watched_all(rec, w, results, now).0;
            let e = results[i].0;
            match results[i].1 {
                Ok(positions) => {
                    &&& after.guards[e].last_success_ms == now
                    &&& after.guards[e].max_staleness_ms == w.guards[e].max_staleness_ms
                    &&& after.guards[e].name == w.guards[e].name
                    &&& forall|j: int|
                        0 <= j < rec.list().len() ==> lookup(
                            after.mismatches,
                            (e, (#[trigger] rec.list()[j]).0@),
                        ) == record_after(
                            rec.reading(e, positions@),
                            rec.list()[j].0@,
                            rec.list()[j].1@,
                            lookup(w.mismatches, (e, rec.list()[j].0@)),
                        )
                },
                Err(_) => {
                    &&& after.guards[e] == w.guards[e]
                    &&& forall|s: Seq<char>| #[trigger] lookup(after.mismatches, (e, s)) == lookup(w.mismatches, (e, s))
                },
            }
        }),
    decreases results.len(),
{
    let rest = results.drop_last();
    let last = results.last();
    let before = watched_all(rec, w, rest, now).0;
    let after = watched_all(rec, w, results, now).0;
    let e = results[i].0;
    assert forall|a: int, b: int| 0 <= a < b < rest.len() implies (#[trigger] rest[a]).0 != (#[trigger] rest[b]).0 by {
        assert(results[a].0 != results[b].0);
    }
    if i < results.len() - 1 {
        a_poll_takes_in_every_answer(rec, w, rest, now, i);
        assert(rest[i] == results[i]);
        assert(results[i].0 != results[results.len() - 1].0);
        assert forall|s: Seq<char>| #[trigger] lookup(after.mismatches, (e, s)) == lookup(before.mismatches, (e, s)) by {
            if let Ok(positions) = last.1 {
                venues_are_compared_apart(rec.reading(last.0, positions@), before.mismatches, rec.list(), (e, s));
            }
        }
    } else {
        assert forall|s: Seq<char>| before.guards[e] == w.guards[e] && #[trigger] lookup(before.mismatches, (e, s))
            == lookup(w.mismatches, (e, s)) by {
            assert forall|k: int| 0 <= k < rest.len() implies (#[trigger] rest[k]).0 != e by {
                assert(results[k].0 != results[results.len() - 1].0);
            }
            a_poll_touches_only_those_who_answered(rec, w, rest, now, e, s);
        }
        assert(lookup(before.mismatches, (e, Seq::empty())) == lookup(w.mismatches, (e, Seq::empty())));
        if let Ok(positions) = last.1 {
            assert forall|j: int| 0 <= j < rec.list().len() implies lookup(
                after.mismatches,
                (e, (#[trigger] rec.list()[j]).0@),
            ) == record_after(
                rec.reading(e, positions@),
                rec.list()[j].0@,
                rec.list()[j].1@,
                lookup(w.mismatches, (e, rec.list()[j].0@)),
            ) by {
                each_leg_is_compared_on_its_own(rec.reading(e, positions@), before.mismatches, rec.list(), j);
                assert(lookup(before.mismatches, (e, rec.list()[j].0@)) == lookup(w.mismatches, (e, rec.list()[j].0@)));
            }
        }
    }
}

/// A reading says of an instrument what its last entry under that name says, and that nothing is held
/// where it has none.
pub proof fn a_reading_is_looked_up_by_name(positions: Seq<Position>, symbol: Seq<char>, i: int)
    ensures
        0 <= i < positions.len() && positions[i].symbol@ == symbol && (forall|j: int|
            i < j < positions.len() ==> (#[trigger] positions[j]).symbol@ != symbol) ==> reported_size(
            positions,
            symbol,
        ) == positions[i].size,
        (forall|j: int| 0 <= j < positions.len() ==> (#[trigger] positions[j]).symbol@ != symbol) ==> reported_size(
            positions,
            symbol,
        ) == 0,
    decreases positions.len(),
{
    if positions.len() > 0 {
        let rest = positions.drop_last();
        a_reading_is_looked_up_by_name(rest, symbol, i);
        assert(positions[positions.len() - 1] == positions.last());
        assert forall|j: int| 0 <= j < rest.len() implies rest[j] == #[trigger] positions[j] by {}
    }
}

/// A leg disagrees exactly when what is held locally and what is reported are further apart than
/// noise and than the smallest quantity of coins that can be traded.
pub proof fn a_leg_disagrees_beyond_its_tolerance(r: Reading, symbol: Seq<char>, s: SymbolModel)
    requires
        i128::MIN <= state::held(s, r.exchange) - reported_size(r.positions, symbol) <= i128::MAX,
    ensures
        ({
            let off = state::held(s, r.exchange) - reported_size(r.positions, symbol);
            let size = if off < 0 { -off } else { off };
            let leg = (r.exchange, symbol);
            disagrees(r, symbol, s) <==> size > 10_000 && (r.metas.dom().contains(leg) && r.metas[leg].size_step
                * r.metas[leg].contract_size <= i128::MAX ==> size > r.metas[leg].size_step * r.metas[leg].contract_size)
                && (r.metas.dom().contains(leg) && r.metas[leg].size_step * r.metas[leg].contract_size > i128::MAX
                ==> size > i128::MAX)
        }),
{
}

/// Two disagreements count as the same within that tolerance.
pub proof fn differences_are_told_apart_beyond_the_tolerance(r: Reading, symbol: Seq<char>, a: int, b: int)
    requires
        i128::MIN <= a - b <= i128::MAX,
        !r.metas.dom().contains((r.exchange, symbol)),
    ensures
        apart(r, symbol, a, b) <==> a - b > 10_000 || b - a > 10_000,
{
}

/// A venue that does not answer is borne for as long as its guard allows since it was last heard, and
/// no longer.
pub proof fn silence_is_counted_from_the_last_answer(rec: Reconciler, w: Watch, exchange: Exchange, e: ExchangeError, heard: Timestamp, now: Timestamp)
    requires
        w.guards[exchange].last_success_ms == heard,
    ensures
        watched(rec, w, exchange, Err(e), now).1 is Some <==> now > heard + w.guards[exchange].max_staleness_ms,
        watched(rec, w, exchange, Err(e), now).0 == w,
{
}

/// Every leg that has drifted is told, in its order, and no other.
pub proof fn every_drift_is_told(
    r: Reading,
    m: Map<(Exchange, Seq<char>), MismatchRecord>,
    list: Seq<(Symbol, SymbolState)>,
)
    ensures
        drifts(r, m, list) == list.filter(
            |l: (Symbol, SymbolState)| drifted(r, l.0@, l.1@, lookup(m, (r.exchange, l.0@))),
        ).map_values(|l: (Symbol, SymbolState)| drift_text(r, l.0@, l.1@)),
    decreases list.len(),
{
    table::lemma_picked(
        list,
        |l: (Symbol, SymbolState)| drifted(r, l.0@, l.1@, lookup(m, (r.exchange, l.0@))),
        |l: (Symbol, SymbolState)| drift_text(r, l.0@, l.1@),
    );
    if list.len() > 0 {
        every_drift_is_told(r, m, list.drop_last());
    }
}

/// A drift is told with its leg, what is held locally, and what the venue reports.
pub proof fn a_drift_is_told_with_both_sizes(r: Reading, symbol: Seq<char>, s: SymbolModel)
    ensures
        text::has_prefix(drift_text(r, symbol, s), domain::exchange_name(r.exchange) + "/"@ + symbol),
        text::holds(
            drift_text(r, symbol, s),
            text::decimal(state::held(s, r.exchange) as int, QUANTITY_PLACES as nat),
        ),
        text::holds(
            drift_text(r, symbol, s),
            text::decimal(reported_size(r.positions, symbol) as int, QUANTITY_PLACES as nat),
        ),
{
    let leg = domain::exchange_name(r.exchange) + "/"@ + symbol;
    let own = text::decimal(state::held(s, r.exchange) as int, QUANTITY_PLACES as nat);
    let theirs = text::decimal(reported_size(r.positions, symbol) as int, QUANTITY_PLACES as nat);
    let rest = " (差 "@ + text::decimal(difference(r, symbol, s), QUANTITY_PLACES as nat) + ", 容差 "@
        + text::decimal(tolerance(r.metas, (r.exchange, symbol)), QUANTITY_PLACES as nat) + ")"@;
    let all = drift_text(r, symbol, s);
    assert(all.take(leg.len() as int) =~= leg);
    text::what_is_held_stays_held(leg + ": 本地 "@, own, " vs 交易所 "@ + theirs + rest, own);
    assert(all =~= leg + ": 本地 "@ + own + (" vs 交易所 "@ + theirs + rest));
    text::what_is_held_stays_held(leg + ": 本地 "@ + own + " vs 交易所 "@, theirs, rest, theirs);
    assert(all =~= leg + ": 本地 "@ + own + " vs 交易所 "@ + theirs + rest);
}

/// A reading that leads to a failure names every leg that has drifted.
pub proof fn a_failed_reading_names_every_drift(
    rec: Reconciler,
    w: Watch,
    exchange: Exchange,
    positions: Vec<Position>,
    now: Timestamp,
    i: int,
)
    requires
        0 <= i < drifts(rec.reading(exchange, positions@), w.mismatches, rec.list()).len(),
    ensures
        watched(rec, w, exchange, Ok(positions), now).1 is Some,
        text::holds(
            watched(rec, w, exchange, Ok(positions), now).1->0,
            drifts(rec.reading(exchange, positions@), w.mismatches, rec.list())[i],
        ),
{
    let lines = drifts(rec.reading(exchange, positions@), w.mismatches, rec.list());
    let joined = text::join(lines, "; "@);
    text::joining_loses_no_part(lines, "; "@, i);
    let start = "持仓对账连续 "@ + text::digits(rec.patience() as nat) + " 次差值稳定的不一致，本地「基线 + Fill」已不可信: "@;
    text::what_is_held_stays_held(start, joined, Seq::empty(), lines[i]);
    assert(start + joined + Seq::<char>::empty() =~= drift_report(rec.patience(), lines));
}

/// A silence that leads to a failure is told with the last error.
pub proof fn a_silence_is_told_with_its_error(rec: Reconciler, w: Watch, exchange: Exchange, e: ExchangeError, now: Timestamp)
    requires
        watched(rec, w, exchange, Err(e), now).1 is Some,
    ensures
        text::holds(watched(rec, w, exchange, Err(e), now).1->0, domain::error_text(e)),
        text::has_prefix(watched(rec, w, exchange, Err(e), now).1->0, w.guards[exchange].name@),
{
    let g = w.guards[exchange];
    let error = domain::error_text(e);
    let start = g.name@ + "已停摆 "@ + text::digits(silence(g, now)) + "ms（上限 "@ + text::digits(
        g.max_staleness_ms as nat,
    ) + "ms），最后一次失败: "@;
    text::what_is_held_stays_held(start, error, Seq::empty(), error);
    assert(start + error + Seq::<char>::empty() =~= silence_report(g, now, error));
    assert(silence_report(g, now, error).take(g.name@.len() as int) =~= g.name@);
}

/// Where a poll succeeds, the last reading that a venue gave in it has been compared, leg by leg, with
/// what the answers before it left, and the venue counts as heard now.
pub proof fn the_last_reading_of_a_venue_is_compared(
    rec: Reconciler,
    w: Watch,
    results: Seq<(Exchange, Result<Vec<Position>, ExchangeError>)>,
    now: Timestamp,
    i: int,
    j: int,
)
    requires
        table::distinct_keys(rec.list()),
        watched_all(rec, w, results, now).1 is None,
        0 <= i < results.len(),
        results[i].1 is Ok,
        forall|k: int| i < k < results.len() ==> (#[trigger] results[k]).0 != results[i].0,
        0 <= j < rec.list().len(),
    ensures
        ({
            let e = results[i].0;
            let before = watched_all(rec, w, results.take(i), now).0;
            let after = watched_all(rec, w, results, now).0;
            let (symbol, s) = (rec.list()[j].0@, rec.list()[j].1@);
            &&& lookup(after.mismatches, (e, symbol)) == record_after(
                rec.reading(e, results[i].1->Ok_0@),
                symbol,
                s,
                lookup(before.mismatches, (e, symbol)),
            )
            &&& after.guards[e].last_success_ms == now
        }),
    decreases results.len(),
{
    let rest = results.drop_last();
    let last = results.last();
    let e = results[i].0;
    let symbol = rec.list()[j].0@;
    let before = watched_all(rec, w, rest, now).0;
    if i < results.len() - 1 {
        assert(rest[i] == results[i]);
        assert(rest.take(i) =~= results.take(i));
        assert forall|k: int| i < k < rest.len() implies (#[trigger] rest[k]).0 != rest[i].0 by {
            assert(results[k].0 != results[i].0);
        }
        the_last_reading_of_a_venue_is_compared(rec, w, rest, now, i, j);
        assert(results[results.len() - 1].0 != e);
        if let Ok(positions) = last.1 {
            venues_are_compared_apart(rec.reading(last.0, positions@), before.mismatches, rec.list(), (e, symbol));
        }
    } else {
        assert(results.take(i) =~= rest);
        each_leg_is_compared_on_its_own(
            rec.reading(e, results[i].1->Ok_0@),
            before.mismatches,
            rec.list(),
            j,
        );
    }
}

/// A leg that disagrees is held against what the difference is now: what is held locally less what is
/// reported. The first time counts as one, the same again as one more.
pub proof fn a_record_tells_the_latest_difference(
    r: Reading,
    symbol: Seq<char>,
    s: SymbolModel,
    before: Option<MismatchRecord>,
)
    requires
        s.seeded.dom().contains(r.exchange),
        disagrees(r, symbol, s),
        i128::MIN <= state::held(s, r.exchange) - reported_size(r.positions, symbol) <= i128::MAX,
    ensures
        ({
            let off = state::held(s, r.exchange) - reported_size(r.positions, symbol);
            let now = record_after(r, symbol, s, before);
            &&& now is Some
            &&& now->0.last_diff == off
            &&& before is None ==> now->0.streak == 1
            &&& before matches Some(b) ==> b.last_diff == off && b.streak < u32::MAX ==> now->0.streak == b.streak + 1
        }),
{
}

/// A leg that has no baseline yet is not compared: nothing is held against it, and it has not drifted.
pub proof fn a_leg_without_baseline_is_not_compared(
    r: Reading,
    symbol: Seq<char>,
    s: SymbolModel,
    before: Option<MismatchRecord>,
)
    requires
        !s.seeded.dom().contains(r.exchange),
    ensures
        record_after(r, symbol, s, before) == before,
        !drifted(r, symbol, s, before),
{
}

} // verus!
