//! How an account has done with an instrument: totals, and the result of every round trip.
//!
//! A round trip runs from a flat position to the next flat position. Its result is what its fills
//! brought in, so that each is one sample.

use vstd::prelude::*;
use crate::amount;
use crate::amount::{exceeds, minus, plus};
use crate::domain;
use crate::domain::{signed, Fill, Money, Quantity, Symbol, Timestamp};
use crate::stats;
use crate::stats::{cash_flow_of, worth_of, StatsModel, TradingStats};

verus! {

/// Positions up to this size (10^-12 coins) count as none.
pub const FLAT_EPSILON: Quantity = 10_000;

/// A number as a fraction of another.
#[derive(Clone, Copy, Debug, PartialEq, Eq, Structural)]
pub struct Ratio {
    pub numerator: Money,
    /// Positive.
    pub denominator: Money,
}

/// A position that was opened and closed again.
#[derive(Debug, PartialEq, Eq)]
pub struct RoundTrip {
    pub symbol: Symbol,
    pub opened_at: Timestamp,
    pub closed_at: Timestamp,
    /// How many fills it took.
    pub fills: u32,
    /// What it earned, after fees.
    pub net_pnl: Money,
    /// What the fills that enlarged the position were worth.
    pub open_notional: Money,
}

impl Clone for RoundTrip {
    fn clone(&self) -> (r: Self)
        ensures
            r == *self,
    {
        RoundTrip {
            symbol: self.symbol.clone(),
            opened_at: self.opened_at,
            closed_at: self.closed_at,
            fills: self.fills,
            net_pnl: self.net_pnl,
            open_notional: self.open_notional,
        }
    }
}

impl RoundTrip {
    /// What it earned per unit of what was opened; nothing where nothing was opened.
    pub fn return_on_notional(&self) -> (r: Ratio)
        ensures
            r == if self.open_notional > 0 {
                (Ratio { numerator: self.net_pnl, denominator: self.open_notional })
            } else {
                (Ratio { numerator: 0, denominator: 1 })
            },
            r.denominator > 0,
    {
        if self.open_notional > 0 {
            Ratio { numerator: self.net_pnl, denominator: self.open_notional }
        } else {
            Ratio { numerator: 0, denominator: 1 }
        }
    }
}

/// How an account has done with an instrument.
#[verifier::ext_equal]
pub struct RecordModel {
    pub symbol: Symbol,
    pub stats: StatsModel,
    /// The last round trips, oldest first.
    pub round_trips: Seq<RoundTrip>,
    pub capacity: usize,
    pub position: Quantity,
    /// What all fills brought in.
    pub cash: Money,
    /// What all fills had brought in when the position was opened.
    pub open_cash: Option<Money>,
    pub open_at: Timestamp,
    pub open_fills: u32,
    pub open_notional: Money,
}

/// Nothing has been traded.
pub open spec fn untraded(symbol: Symbol, capacity: usize) -> RecordModel {
    RecordModel {
        symbol,
        stats: stats::no_trades(0),
        round_trips: Seq::empty(),
        capacity,
        position: 0,
        cash: 0,
        open_cash: None,
        open_at: 0,
        open_fills: 0,
        open_notional: 0,
    }
}

/// Whether a position counts as none.
pub open spec fn flat(position: int) -> bool {
    amount::abs(position) <= FLAT_EPSILON
}

/// Whether a position goes from one side to the other in one step.
pub open spec fn crosses(before: int, after: int) -> bool {
    !flat(before) && !flat(after) && (before > 0) != (after > 0)
}

/// One more, as far as a `u32` counts.
pub open spec fn one_more(n: u32) -> u32 {
    if n < u32::MAX {
        (n + 1) as u32
    } else {
        n
    }
}

/// The record as a fill finds it: from a flat position a round trip starts.
pub open spec fn opened(r: RecordModel, fill: Fill) -> RecordModel {
    if flat(r.position as int) {
        RecordModel {
            open_cash: Some(r.cash),
            open_at: fill.timestamp,
            open_fills: 0,
            open_notional: 0,
            ..r
        }
    } else {
        r
    }
}

/// The record with a fill booked, before it is asked whether a round trip is over. A fill that
/// takes the position across to the other side only closes.
pub open spec fn booked(r: RecordModel, fill: Fill) -> RecordModel {
    let o = opened(r, fill);
    let position = amount::clamp(o.position + domain::signed_size(fill.side, fill.size));
    let enlarges = flat(r.position as int) || (amount::abs(position) > amount::abs(
        o.position as int,
    ) && !crosses(o.position as int, position));
    RecordModel {
        stats: stats::with_fill(o.stats, fill),
        cash: amount::clamp(o.cash + stats::cash_flow(fill)) as Money,
        position: position as Quantity,
        open_fills: one_more(o.open_fills),
        open_notional: if enlarges {
            amount::clamp(o.open_notional + stats::worth(fill.size, fill.price)) as Money
        } else {
            o.open_notional
        },
        ..o
    }
}

/// The round trip that a fill ends: it leaves the position flat, or takes it across.
pub open spec fn trip_ended(r: RecordModel, fill: Fill) -> Option<RoundTrip> {
    let b = booked(r, fill);
    if flat(b.position as int) || crosses(r.position as int, b.position as int) {
        Some(
            RoundTrip {
                symbol: b.symbol,
                opened_at: b.open_at,
                closed_at: fill.timestamp,
                fills: b.open_fills,
                net_pnl: amount::clamp(
                    b.cash - (match b.open_cash {
                        Some(c) => c as int,
                        None => 0,
                    }),
                ) as Money,
                open_notional: b.open_notional,
            },
        )
    } else {
        None
    }
}

/// The record after a fill. A round trip that ends flat leaves nothing behind; one that ends with
/// the position across starts the next one at the same moment, with no fills yet.
pub open spec fn after_fill(r: RecordModel, fill: Fill) -> RecordModel {
    let b = booked(r, fill);
    match trip_ended(r, fill) {
        None => b,
        Some(trip) => {
            let over = RecordModel {
                round_trips: stats::kept(b.round_trips, b.capacity, trip),
                open_fills: 0,
                open_notional: 0,
                ..b
            };
            if flat(b.position as int) {
                RecordModel { position: 0, open_cash: None, ..over }
            } else {
                RecordModel { open_cash: Some(b.cash), open_at: fill.timestamp, ..over }
            }
        },
    }
}

/// How an account has done with an instrument.
#[derive(Debug)]
pub struct SymbolRecord {
    pub symbol: Symbol,
    pub stats: TradingStats,
    round_trips: Vec<RoundTrip>,
    round_trip_capacity: usize,
    position: Quantity,
    cash: Money,
    open_cash: Option<Money>,
    open_at: Timestamp,
    open_fills: u32,
    open_notional: Money,
}

impl View for SymbolRecord {
    type V = RecordModel;

    closed spec fn view(&self) -> RecordModel {
        RecordModel {
            symbol: self.symbol,
            stats: self.stats@,
            round_trips: self.round_trips@,
            capacity: self.round_trip_capacity,
            position: self.position,
            cash: self.cash,
            open_cash: self.open_cash,
            open_at: self.open_at,
            open_fills: self.open_fills,
            open_notional: self.open_notional,
        }
    }
}

impl SymbolRecord {
    /// Nothing has been traded; so many round trips will be kept.
    pub fn new(symbol: Symbol, round_trip_capacity: usize) -> (r: Self)
        ensures
            r@ == untraded(symbol, round_trip_capacity),
    {
        SymbolRecord {
            symbol,
            stats: TradingStats::with_recent_capacity(0),
            round_trips: Vec::new(),
            round_trip_capacity,
            position: 0,
            cash: 0,
            open_cash: None,
            open_at: 0,
            open_fills: 0,
            open_notional: 0,
        }
    }

    /// The last round trips, oldest first.
    pub fn round_trips(&self) -> (v: &Vec<RoundTrip>)
        ensures
            v@ == self@.round_trips,
    {
        &self.round_trips
    }

    /// How many round trips are kept.
    pub fn round_trip_capacity(&self) -> (n: usize)
        ensures
            n == self@.capacity,
    {
        self.round_trip_capacity
    }

    /// Coins held.
    pub fn position(&self) -> (q: Quantity)
        ensures
            q == self@.position,
    {
        self.position
    }

    /// Whether nothing is held.
    pub fn is_flat(&self) -> (b: bool)
        ensures
            b == flat(self@.position as int),
    {
        !exceeds(self.position, FLAT_EPSILON)
    }

    /// What all fills brought in, over all round trips, whether they are kept or not.
    pub fn realized_pnl(&self) -> (m: Money)
        ensures
            m == self@.cash,
    {
        self.cash
    }

    /// Takes in a fill; gives the round trip that it ends.
    pub fn apply_fill(&mut self, fill: &Fill) -> (trip: Option<RoundTrip>)
        ensures
            final(self)@ == after_fill(old(self)@, *fill),
            trip == trip_ended(old(self)@, *fill),
    {
        let ghost r = self@;
        self.stats.apply_fill(fill);
        let was_flat = self.is_flat();
        if was_flat {
            self.open_cash = Some(self.cash);
            self.open_at = fill.timestamp;
            self.open_fills = 0;
            self.open_notional = 0;
        }
        let before = self.position;
        self.cash = plus(self.cash, cash_flow_of(fill));
        self.position = plus(self.position, signed(fill.side, fill.size));
        self.open_fills = self.open_fills.saturating_add(1);
        let now_flat = self.is_flat();
        let crossed = !was_flat && !now_flat && (before > 0) != (self.position > 0);
        if was_flat || (larger_size(self.position, before) && !crossed) {
            self.open_notional = plus(self.open_notional, worth_of(fill.size, fill.price));
        }
        assert(self@ =~= booked(r, *fill));
        if !now_flat && !crossed {
            return None;
        }
        let open_cash: Money = match self.open_cash {
            Some(c) => c,
            None => 0,
        };
        let trip = RoundTrip {
            symbol: self.symbol.clone(),
            opened_at: self.open_at,
            closed_at: fill.timestamp,
            fills: self.open_fills,
            net_pnl: minus(self.cash, open_cash),
            open_notional: self.open_notional,
        };
        self.open_fills = 0;
        self.open_notional = 0;
        if now_flat {
            self.position = 0;
            self.open_cash = None;
        } else {
            self.open_cash = Some(self.cash);
            self.open_at = fill.timestamp;
        }
        if self.round_trip_capacity > 0 {
            if self.round_trips.len() >= self.round_trip_capacity {
                self.round_trips.remove(0);
            }
            self.round_trips.push(trip.clone());
        }
        assert(self@ =~= after_fill(r, *fill));
        Some(trip)
    }
}

fn larger_size(a: Quantity, b: Quantity) -> (r: bool)
    ensures
        r == (amount::abs(a as int) > amount::abs(b as int)),
{
    crate::text::magnitude(a) > crate::text::magnitude(b)
}

/// The record after several fills.
pub open spec fn after_fills(r: RecordModel, fills: Seq<Fill>) -> RecordModel
    decreases fills.len(),
{
    if fills.len() == 0 {
        r
    } else {
        after_fill(after_fills(r, fills.drop_last()), fills.last())
    }
}

/// All round trips that several fills end, in turn.
pub open spec fn trips_of(r: RecordModel, fills: Seq<Fill>) -> Seq<RoundTrip>
    decreases fills.len(),
{
    if fills.len() == 0 {
        Seq::empty()
    } else {
        let earlier = trips_of(r, fills.drop_last());
        match trip_ended(after_fills(r, fills.drop_last()), fills.last()) {
            Some(trip) => earlier.push(trip),
            None => earlier,
        }
    }
}

/// What several fills bring in.
pub open spec fn cash_flows(fills: Seq<Fill>) -> int
    decreases fills.len(),
{
    if fills.len() == 0 {
        0
    } else {
        cash_flows(fills.drop_last()) + stats::cash_flow(fills.last())
    }
}

/// Whether no running total of the cash leaves the range of a [`Money`].
pub open spec fn cash_fits(start: int, fills: Seq<Fill>) -> bool {
    forall|n: int| 0 <= n <= fills.len() ==> amount::fits(start + cash_flows(#[trigger] fills.take(n)))
}

/// What is realized is what the fills brought in, over all round trips, however few are kept.
pub proof fn realized_is_what_the_fills_brought_in(r: RecordModel, fills: Seq<Fill>)
    requires
        cash_fits(r.cash as int, fills),
    ensures
        after_fills(r, fills).cash == r.cash + cash_flows(fills),
    decreases fills.len(),
{
    if fills.len() > 0 {
        let rest = fills.drop_last();
        assert forall|n: int| 0 <= n <= rest.len() implies amount::fits(r.cash + cash_flows(#[trigger] rest.take(n))) by {
            assert(rest.take(n) =~= fills.take(n));
        }
        realized_is_what_the_fills_brought_in(r, rest);
        assert(fills.take(fills.len() as int) =~= fills);
    }
}

/// A round trip that starts flat earns what its fills brought in, and counts them, whatever was
/// earned before.
pub proof fn a_round_trip_earns_what_its_fills_brought_in(r: RecordModel, fills: Seq<Fill>)
    requires
        fills.len() > 0,
        fills.len() <= u32::MAX,
        flat(r.position as int),
        cash_fits(r.cash as int, fills),
        amount::fits(cash_flows(fills)),
        forall|n: int| 0 < n < fills.len() ==> trip_ended(after_fills(r, fills.take(n - 1)), #[trigger] fills[n - 1]) is None,
        trip_ended(after_fills(r, fills.drop_last()), fills.last()) is Some,
    ensures
        ({
            let trip = trip_ended(after_fills(r, fills.drop_last()), fills.last())->Some_0;
            &&& trip.net_pnl == cash_flows(fills)
            &&& trip.fills == fills.len()
            &&& trip.opened_at == fills[0].timestamp
            &&& trip.closed_at == fills.last().timestamp
            &&& trip.symbol == r.symbol
        }),
{
    let rest = fills.drop_last();
    lemma_open_trip(r, fills, rest.len() as int);
    assert(fills.take(rest.len() as int) =~= rest);
    realized_is_what_the_fills_brought_in(r, fills);
}

/// While a round trip that started flat goes on, the record remembers how it started.
proof fn lemma_open_trip(r: RecordModel, fills: Seq<Fill>, n: int)
    requires
        0 <= n < fills.len(),
        fills.len() <= u32::MAX,
        flat(r.position as int),
        forall|k: int| 0 < k < fills.len() ==> trip_ended(after_fills(r, fills.take(k - 1)), #[trigger] fills[k - 1]) is None,
    ensures
        ({
            let s = after_fills(r, fills.take(n));
            &&& s.symbol == r.symbol
            &&& n == 0 ==> s == r
            &&& n > 0 ==> !flat(s.position as int) && s.open_cash == Some(r.cash) && s.open_at == fills[0].timestamp && s.open_fills == n
        }),
    decreases n,
{
    assert(fills.take(0) =~= Seq::<Fill>::empty());
    if n > 0 {
        lemma_open_trip(r, fills, n - 1);
        assert(fills.take(n).drop_last() =~= fills.take(n - 1));
        assert(fills.take(n).last() == fills[n - 1]);
        assert(trip_ended(after_fills(r, fills.take(n - 1)), fills[n - 1]) is None);
    }
}

/// The last `n` of a list, or all of it.
pub open spec fn last_of<T>(list: Seq<T>, n: int) -> Seq<T> {
    if list.len() <= n {
        list
    } else {
        list.skip(list.len() - n)
    }
}

/// The record keeps the last round trips, as many as it may, in their order.
pub proof fn the_last_round_trips_are_kept(symbol: Symbol, capacity: usize, fills: Seq<Fill>)
    ensures
        after_fills(untraded(symbol, capacity), fills).round_trips == last_of(
            trips_of(untraded(symbol, capacity), fills),
            capacity as int,
        ),
        after_fills(untraded(symbol, capacity), fills).capacity == capacity,
    decreases fills.len(),
{
    if fills.len() > 0 {
        let r0 = untraded(symbol, capacity);
        let rest = fills.drop_last();
        the_last_round_trips_are_kept(symbol, capacity, rest);
        let r = after_fills(r0, rest);
        let all = trips_of(r0, rest);
        if let Some(trip) = trip_ended(r, fills.last()) {
            let now = all.push(trip);
            assert(stats::kept(r.round_trips, capacity, trip) =~= last_of(now, capacity as int));
        }
    } else {
        assert(last_of(Seq::<RoundTrip>::empty(), capacity as int) =~= Seq::<RoundTrip>::empty());
    }
}

/// A fill ends a round trip exactly when it leaves the record flat or takes the position across; a
/// record that is flat then holds nothing at all.
pub proof fn a_trip_ends_when_the_record_becomes_flat(r: RecordModel, fill: Fill)
    ensures
        trip_ended(r, fill) is Some <==> flat(after_fill(r, fill).position as int) || crosses(
            r.position as int,
            after_fill(r, fill).position as int,
        ),
        flat(after_fill(r, fill).position as int) ==> after_fill(r, fill).position == 0,
{
}

/// What round trips earned together.
pub open spec fn earned(trips: Seq<RoundTrip>) -> int
    decreases trips.len(),
{
    if trips.len() == 0 {
        0
    } else {
        earned(trips.drop_last()) + trips.last().net_pnl
    }
}

/// Whether what any stretch of the fills brings in is within the range of a [`Money`].
pub open spec fn stretches_fit(fills: Seq<Fill>) -> bool {
    forall|m: int, n: int|
        0 <= m <= n <= fills.len() ==> amount::fits(
            cash_flows(#[trigger] fills.take(n)) - cash_flows(#[trigger] fills.take(m)),
        )
}

proof fn lemma_earned(symbol: Symbol, capacity: usize, fills: Seq<Fill>)
    requires
        stretches_fit(fills),
    ensures
        ({
            let r = after_fills(untraded(symbol, capacity), fills);
            let trips = trips_of(untraded(symbol, capacity), fills);
            &&& r.cash == cash_flows(fills)
            &&& exists|m: int| 0 <= m <= fills.len() && earned(trips) == cash_flows(#[trigger] fills.take(m))
            &&& flat(r.position as int) ==> r.position == 0 && r.cash == earned(trips)
            &&& !flat(r.position as int) ==> r.open_cash is Some && r.open_cash->0 == earned(trips)
        }),
    decreases fills.len(),
{
    let r0 = untraded(symbol, capacity);
    if fills.len() == 0 {
        assert(fills.take(0) =~= Seq::<Fill>::empty());
    } else {
        let rest = fills.drop_last();
        let last = fills.last();
        assert forall|m: int, n: int| 0 <= m <= n <= rest.len() implies amount::fits(
            cash_flows(#[trigger] rest.take(n)) - cash_flows(#[trigger] rest.take(m)),
        ) by {
            assert(rest.take(n) =~= fills.take(n));
            assert(rest.take(m) =~= fills.take(m));
        }
        lemma_earned(symbol, capacity, rest);
        let len = fills.len() as int;
        let r = after_fills(r0, rest);
        let trips = trips_of(r0, rest);
        let m = choose|m: int| 0 <= m <= rest.len() && earned(trips) == cash_flows(#[trigger] rest.take(m));
        assert(rest.take(m) =~= fills.take(m));
        assert(fills.take(0) =~= Seq::<Fill>::empty());
        assert(fills.take(len) =~= fills);
        assert(amount::fits(cash_flows(fills.take(len)) - cash_flows(fills.take(0))));
        assert(amount::fits(cash_flows(fills.take(len)) - cash_flows(fills.take(m))));
        let b = booked(r, last);
        assert(b.cash == cash_flows(fills));
        assert(b.open_cash is Some && b.open_cash->0 == earned(trips));
        if let Some(trip) = trip_ended(r, last) {
            assert(trip.net_pnl == cash_flows(fills) - earned(trips));
            assert(trips.push(trip).drop_last() =~= trips);
            assert(earned(trips.push(trip)) == cash_flows(fills.take(len)));
        } else {
            assert(earned(trips) == cash_flows(fills.take(m)));
        }
    }
}

/// A record that is flat has realized what its round trips earned together, those that are no
/// longer kept among them.
pub proof fn a_flat_record_has_realized_its_trips(symbol: Symbol, capacity: usize, fills: Seq<Fill>)
    requires
        stretches_fit(fills),
        flat(after_fills(untraded(symbol, capacity), fills).position as int),
    ensures
        after_fills(untraded(symbol, capacity), fills).position == 0,
        after_fills(untraded(symbol, capacity), fills).cash == earned(trips_of(untraded(symbol, capacity), fills)),
{
    lemma_earned(symbol, capacity, fills);
}

/// A fill moves the position by its size, up if it bought and down if it sold; what is left within noise
/// of nothing counts as nothing. It is taken down in the totals once, whatever becomes of the trip.
pub proof fn a_fill_moves_the_recorded_position(r: RecordModel, fill: Fill)
    requires
        ({
            let coins = if fill.side is Long { fill.size as int } else { -fill.size };
            coins <= i128::MAX && i128::MIN <= r.position + coins <= i128::MAX
        }),
    ensures
        ({
            let coins = if fill.side is Long { fill.size as int } else { -fill.size };
            let now = r.position + coins;
            &&& -10_000 <= now <= 10_000 ==> after_fill(r, fill).position == 0
            &&& now > 10_000 || now < -10_000 ==> after_fill(r, fill).position == now
            &&& after_fill(r, fill).stats == stats::with_fill(r.stats, fill)
            &&& after_fill(r, fill).symbol == r.symbol
            &&& after_fill(r, fill).capacity == r.capacity
        }),
{
}

/// A trip is over exactly when the position is back to nothing or has changed sides.
pub proof fn a_trip_ends_flat_or_on_the_other_side(r: RecordModel, fill: Fill)
    requires
        ({
            let coins = if fill.side is Long { fill.size as int } else { -fill.size };
            coins <= i128::MAX && i128::MIN <= r.position + coins <= i128::MAX
        }),
    ensures
        ({
            let coins = if fill.side is Long { fill.size as int } else { -fill.size };
            let now = r.position + coins;
            trip_ended(r, fill) is Some <==> -10_000 <= now <= 10_000 || r.position > 10_000 && now < -10_000
                || r.position < -10_000 && now > 10_000
        }),
{
}

/// A fill that ends a trip by changing sides starts the next one at once: from the cash as it stands, at
/// that time, with nothing counted yet.
pub proof fn changing_sides_starts_the_next_trip(r: RecordModel, fill: Fill)
    requires
        trip_ended(r, fill) is Some,
    ensures
        ({
            let after = after_fill(r, fill);
            &&& after.open_fills == 0
            &&& after.open_notional == 0
            &&& after.position != 0 ==> after.open_cash == Some(after.cash) && after.open_at == fill.timestamp
            &&& after.position == 0 ==> after.open_cash is None
        }),
{
}

/// What was put into a position counts what was traded to open and enlarge it: a fill that takes from it
/// adds nothing.
pub proof fn only_enlarging_counts_as_put_in(r: RecordModel, fill: Fill)
    requires
        ({
            let coins = if fill.side is Long { fill.size as int } else { -fill.size };
            coins <= i128::MAX && i128::MIN <= r.position + coins <= i128::MAX
        }),
        i128::MIN <= fill.price * fill.size <= i128::MAX,
        i128::MIN <= r.open_notional + fill.price * fill.size <= i128::MAX,
        trip_ended(r, fill) is None,
    ensures
        ({
            let was_flat = -10_000 <= r.position <= 10_000;
            let coins = if fill.side is Long { fill.size as int } else { -fill.size };
            let enlarges = r.position > 0 && coins > 0 || r.position < 0 && coins < 0;
            let after = after_fill(r, fill);
            &&& was_flat ==> after.open_notional == fill.price * fill.size && after.open_fills == 1 && after.open_at
                == fill.timestamp && after.open_cash == Some(r.cash)
            &&& !was_flat && enlarges ==> after.open_notional == r.open_notional + fill.price * fill.size
            &&& !was_flat && !enlarges ==> after.open_notional == r.open_notional
            &&& !was_flat && r.open_fills < u32::MAX ==> after.open_fills == r.open_fills + 1
            &&& !was_flat ==> after.open_at == r.open_at && after.open_cash == r.open_cash
        }),
{
}

/// A trip that is over tells of what was put in: what was traded to open and enlarge the position, the
/// fill that ended it not among it unless it opened the position itself.
pub proof fn a_trip_tells_what_was_put_in(r: RecordModel, fill: Fill)
    requires
        trip_ended(r, fill) is Some,
        !flat(r.position as int),
        ({
            let coins = if fill.side is Long { fill.size as int } else { -fill.size };
            coins <= i128::MAX && i128::MIN <= r.position + coins <= i128::MAX
        }),
    ensures
        trip_ended(r, fill)->0.open_notional == r.open_notional,
        trip_ended(r, fill)->0.symbol == r.symbol,
        trip_ended(r, fill)->0.opened_at == r.open_at,
        trip_ended(r, fill)->0.closed_at == fill.timestamp,
        r.open_fills < u32::MAX ==> trip_ended(r, fill)->0.fills == r.open_fills + 1,
{
}

} // verus!
