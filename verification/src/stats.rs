//! Running totals of an account's trading.

use vstd::prelude::*;
use crate::amount;
use crate::amount::{minus, plus, times};
use crate::domain;
use crate::domain::{Fill, FillReason, Money, OrderStatus, OrderUpdate, Price, Quantity, Side};

verus! {

/// How many fills totals keep in full, unless told otherwise.
pub const DEFAULT_RECENT_FILLS: usize = 20;

/// What a quantity is worth at a price.
pub open spec fn worth(quantity: Quantity, price: Price) -> int {
    amount::clamp(price * quantity)
}

/// What a fill does to the cash: buying costs, selling pays, and the fee is paid either way.
pub open spec fn cash_flow(fill: Fill) -> int {
    amount::clamp(
        (match fill.side {
            Side::Long => amount::clamp(-worth(fill.size, fill.price)),
            Side::Short => worth(fill.size, fill.price),
        }) - fill.fee,
    )
}

/// What a quantity is worth at a price.
pub fn worth_of(quantity: Quantity, price: Price) -> (m: Money)
    ensures
        m == worth(quantity, price),
{
    times(price, quantity)
}

/// What a fill does to the cash.
pub fn cash_flow_of(fill: &Fill) -> (m: Money)
    ensures
        m == cash_flow(*fill),
{
    let notional = worth_of(fill.size, fill.price);
    let gross = match fill.side {
        Side::Long => minus(0, notional),
        Side::Short => notional,
    };
    minus(gross, fill.fee)
}

/// At the price of a fill, what changes hands is worth what is paid for it: the account is poorer
/// by the fee, and by nothing else.
pub proof fn a_fill_costs_its_fee(fill: Fill)
    requires
        amount::fits(fill.price * fill.size),
        amount::fits(-(fill.price * fill.size)),
        amount::fits(-(fill.price * fill.size) - fill.fee),
        amount::fits(fill.price * fill.size - fill.fee),
        amount::fits(-fill.size as int),
    ensures
        cash_flow(fill) + worth(domain::signed_size(fill.side, fill.size) as Quantity, fill.price) == -fill.fee,
{
    assert(fill.price * (-fill.size) == -(fill.price * fill.size)) by (nonlinear_arith);
}

/// Totals, and the last fills in full.
#[verifier::ext_equal]
pub struct StatsModel {
    pub fills: u64,
    /// Fills that the venue forced.
    pub forced_fills: u64,
    pub rejected_orders: u64,
    pub volume: Money,
    pub fee: Money,
    pub cash: Money,
    /// Oldest first.
    pub recent_fills: Seq<Fill>,
    pub recent_capacity: usize,
}

/// Nothing has been traded.
pub open spec fn no_trades(recent_capacity: usize) -> StatsModel {
    StatsModel {
        fills: 0,
        forced_fills: 0,
        rejected_orders: 0,
        volume: 0,
        fee: 0,
        cash: 0,
        recent_fills: Seq::empty(),
        recent_capacity,
    }
}

/// One more, as far as a `u64` counts.
pub open spec fn one_more(n: u64) -> u64 {
    if n < u64::MAX {
        (n + 1) as u64
    } else {
        n
    }
}

/// The list with one more at its end, without its first if it was full.
pub open spec fn kept<T>(list: Seq<T>, capacity: usize, new: T) -> Seq<T> {
    if capacity == 0 {
        list
    } else if list.len() >= capacity {
        list.remove(0).push(new)
    } else {
        list.push(new)
    }
}

/// The totals after a fill.
pub open spec fn with_fill(s: StatsModel, fill: Fill) -> StatsModel {
    StatsModel {
        fills: one_more(s.fills),
        forced_fills: if fill.reason is Normal {
            s.forced_fills
        } else {
            one_more(s.forced_fills)
        },
        volume: amount::clamp(s.volume + worth(fill.size, fill.price)) as Money,
        fee: amount::clamp(s.fee + fill.fee) as Money,
        cash: amount::clamp(s.cash + cash_flow(fill)) as Money,
        recent_fills: kept(s.recent_fills, s.recent_capacity, fill),
        ..s
    }
}

/// The last fills that are kept are never more than there is room for, and the newest is among them
/// if there is room at all.
pub proof fn the_latest_fills_are_kept(s: StatsModel, fill: Fill)
    requires
        s.recent_fills.len() <= s.recent_capacity,
    ensures
        with_fill(s, fill).recent_fills.len() <= s.recent_capacity,
        s.recent_capacity > 0 ==> with_fill(s, fill).recent_fills.len() > 0 && with_fill(s, fill).recent_fills.last()
            == fill,
{
}

/// The totals after a report on an order.
pub open spec fn with_update(s: StatsModel, update: OrderUpdate) -> StatsModel {
    if update.status is Rejected || update.status is Error {
        StatsModel { rejected_orders: one_more(s.rejected_orders), ..s }
    } else {
        s
    }
}

/// Totals of an account's trading.
#[derive(Debug)]
pub struct TradingStats {
    pub fills: u64,
    pub forced_fills: u64,
    pub rejected_orders: u64,
    pub volume: Money,
    pub fee: Money,
    pub cash: Money,
    pub recent_fills: Vec<Fill>,
    pub recent_capacity: usize,
}

impl View for TradingStats {
    type V = StatsModel;

    open spec fn view(&self) -> StatsModel {
        StatsModel {
            fills: self.fills,
            forced_fills: self.forced_fills,
            rejected_orders: self.rejected_orders,
            volume: self.volume,
            fee: self.fee,
            cash: self.cash,
            recent_fills: self.recent_fills@,
            recent_capacity: self.recent_capacity,
        }
    }
}

impl Default for TradingStats {
    fn default() -> (s: Self)
        ensures
            s@ == no_trades(DEFAULT_RECENT_FILLS),
    {
        TradingStats::with_recent_capacity(DEFAULT_RECENT_FILLS)
    }
}

impl TradingStats {
    /// Totals that keep so many fills in full.
    pub fn with_recent_capacity(recent_capacity: usize) -> (s: Self)
        ensures
            s@ == no_trades(recent_capacity),
    {
        TradingStats {
            fills: 0,
            forced_fills: 0,
            rejected_orders: 0,
            volume: 0,
            fee: 0,
            cash: 0,
            recent_fills: Vec::new(),
            recent_capacity,
        }
    }

    /// Takes in a fill.
    pub fn apply_fill(&mut self, fill: &Fill)
        ensures
            final(self)@ == with_fill(old(self)@, *fill),
    {
        self.fills = self.fills.saturating_add(1);
        match fill.reason {
            FillReason::Normal => {},
            _ => {
                self.forced_fills = self.forced_fills.saturating_add(1);
            },
        }
        self.volume = plus(self.volume, worth_of(fill.size, fill.price));
        self.fee = plus(self.fee, fill.fee);
        self.cash = plus(self.cash, cash_flow_of(fill));
        if self.recent_capacity > 0 {
            if self.recent_fills.len() >= self.recent_capacity {
                self.recent_fills.remove(0);
            }
            self.recent_fills.push(fill.clone());
        }
    }

    /// Takes in a report on an order.
    pub fn apply_order_update(&mut self, update: &OrderUpdate)
        ensures
            final(self)@ == with_update(old(self)@, *update),
    {
        let refused = match &update.status {
            OrderStatus::Rejected { .. } => true,
            OrderStatus::Error { .. } => true,
            _ => false,
        };
        if refused {
            self.rejected_orders = self.rejected_orders.saturating_add(1);
        }
    }

    /// The profit, if what is held is worth this much more than what was held at the start.
    pub fn total_pnl(&self, inventory_change: Money) -> (m: Money)
        ensures
            m == amount::clamp(self.cash + inventory_change),
    {
        plus(self.cash, inventory_change)
    }
}

/// A fill is counted once, adds what was traded to the volume and its fee to the fees, and moves the
/// cash by what was paid or received and by the fee, as far as counters and amounts go.
pub proof fn a_fill_is_taken_down(s: StatsModel, fill: Fill)
    requires
        i128::MIN < fill.price * fill.size <= i128::MAX,
    ensures
        ({
            let after = with_fill(s, fill);
            let paid = fill.price * fill.size;
            let flow = if fill.side is Long { -paid - fill.fee } else { paid - fill.fee };
            &&& s.fills < u64::MAX ==> after.fills == s.fills + 1
            &&& fill.reason is Normal ==> after.forced_fills == s.forced_fills
            &&& !(fill.reason is Normal) && s.forced_fills < u64::MAX ==> after.forced_fills == s.forced_fills + 1
            &&& i128::MIN <= s.volume + paid <= i128::MAX ==> after.volume == s.volume + paid
            &&& i128::MIN <= s.fee + fill.fee <= i128::MAX ==> after.fee == s.fee + fill.fee
            &&& i128::MIN <= flow <= i128::MAX && i128::MIN <= s.cash + flow <= i128::MAX ==> after.cash == s.cash + flow
            &&& after.rejected_orders == s.rejected_orders
            &&& after.recent_capacity == s.recent_capacity
        }),
{
}

/// A report counts as a refusal exactly when the venue refused the order or it failed; it moves
/// nothing else.
pub proof fn refusals_are_counted(s: StatsModel, update: OrderUpdate)
    ensures
        ({
            let after = with_update(s, update);
            let refused = update.status is Rejected || update.status is Error;
            &&& refused && s.rejected_orders < u64::MAX ==> after.rejected_orders == s.rejected_orders + 1
            &&& !refused ==> after.rejected_orders == s.rejected_orders
            &&& after.fills == s.fills
            &&& after.forced_fills == s.forced_fills
            &&& after.volume == s.volume
            &&& after.fee == s.fee
            &&& after.cash == s.cash
            &&& after.recent_fills == s.recent_fills
            &&& after.recent_capacity == s.recent_capacity
        }),
{
}

/// The fills kept are the latest ones, oldest first: a new one comes last, those before it keep their
/// order, and only the oldest leaves, and only where there is no more room.
pub proof fn the_oldest_fill_leaves_first(s: StatsModel, fill: Fill, i: int)
    requires
        s.recent_capacity > 0,
        s.recent_fills.len() <= s.recent_capacity,
        0 <= i < s.recent_fills.len(),
    ensures
        ({
            let n = s.recent_fills.len() as int;
            let after = with_fill(s, fill).recent_fills;
            &&& n < s.recent_capacity ==> after.len() == n + 1 && after[i] == s.recent_fills[i] && after[n] == fill
            &&& n == s.recent_capacity ==> after.len() == n && (i > 0 ==> after[i - 1] == s.recent_fills[i]) && after[n - 1]
                == fill
        }),
{
}

/// Where no fills are to be kept none are.
pub proof fn nothing_is_kept_where_there_is_no_room(s: StatsModel, fill: Fill)
    requires
        s.recent_capacity == 0,
    ensures
        with_fill(s, fill).recent_fills == s.recent_fills,
{
}

} // verus!
