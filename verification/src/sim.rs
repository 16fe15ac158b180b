//! A simulated venue for one account: its book of our orders, its cash and its positions.
//!
//! Only trades between others fill a waiting order, and only those that went through its price: a
//! quote that touches the price says that those ahead in the queue are trading, no more.

use vstd::prelude::*;
use vstd::string::StringExecFns;
use crate::amount;
use crate::amount::{divide_down, minus, plus, size_of, times};
use crate::domain;
use crate::domain::{signed, Exchange, Fill, FillReason, Money, Order, OrderStatus, OrderType};
use crate::domain::{OrderUpdate, Price, Quantity, Side, Symbol, SymbolMeta, SymbolMetas};
use crate::domain::{TimeInForce, Timestamp};
use crate::event;
use crate::event::{AccountData, MarketTrade, BBO};
use crate::live::outcome_processor;
use crate::live::outcome_processor::ExchangeOrder;
use crate::stats;
use crate::stats::{cash_flow_of, worth_of};
use crate::table;
use crate::table::Table;

verus! {

/// Fee rates are counted in units of 10^-8.
pub const RATE_UNIT: i128 = 100_000_000;

/// How a simulated venue works.
#[derive(Clone, Copy, Debug, PartialEq, Eq, Structural)]
pub struct SimConfig {
    /// What each account starts with.
    pub initial_balance_usdt: Money,
    pub maker_fee_rate: i128,
    pub taker_fee_rate: i128,
    /// How long an order travels to the venue.
    pub order_to_exchange_delay_ms: u64,
    /// How long a report travels back. Real market data has already travelled.
    pub exchange_to_strategy_delay_ms: u64,
}

/// An order that waits in the book.
pub struct Resting {
    pub order: Order,
    pub order_id: String,
    /// What of it has not been filled.
    pub left: Quantity,
}

impl Clone for Resting {
    fn clone(&self) -> (r: Self)
        ensures
            r == *self,
    {
        Resting { order: self.order.clone(), order_id: self.order_id.clone(), left: self.left }
    }
}

/// A simulated venue.
#[verifier::ext_equal]
pub struct SimModel {
    pub exchange: Exchange,
    pub maker_fee_rate: i128,
    pub taker_fee_rate: i128,
    pub metas: Map<(Exchange, Seq<char>), SymbolMeta>,
    pub cash: Money,
    pub positions: Map<Seq<char>, Quantity>,
    pub quotes: Map<Seq<char>, BBO>,
    pub marks: Map<Seq<char>, Price>,
    /// Oldest first.
    pub book: Seq<Resting>,
}

/// What is held of an instrument.
pub open spec fn holding(m: SimModel, symbol: Seq<char>) -> int {
    if m.positions.dom().contains(symbol) {
        m.positions[symbol] as int
    } else {
        0
    }
}

/// The fee on a fill.
pub open spec fn fee(price: Price, size: Quantity, rate: i128) -> int {
    amount::divided_down(amount::clamp(stats::worth(size, price) * rate), RATE_UNIT as int)
}

/// A fill of an order.
pub open spec fn fill_of(order: Order, order_id: String, price: Price, size: Quantity, rate: i128, at: Timestamp) -> Fill {
    Fill {
        exchange: order.exchange,
        symbol: order.symbol,
        side: order.side,
        price,
        size,
        client_order_id: Some(order.client_order_id),
        order_id,
        timestamp: at,
        fee: fee(price, size, rate) as Money,
        reason: FillReason::Normal,
    }
}

/// A report on an order.
pub open spec fn report_of(order: Order, order_id: String, status: OrderStatus) -> OrderUpdate {
    OrderUpdate {
        order_id,
        client_order_id: Some(order.client_order_id),
        exchange: order.exchange,
        symbol: order.symbol,
        side: order.side,
        status,
        quantity: order.quantity,
    }
}

/// The venue's books after a fill.
pub open spec fn booked(m: SimModel, fill: Fill) -> SimModel {
    SimModel {
        cash: amount::clamp(m.cash + stats::cash_flow(fill)) as Money,
        positions: m.positions.insert(
            fill.symbol@,
            amount::clamp(holding(m, fill.symbol@) + domain::signed_size(fill.side, fill.size)) as Quantity,
        ),
        ..m
    }
}

/// How much of a quantity an order may trade: one that may only reduce a position, no more than
/// there is of it.
pub open spec fn room(m: SimModel, order: Order, quantity: int) -> int {
    if !order.reduce_only {
        quantity
    } else {
        let held = holding(m, order.symbol@);
        let against = match order.side {
            Side::Long => amount::clamp(-held),
            Side::Short => held,
        };
        if against <= 0 {
            0
        } else if against < quantity {
            against
        } else {
            quantity
        }
    }
}

/// The price at which an order would trade at once, if it would.
pub open spec fn touch(m: SimModel, order: Order) -> Option<Price> {
    if !m.quotes.dom().contains(order.symbol@) {
        None
    } else {
        let quote = m.quotes[order.symbol@];
        match (order.side, order.order_type) {
            (Side::Long, OrderType::Market) => Some(quote.ask_price),
            (Side::Short, OrderType::Market) => Some(quote.bid_price),
            (Side::Long, OrderType::Limit { price, .. }) => if price >= quote.ask_price {
                Some(quote.ask_price)
            } else {
                None
            },
            (Side::Short, OrderType::Limit { price, .. }) => if price <= quote.bid_price {
                Some(quote.bid_price)
            } else {
                None
            },
        }
    }
}

/// The order for what the venue can trade of it.
pub open spec fn cut(order: Order, meta: SymbolMeta) -> Order {
    Order {
        quantity: amount::clamp(
            outcome_processor::lots_for(order.quantity as int, meta) * meta.contract_size,
        ) as Quantity,
        ..order
    }
}

/// Whether the reports are these: what is refused, with a reason.
pub open spec fn is_refusal(reports: Seq<AccountData>, order: Order, order_id: String, reason: Seq<char>) -> bool {
    &&& reports.len() == 1
    &&& reports[0] matches AccountData::OrderUpdate(u)
    &&& u.status matches OrderStatus::Rejected { reason: r }
    &&& r@ == reason
    &&& u == report_of(order, order_id, u.status)
}

/// Why an order is refused when it arrives, if it is: the venue would not take it, it must not
/// trade at once but would, it could only reduce a position that is gone, or it takes any price and
/// there is none.
pub open spec fn refused(m: SimModel, order: Order) -> Option<Seq<char>> {
    let key = (order.exchange, order.symbol@);
    if !m.metas.dom().contains(key) {
        Some("No SymbolMeta for "@ + domain::exchange_name(order.exchange) + "/"@ + order.symbol@)
    } else if outcome_processor::unfit(order, m.metas[key]) is Some {
        outcome_processor::unfit(order, m.metas[key])
    } else {
        let o = cut(order, m.metas[key]);
        if room(m, o, o.quantity as int) <= 0 {
            Some("reduce-only order has no position to reduce"@)
        } else if touch(m, o) is Some {
            match o.order_type {
                OrderType::Limit { tif: TimeInForce::PostOnly, .. } => Some("post-only order would take liquidity"@),
                _ => None,
            }
        } else {
            match o.order_type {
                OrderType::Market => Some("no quote to trade against"@),
                _ => None,
            }
        }
    }
}

/// What the arrival of an order that is not refused does: it trades at once against the quote,
/// waits in the book, or is given up.
pub open spec fn arrived(m: SimModel, now: Timestamp, order: Order, order_id: String) -> (SimModel, Seq<AccountData>) {
    let o = cut(order, m.metas[(order.exchange, order.symbol@)]);
    match touch(m, o) {
        Some(price) => {
            let size = room(m, o, o.quantity as int) as Quantity;
            let fill = fill_of(o, order_id, price, size, m.taker_fee_rate, now);
            (
                booked(m, fill),
                seq![AccountData::Fill(fill), AccountData::OrderUpdate(report_of(o, order_id, OrderStatus::Filled))],
            )
        },
        None => match o.order_type {
            OrderType::Limit { tif: TimeInForce::IOC, .. } => (
                m,
                seq![AccountData::OrderUpdate(report_of(o, order_id, OrderStatus::Cancelled))],
            ),
            _ => (
                SimModel { book: m.book.push(Resting { order: o, order_id, left: o.quantity }), ..m },
                seq![AccountData::OrderUpdate(report_of(o, order_id, OrderStatus::Pending))],
            ),
        },
    }
}

/// Whether a trade went through an order's price.
pub open spec fn crosses(order: Order, price: Price) -> bool {
    match (order.side, order.order_type) {
        (Side::Long, OrderType::Limit { price: limit, .. }) => price < limit,
        (Side::Short, OrderType::Limit { price: limit, .. }) => price > limit,
        (_, OrderType::Market) => false,
    }
}

/// The order's price.
pub open spec fn limit_of(order: Order) -> Price {
    match order.order_type {
        OrderType::Limit { price, .. } => price,
        OrderType::Market => 0,
    }
}

/// How far a trade has gone through the book.
#[verifier::ext_equal]
pub struct Pass {
    /// The venue; its book holds the orders that were passed and still wait.
    pub model: SimModel,
    /// What of the trade is left.
    pub budget: int,
    pub reports: Seq<AccountData>,
}

/// How much of a waiting order a trade fills.
pub open spec fn taken(p: Pass, r: Resting, trade: MarketTrade) -> int {
    if r.order.symbol@ != trade.symbol@ || !crosses(r.order, trade.price) {
        0
    } else {
        let q = room(p.model, r.order, r.left as int);
        if q < p.budget {
            q
        } else {
            p.budget
        }
    }
}

/// What has become of an order of which this much is left.
pub open spec fn progress(left: int) -> OrderStatus {
    if left <= 0 {
        OrderStatus::Filled
    } else {
        OrderStatus::PartiallyFilled
    }
}

/// A trade meets one waiting order: it fills it at the order's price, as far as the trade goes.
pub open spec fn tried(p: Pass, r: Resting, trade: MarketTrade, at: Timestamp) -> Pass {
    let q = taken(p, r, trade);
    if q <= 0 {
        Pass { model: SimModel { book: p.model.book.push(r), ..p.model }, ..p }
    } else {
        let fill = fill_of(r.order, r.order_id, limit_of(r.order), q as Quantity, p.model.maker_fee_rate, at);
        let left = r.left - q;
        let after = booked(p.model, fill);
        Pass {
            model: if left > 0 {
                SimModel { book: after.book.push(Resting { left: left as Quantity, ..r }), ..after }
            } else {
                after
            },
            budget: p.budget - q,
            reports: p.reports.push(AccountData::Fill(fill)).push(
                AccountData::OrderUpdate(report_of(r.order, r.order_id, progress(left))),
            ),
        }
    }
}

/// A trade goes through a book, oldest order first.
pub open spec fn matched(m: SimModel, book: Seq<Resting>, trade: MarketTrade, at: Timestamp) -> Pass
    decreases book.len(),
{
    if book.len() == 0 {
        Pass { model: SimModel { book: Seq::empty(), ..m }, budget: trade.qty as int, reports: Seq::empty() }
    } else {
        tried(matched(m, book.drop_last(), trade, at), book.last(), trade, at)
    }
}

/// Where an order waits, if it does.
pub open spec fn waits_at(book: Seq<Resting>, i: int, order_id: Seq<char>) -> bool {
    &&& 0 <= i < book.len()
    &&& book[i].order_id@ == order_id
    &&& forall|j: int| 0 <= j < i ==> (#[trigger] book[j]).order_id@ != order_id
}

/// Whether an order waits.
pub open spec fn waits(book: Seq<Resting>, order_id: Seq<char>) -> bool {
    exists|i: int| 0 <= i < book.len() && (#[trigger] book[i]).order_id@ == order_id
}

/// What a position is worth: at the venue's mark, else at the middle of the quote.
pub open spec fn marked(m: SimModel, symbol: Seq<char>, size: Quantity) -> Option<int> {
    if m.marks.dom().contains(symbol) {
        Some(stats::worth(size, m.marks[symbol]))
    } else if m.quotes.dom().contains(symbol) {
        Some(event::worth_at_mid(m.quotes[symbol], size as int))
    } else {
        None
    }
}

/// What positions are worth; one that has no price counts for nothing.
pub open spec fn valued(m: SimModel, list: Seq<(Symbol, Quantity)>) -> int
    decreases list.len(),
{
    if list.len() == 0 {
        0
    } else {
        let (symbol, size) = list.last();
        let rest = valued(m, list.drop_last());
        match marked(m, symbol@, size) {
            Some(worth) => amount::clamp(rest + worth),
            None => rest,
        }
    }
}

/// What positions are worth, whichever way they go.
pub open spec fn exposure(m: SimModel, list: Seq<(Symbol, Quantity)>) -> int
    decreases list.len(),
{
    if list.len() == 0 {
        0
    } else {
        let (symbol, size) = list.last();
        let rest = exposure(m, list.drop_last());
        match marked(m, symbol@, size) {
            Some(worth) => amount::clamp(rest + amount::clamp(amount::abs(worth))),
            None => rest,
        }
    }
}

/// A simulated venue for one account.
pub struct SimState {
    exchange: Exchange,
    maker_fee_rate: i128,
    taker_fee_rate: i128,
    symbol_metas: SymbolMetas,
    cash: Money,
    positions: Table<Symbol, Quantity>,
    quotes: Table<Symbol, BBO>,
    marks: Table<Symbol, Price>,
    book: Vec<Resting>,
}

impl View for SimState {
    type V = SimModel;

    closed spec fn view(&self) -> SimModel {
        SimModel {
            exchange: self.exchange,
            maker_fee_rate: self.maker_fee_rate,
            taker_fee_rate: self.taker_fee_rate,
            metas: self.symbol_metas@,
            cash: self.cash,
            positions: self.positions@,
            quotes: self.quotes@,
            marks: self.marks@,
            book: self.book@,
        }
    }
}

fn make_fill(order: &Order, order_id: &String, price: Price, size: Quantity, rate: i128, at: Timestamp) -> (f: Fill)
    ensures
        f == fill_of(*order, *order_id, price, size, rate, at),
{
    Fill {
        exchange: order.exchange,
        symbol: order.symbol.clone(),
        side: order.side,
        price,
        size,
        client_order_id: Some(order.client_order_id.clone()),
        order_id: order_id.clone(),
        timestamp: at,
        fee: divide_down(times(worth_of(size, price), rate), RATE_UNIT),
        reason: FillReason::Normal,
    }
}

fn make_report(order: &Order, order_id: &String, status: OrderStatus) -> (u: OrderUpdate)
    ensures
        u == report_of(*order, *order_id, status),
{
    OrderUpdate {
        order_id: order_id.clone(),
        client_order_id: Some(order.client_order_id.clone()),
        exchange: order.exchange,
        symbol: order.symbol.clone(),
        side: order.side,
        status,
        quantity: order.quantity,
    }
}

impl SimState {
    /// The positions, in the order in which they were first taken.
    pub closed spec fn holding_list(&self) -> Seq<(Symbol, Quantity)> {
        self.positions.entries()
    }

    /// A venue on which nothing has happened.
    pub fn empty(
        exchange: Exchange,
        initial_balance: Money,
        maker_fee_rate: i128,
        taker_fee_rate: i128,
        symbol_metas: SymbolMetas,
    ) -> (s: Self)
        ensures
            s@ == (SimModel {
                exchange,
                maker_fee_rate,
                taker_fee_rate,
                metas: symbol_metas@,
                cash: initial_balance,
                positions: Map::empty(),
                quotes: Map::empty(),
                marks: Map::empty(),
                book: Seq::empty(),
            }),
            s.holding_list().len() == 0,
    {
        let s = SimState {
            exchange,
            maker_fee_rate,
            taker_fee_rate,
            symbol_metas,
            cash: initial_balance,
            positions: Table::new(),
            quotes: Table::new(),
            marks: Table::new(),
            book: Vec::new(),
        };
        assert(s@.book =~= Seq::<Resting>::empty());
        s
    }

    /// The venue.
    pub fn exchange(&self) -> (e: Exchange)
        ensures
            e == self@.exchange,
    {
        self.exchange
    }

    /// Takes a quote down. It fills nothing.
    pub fn observe_bbo(&mut self, bbo: &BBO)
        ensures
            final(self)@ == (SimModel { quotes: old(self)@.quotes.insert(bbo.symbol@, *bbo), ..old(self)@ }),
            final(self).holding_list() == old(self).holding_list(),
    {
        self.quotes.insert(bbo.symbol.clone(), bbo.clone());
    }

    /// Takes a mark down. It fills nothing.
    pub fn observe_mark(&mut self, symbol: &Symbol, price: Price)
        ensures
            final(self)@ == (SimModel { marks: old(self)@.marks.insert(symbol@, price), ..old(self)@ }),
            final(self).holding_list() == old(self).holding_list(),
    {
        self.marks.insert(symbol.clone(), price);
    }

    fn held(&self, symbol: &Symbol) -> (q: Quantity)
        ensures
            q == holding(self@, symbol@),
    {
        match self.positions.get(symbol) {
            Some(q) => *q,
            None => 0,
        }
    }

    fn room_for(&self, order: &Order, quantity: Quantity) -> (q: Quantity)
        ensures
            q == room(self@, *order, quantity as int),
    {
        if !order.reduce_only {
            return quantity;
        }
        let held = self.held(&order.symbol);
        let against = match order.side {
            Side::Long => minus(0, held),
            Side::Short => held,
        };
        if against <= 0 {
            0
        } else if against < quantity {
            against
        } else {
            quantity
        }
    }

    fn touched(&self, order: &Order) -> (p: Option<Price>)
        ensures
            p == touch(self@, *order),
    {
        match self.quotes.get(&order.symbol) {
            None => None,
            Some(quote) => match (order.side, order.order_type) {
                (Side::Long, OrderType::Market) => Some(quote.ask_price),
                (Side::Short, OrderType::Market) => Some(quote.bid_price),
                (Side::Long, OrderType::Limit { price, .. }) => if price >= quote.ask_price {
                    Some(quote.ask_price)
                } else {
                    None
                },
                (Side::Short, OrderType::Limit { price, .. }) => if price <= quote.bid_price {
                    Some(quote.bid_price)
                } else {
                    None
                },
            },
        }
    }

    fn book_fill(&mut self, fill: &Fill)
        ensures
            final(self)@ == booked(old(self)@, *fill),
    {
        self.cash = plus(self.cash, cash_flow_of(fill));
        let held = self.held(&fill.symbol);
        self.positions.insert(fill.symbol.clone(), plus(held, signed(fill.side, fill.size)));
    }

    /// Whether an arriving order is refused, and if not, what can be traded of it.
    fn consider(&self, order: &Order) -> (res: Result<Order, String>)
        ensures
            match res {
                Ok(o) => refused(self@, *order) is None && o == cut(
                    *order,
                    self@.metas[(order.exchange, order.symbol@)],
                ),
                Err(s) => refused(self@, *order) == Some(s@),
            },
    {
        let meta = match self.symbol_metas.get(&(order.exchange, order.symbol.clone())) {
            None => {
                let mut s = "No SymbolMeta for ".to_owned();
                s.append(order.exchange.name());
                s.append("/");
                s.append(order.symbol.as_str());
                return Err(s);
            },
            Some(meta) => meta,
        };
        let lots = match ExchangeOrder::from_domain(order, meta) {
            Err(s) => {
                return Err(s);
            },
            Ok(wire) => wire.lots,
        };
        let mut o = order.clone();
        o.quantity = times(lots, meta.contract_size);
        if self.room_for(&o, o.quantity) <= 0 {
            return Err("reduce-only order has no position to reduce".to_owned());
        }
        if self.touched(&o).is_some() {
            match o.order_type {
                OrderType::Limit { tif: TimeInForce::PostOnly, .. } => {
                    return Err("post-only order would take liquidity".to_owned());
                },
                _ => {},
            }
        } else {
            match o.order_type {
                OrderType::Market => {
                    return Err("no quote to trade against".to_owned());
                },
                _ => {},
            }
        }
        Ok(o)
    }

    /// An order arrives at the venue: whether it trades at once is judged by the quote of this
    /// moment.
    pub fn on_order_arrived(&mut self, now: Timestamp, order: &Order, order_id: &String) -> (reports: Vec<AccountData>)
        ensures
            match refused(old(self)@, *order) {
                Some(reason) => final(self)@ == old(self)@ && is_refusal(reports@, *order, *order_id, reason),
                None => (final(self)@, reports@) == arrived(old(self)@, now, *order, *order_id),
            },
    {
        let mut reports: Vec<AccountData> = Vec::new();
        let o = match self.consider(order) {
            Err(reason) => {
                reports.push(AccountData::OrderUpdate(make_report(order, order_id, OrderStatus::Rejected { reason })));
                return reports;
            },
            Ok(o) => o,
        };
        match self.touched(&o) {
            Some(price) => {
                let size = self.room_for(&o, o.quantity);
                let fill = make_fill(&o, order_id, price, size, self.taker_fee_rate, now);
                self.book_fill(&fill);
                reports.push(AccountData::Fill(fill));
                reports.push(AccountData::OrderUpdate(make_report(&o, order_id, OrderStatus::Filled)));
            },
            None => {
                let ioc = match o.order_type {
                    OrderType::Limit { tif: TimeInForce::IOC, .. } => true,
                    _ => false,
                };
                if ioc {
                    reports.push(AccountData::OrderUpdate(make_report(&o, order_id, OrderStatus::Cancelled)));
                } else {
                    reports.push(AccountData::OrderUpdate(make_report(&o, order_id, OrderStatus::Pending)));
                    let left = o.quantity;
                    self.book.push(Resting { order: o, order_id: order_id.clone(), left });
                }
            },
        }
        assert(reports@ =~= arrived(old(self)@, now, *order, *order_id).1);
        assert(self@ =~= arrived(old(self)@, now, *order, *order_id).0);
        reports
    }

    fn crossed(order: &Order, price: Price) -> (b: bool)
        ensures
            b == crosses(*order, price),
    {
        match (order.side, order.order_type) {
            (Side::Long, OrderType::Limit { price: limit, .. }) => price < limit,
            (Side::Short, OrderType::Limit { price: limit, .. }) => price > limit,
            (_, OrderType::Market) => false,
        }
    }

    fn try_one(&mut self, r: &Resting, trade: &MarketTrade, at: Timestamp, budget: Quantity, reports: &mut Vec<AccountData>) -> (left: Quantity)
        ensures
            (Pass { model: final(self)@, budget: left as int, reports: final(reports)@ }) == tried(
                Pass { model: old(self)@, budget: budget as int, reports: old(reports)@ },
                *r,
                *trade,
                at,
            ),
    {
        let ghost p = Pass { model: self@, budget: budget as int, reports: reports@ };
        let mut q: Quantity = 0;
        if r.order.symbol == trade.symbol && Self::crossed(&r.order, trade.price) {
            let most = self.room_for(&r.order, r.left);
            q = if most < budget {
                most
            } else {
                budget
            };
        }
        assert(q == taken(p, *r, *trade));
        if q <= 0 {
            self.book.push(r.clone());
            assert(self@ =~= tried(p, *r, *trade, at).model);
            return budget;
        }
        let limit = match r.order.order_type {
            OrderType::Limit { price, .. } => price,
            OrderType::Market => 0,
        };
        let fill = make_fill(&r.order, &r.order_id, limit, q, self.maker_fee_rate, at);
        self.book_fill(&fill);
        reports.push(AccountData::Fill(fill));
        let left = r.left - q;
        if left > 0 {
            reports.push(
                AccountData::OrderUpdate(
                    make_report(&r.order, &r.order_id, OrderStatus::PartiallyFilled),
                ),
            );
            self.book.push(Resting { order: r.order.clone(), order_id: r.order_id.clone(), left });
        } else {
            reports.push(AccountData::OrderUpdate(make_report(&r.order, &r.order_id, OrderStatus::Filled)));
        }
        assert(self@ =~= tried(p, *r, *trade, at).model);
        assert(reports@ =~= tried(p, *r, *trade, at).reports);
        budget - q
    }

    /// A trade between others: it fills the waiting orders whose price it went through, oldest
    /// first, and no more of them than was traded.
    pub fn on_trade(&mut self, trade: &MarketTrade, at: Timestamp) -> (reports: Vec<AccountData>)
        ensures
            final(self)@ == matched(old(self)@, old(self)@.book, *trade, at).model,
            reports@ == matched(old(self)@, old(self)@.book, *trade, at).reports,
    {
        let ghost m = self@;
        let mut book: Vec<Resting> = Vec::new();
        std::mem::swap(&mut book, &mut self.book);
        let mut reports: Vec<AccountData> = Vec::new();
        let mut budget = trade.qty;
        let mut i: usize = 0;
        assert(book@.take(0) =~= Seq::<Resting>::empty());
        assert((Pass { model: self@, budget: budget as int, reports: reports@ }) =~= matched(m, book@.take(0), *trade, at));
        while i < book.len()
            invariant
                i <= book.len(),
                (Pass { model: self@, budget: budget as int, reports: reports@ }) == matched(m, book@.take(i as int), *trade, at),
            decreases book.len() - i,
        {
            assert(book@.take(i + 1).drop_last() =~= book@.take(i as int));
            budget = self.try_one(&book[i], trade, at, budget, &mut reports);
            i = i + 1;
        }
        assert(book@.take(i as int) =~= book@);
        assert(book@ == m.book);
        reports
    }

    /// A cancellation arrives at the venue: the order leaves the book, if it is still there.
    pub fn on_cancel_arrived(&mut self, order_id: &String) -> (reports: Vec<AccountData>)
        ensures
            !waits(old(self)@.book, order_id@) ==> final(self)@ == old(self)@ && reports@.len() == 0,
            forall|i: int| #[trigger]
                waits_at(old(self)@.book, i, order_id@) ==> {
                    let r = old(self)@.book[i];
                    &&& final(self)@ == (SimModel { book: old(self)@.book.remove(i), ..old(self)@ })
                    &&& reports@ == seq![
                        AccountData::OrderUpdate(report_of(r.order, r.order_id, OrderStatus::Cancelled)),
                    ]
                },
            final(self).holding_list() == old(self).holding_list(),
    {
        let mut reports: Vec<AccountData> = Vec::new();
        let mut i: usize = 0;
        while i < self.book.len()
            invariant
                i <= self.book.len(),
                self@ == old(self)@,
                self.holding_list() == old(self).holding_list(),
                reports@.len() == 0,
                forall|j: int| 0 <= j < i ==> (#[trigger] self@.book[j]).order_id@ != order_id@,
            decreases self.book.len() - i,
        {
            if self.book[i].order_id == *order_id {
                assert(waits_at(self@.book, i as int, order_id@));
                let r = self.book.remove(i);
                reports.push(AccountData::OrderUpdate(make_report(&r.order, &r.order_id, OrderStatus::Cancelled)));
                return reports;
            }
            i = i + 1;
        }
        reports
    }

    fn marked_worth(&self, symbol: &Symbol, size: Quantity) -> (w: Option<Money>)
        ensures
            match w {
                Some(w) => marked(self@, symbol@, size) == Some(w as int),
                None => marked(self@, symbol@, size) is None,
            },
    {
        match self.marks.get(symbol) {
            Some(p) => Some(worth_of(size, *p)),
            None => match self.quotes.get(symbol) {
                Some(q) => Some(q.worth_at_mid(size)),
                None => None,
            },
        }
    }

    /// What the account is worth: its cash and its positions.
    pub fn equity(&self) -> (m: Money)
        ensures
            m == amount::clamp(self@.cash + valued(self@, self.holding_list())),
            worths_fit(self@, self.holding_list()) && amount::adds_up(worths(self@, self.holding_list())) && i128::MIN
                <= self@.cash + amount::total(worths(self@, self.holding_list())) <= i128::MAX ==> m == self@.cash
                + amount::total(worths(self@, self.holding_list())),
            table::lists(self.holding_list(), self@.positions),
    {
        proof {
            use_type_invariant(&self.positions);
        }
        let n = self.positions.len();
        let ghost all = self.positions.entries();
        let mut sum: Money = 0;
        let mut i: usize = 0;
        while i < n
            invariant
                i <= n,
                n == all.len(),
                all == self.positions.entries(),
                sum == valued(self@, all.take(i as int)),
            decreases n - i,
        {
            assert(all.take(i + 1).drop_last() =~= all.take(i as int));
            if let Some(worth) = self.marked_worth(self.positions.key_at(i), *self.positions.value_at(i)) {
                sum = plus(sum, worth);
            }
            i = i + 1;
        }
        assert(all.take(i as int) =~= all);
        proof {
            if worths_fit(self@, all) && amount::adds_up(worths(self@, all)) {
                equity_is_cash_plus_every_position(self@, all);
            }
        }
        plus(self.cash, sum)
    }

    /// What the account's positions are worth, whichever way they go.
    pub fn notional(&self) -> (m: Money)
        ensures
            m == exposure(self@, self.holding_list()),
            worths_fit(self@, self.holding_list()) && amount::total(
                worths(self@, self.holding_list()).map_values(|w: int| amount::abs(w)),
            ) <= i128::MAX ==> m == amount::total(
                worths(self@, self.holding_list()).map_values(|w: int| amount::abs(w)),
            ),
            table::lists(self.holding_list(), self@.positions),
    {
        proof {
            use_type_invariant(&self.positions);
        }
        let n = self.positions.len();
        let ghost all = self.positions.entries();
        let mut sum: Money = 0;
        let mut i: usize = 0;
        while i < n
            invariant
                i <= n,
                n == all.len(),
                all == self.positions.entries(),
                sum == exposure(self@, all.take(i as int)),
            decreases n - i,
        {
            assert(all.take(i + 1).drop_last() =~= all.take(i as int));
            if let Some(worth) = self.marked_worth(self.positions.key_at(i), *self.positions.value_at(i)) {
                sum = plus(sum, size_of(worth));
            }
            i = i + 1;
        }
        assert(all.take(i as int) =~= all);
        proof {
            if worths_fit(self@, all) && amount::total(worths(self@, all).map_values(|w: int| amount::abs(w)))
                <= i128::MAX {
                stakes_are_summed_without_sign(self@, all);
            }
        }
        sum
    }
}

/// How much the fills among some reports come to.
pub open spec fn filled_total(reports: Seq<AccountData>) -> int
    decreases reports.len(),
{
    if reports.len() == 0 {
        0
    } else {
        filled_total(reports.drop_last()) + match reports.last() {
            AccountData::Fill(f) => f.size as int,
            _ => 0,
        }
    }
}

/// A trade fills no more of our orders than was traded, and says how much that was.
pub proof fn fills_are_bounded_by_the_trade(m: SimModel, book: Seq<Resting>, trade: MarketTrade, at: Timestamp)
    requires
        trade.qty >= 0,
    ensures
        matched(m, book, trade, at).budget >= 0,
        filled_total(matched(m, book, trade, at).reports) == trade.qty - matched(m, book, trade, at).budget,
    decreases book.len(),
{
    if book.len() > 0 {
        fills_are_bounded_by_the_trade(m, book.drop_last(), trade, at);
        let p = matched(m, book.drop_last(), trade, at);
        let r = book.last();
        let q = taken(p, r, trade);
        if q > 0 {
            let after = tried(p, r, trade, at);
            let one = after.reports.drop_last();
            assert(one.drop_last() =~= p.reports);
            assert(one.last() is Fill);
            assert(filled_total(one) == filled_total(p.reports) + q);
            assert(filled_total(after.reports) == filled_total(one));
        }
    }
}

/// Whether a report is on one of these orders.
pub open spec fn reports_on(data: AccountData, book: Seq<Resting>) -> bool {
    match data {
        AccountData::Fill(f) => exists|i: int| 0 <= i < book.len() && (#[trigger] book[i]).order_id == f.order_id,
        AccountData::OrderUpdate(u) => exists|i: int| 0 <= i < book.len() && (#[trigger] book[i]).order_id == u.order_id,
        _ => false,
    }
}

/// A trade brings nothing but reports on orders that wait: one that was cancelled or has been
/// filled is never filled again, and market data is never echoed.
pub proof fn only_waiting_orders_are_filled(m: SimModel, book: Seq<Resting>, trade: MarketTrade, at: Timestamp, k: int)
    requires
        0 <= k < matched(m, book, trade, at).reports.len(),
    ensures
        reports_on(matched(m, book, trade, at).reports[k], book),
    decreases book.len(),
{
    if book.len() > 0 {
        let shorter = book.drop_last();
        let p = matched(m, shorter, trade, at);
        let after = matched(m, book, trade, at);
        if k < p.reports.len() {
            only_waiting_orders_are_filled(m, shorter, trade, at, k);
            assert(after.reports[k] == p.reports[k]);
            let id = match p.reports[k] {
                AccountData::Fill(f) => f.order_id,
                AccountData::OrderUpdate(u) => u.order_id,
                _ => arbitrary(),
            };
            let i = choose|i: int| 0 <= i < shorter.len() && (#[trigger] shorter[i]).order_id == id;
            assert(book[i].order_id == id);
        } else {
            assert(book[book.len() - 1].order_id == book.last().order_id);
        }
    }
}

/// Quotes and marks fill nothing: an order that waits is filled only by a trade that went through
/// its price.
pub proof fn a_trade_must_go_through_the_price(p: Pass, r: Resting, trade: MarketTrade, at: Timestamp)
    requires
        !crosses(r.order, trade.price),
    ensures
        tried(p, r, trade, at).reports == p.reports,
        tried(p, r, trade, at).model.book == p.model.book.push(r),
{
}

/// What the positions of an account are worth, one by one: size times mark, or the middle of the
/// quote where there is no mark, and nothing where there is neither. A short position is worth less
/// than nothing.
pub open spec fn worths(m: SimModel, list: Seq<(Symbol, Quantity)>) -> Seq<int> {
    Seq::new(list.len(), |i: int| worth_alone(m, list[i].0@, list[i].1 as int))
}

/// What a position is worth, without a limit.
pub open spec fn worth_alone(m: SimModel, symbol: Seq<char>, size: int) -> int {
    if m.marks.dom().contains(symbol) {
        size * m.marks[symbol]
    } else if m.quotes.dom().contains(symbol) {
        amount::halved(size * (m.quotes[symbol].bid_price + m.quotes[symbol].ask_price))
    } else {
        0
    }
}

/// Whether what each position is worth is within range.
pub open spec fn worths_fit(m: SimModel, list: Seq<(Symbol, Quantity)>) -> bool {
    forall|i: int| 0 <= i < list.len() ==> {
        let quote = m.quotes[(#[trigger] list[i]).0@];
        &&& i128::MIN < worth_alone(m, list[i].0@, list[i].1 as int) <= i128::MAX
        &&& m.quotes.dom().contains(list[i].0@) ==> i128::MIN <= quote.bid_price + quote.ask_price <= i128::MAX
    }
}

/// An account is worth its cash plus the sum of what its positions are worth, each with its sign, as
/// long as that is within range.
pub proof fn equity_is_cash_plus_every_position(m: SimModel, list: Seq<(Symbol, Quantity)>)
    requires
        worths_fit(m, list),
        amount::adds_up(worths(m, list)),
    ensures
        valued(m, list) == amount::total(worths(m, list)),
        i128::MIN <= m.cash + amount::total(worths(m, list)) <= i128::MAX ==> amount::clamp(
            m.cash + valued(m, list),
        ) == m.cash + amount::total(worths(m, list)),
    decreases list.len(),
{
    if list.len() > 0 {
        let rest = list.drop_last();
        assert(worths(m, list).drop_last() =~= worths(m, rest));
        assert forall|i: int| 0 <= i < rest.len() implies rest[i] == #[trigger] list[i] by {}
        assert(worths_fit(m, rest));
        amount::a_part_less_adds_up(worths(m, list));
        equity_is_cash_plus_every_position(m, rest);
        let (symbol, size) = list.last();
        assert(list[list.len() - 1] == (symbol, size));
        assert(m.marks.dom().contains(symbol@) ==> size * m.marks[symbol@] == m.marks[symbol@] * size) by (nonlinear_arith);
    }
}

/// What an account has at stake is the sum of what its positions are worth, each without its sign, as
/// long as that is within range.
pub proof fn stakes_are_summed_without_sign(m: SimModel, list: Seq<(Symbol, Quantity)>)
    requires
        worths_fit(m, list),
        amount::total(worths(m, list).map_values(|w: int| amount::abs(w))) <= i128::MAX,
    ensures
        exposure(m, list) == amount::total(worths(m, list).map_values(|w: int| amount::abs(w))),
    decreases list.len(),
{
    let sizes = worths(m, list).map_values(|w: int| amount::abs(w));
    amount::amounts_without_sign_add_up(sizes);
    if list.len() > 0 {
        let rest = list.drop_last();
        assert(sizes.drop_last() =~= worths(m, rest).map_values(|w: int| amount::abs(w)));
        assert forall|i: int| 0 <= i < rest.len() implies rest[i] == #[trigger] list[i] by {}
        assert(worths_fit(m, rest));
        amount::a_part_less_adds_up(sizes);
        assert(sizes.drop_last().take(sizes.len() - 1) =~= sizes.drop_last());
        stakes_are_summed_without_sign(m, rest);
        let (symbol, size) = list.last();
        assert(list[list.len() - 1] == (symbol, size));
        assert(m.marks.dom().contains(symbol@) ==> size * m.marks[symbol@] == m.marks[symbol@] * size) by (nonlinear_arith);
    }
}

/// Whether a position in an instrument is valued at a price.
pub open spec fn is_valued_at(m: SimModel, symbol: Seq<char>, price: Price) -> bool {
    if m.marks.dom().contains(symbol) {
        m.marks[symbol] == price
    } else {
        m.quotes.dom().contains(symbol) && m.quotes[symbol].bid_price + m.quotes[symbol].ask_price == 2 * price
    }
}

/// Whether what a fill moves is within range.
pub open spec fn fill_fits(m: SimModel, fill: Fill) -> bool {
    let coins = if fill.side is Long { fill.size as int } else { -fill.size };
    let paid = fill.price * fill.size;
    let flow = if fill.side is Long { -paid } else { paid };
    &&& i128::MIN <= coins <= i128::MAX
    &&& i128::MIN < paid <= i128::MAX
    &&& i128::MIN <= flow - fill.fee <= i128::MAX
    &&& i128::MIN <= m.cash + flow - fill.fee <= i128::MAX
    &&& i128::MIN <= holding(m, fill.symbol@) + coins <= i128::MAX
}

/// A fill moves coins and money: a purchase adds its size to what is held and takes its price from
/// the cash, a sale does the opposite, and either pays its fee. No other position moves, nor anything
/// else.
pub proof fn a_fill_moves_coins_against_cash(m: SimModel, fill: Fill)
    requires
        fill_fits(m, fill),
    ensures
        fill.side is Long ==> holding(booked(m, fill), fill.symbol@) == holding(m, fill.symbol@) + fill.size,
        fill.side is Long ==> booked(m, fill).cash == m.cash - fill.price * fill.size - fill.fee,
        fill.side is Short ==> holding(booked(m, fill), fill.symbol@) == holding(m, fill.symbol@) - fill.size,
        fill.side is Short ==> booked(m, fill).cash == m.cash + fill.price * fill.size - fill.fee,
        forall|other: Seq<char>| other != fill.symbol@ ==> #[trigger] holding(booked(m, fill), other) == holding(m, other),
        booked(m, fill).positions.dom() == m.positions.dom().insert(fill.symbol@),
        booked(m, fill).exchange == m.exchange,
        booked(m, fill).maker_fee_rate == m.maker_fee_rate,
        booked(m, fill).taker_fee_rate == m.taker_fee_rate,
        booked(m, fill).metas == m.metas,
        booked(m, fill).quotes == m.quotes,
        booked(m, fill).marks == m.marks,
        booked(m, fill).book == m.book,
{
    assert(booked(m, fill).positions.dom() =~= m.positions.dom().insert(fill.symbol@));
}

/// A fill at the price at which the position is then valued changes what the account is worth by
/// its fee and nothing else, whichever side it is on.
pub proof fn a_fill_at_value_costs_its_fee(m: SimModel, list: Seq<(Symbol, Quantity)>, fill: Fill, i: int)
    requires
        0 <= i < list.len(),
        list[i].0@ == fill.symbol@,
        table::lists(list, m.positions),
        is_valued_at(m, fill.symbol@, fill.price),
        fill_fits(m, fill),
        worths_fit(m, list),
        amount::adds_up(worths(m, list)),
        i128::MIN <= m.cash + amount::total(worths(m, list)) <= i128::MAX,
        ({
            let after = booked(m, fill);
            let list2 = list.update(i, (list[i].0, after.positions[fill.symbol@]));
            &&& worths_fit(after, list2)
            &&& amount::adds_up(worths(after, list2))
            &&& i128::MIN <= after.cash + amount::total(worths(after, list2)) <= i128::MAX
        }),
    ensures
        ({
            let after = booked(m, fill);
            let list2 = list.update(i, (list[i].0, after.positions[fill.symbol@]));
            amount::clamp(after.cash + valued(after, list2)) == amount::clamp(m.cash + valued(m, list)) - fill.fee
        }),
{
    let after = booked(m, fill);
    let size = after.positions[fill.symbol@] as int;
    let list2 = list.update(i, (list[i].0, after.positions[fill.symbol@]));
    a_fill_moves_coins_against_cash(m, fill);
    equity_is_cash_plus_every_position(m, list);
    equity_is_cash_plus_every_position(after, list2);
    table::lemma_entry_in_map(list, i);
    let held = list[i].1 as int;
    assert(holding(m, fill.symbol@) == held);
    assert(worths(after, list2) =~= worths(m, list).update(i, worth_alone(m, fill.symbol@, size)));
    amount::a_part_replaced_adds_the_difference(worths(m, list), i, worth_alone(m, fill.symbol@, size));
    lemma_worth_at(m, fill.symbol@, fill.price, size);
    lemma_worth_at(m, fill.symbol@, fill.price, held);
    let price = fill.price as int;
    let n = fill.size as int;
    assert((held + n) * price == held * price + price * n) by (nonlinear_arith);
    assert((held - n) * price == held * price - price * n) by (nonlinear_arith);
}

/// So does a fill that opens the position.
pub proof fn a_first_fill_at_value_costs_its_fee(m: SimModel, list: Seq<(Symbol, Quantity)>, fill: Fill)
    requires
        !m.positions.dom().contains(fill.symbol@),
        is_valued_at(m, fill.symbol@, fill.price),
        fill_fits(m, fill),
        worths_fit(m, list),
        amount::adds_up(worths(m, list)),
        i128::MIN <= m.cash + amount::total(worths(m, list)) <= i128::MAX,
        ({
            let after = booked(m, fill);
            let list2 = list.push((fill.symbol, after.positions[fill.symbol@]));
            &&& worths_fit(after, list2)
            &&& amount::adds_up(worths(after, list2))
            &&& i128::MIN <= after.cash + amount::total(worths(after, list2)) <= i128::MAX
        }),
    ensures
        ({
            let after = booked(m, fill);
            let list2 = list.push((fill.symbol, after.positions[fill.symbol@]));
            amount::clamp(after.cash + valued(after, list2)) == amount::clamp(m.cash + valued(m, list)) - fill.fee
        }),
{
    let after = booked(m, fill);
    let size = after.positions[fill.symbol@] as int;
    let list2 = list.push((fill.symbol, after.positions[fill.symbol@]));
    a_fill_moves_coins_against_cash(m, fill);
    equity_is_cash_plus_every_position(m, list);
    equity_is_cash_plus_every_position(after, list2);
    assert(worths(after, list2) =~= worths(m, list).push(worth_alone(m, fill.symbol@, size)));
    amount::a_part_more_adds_itself(worths(m, list), worth_alone(m, fill.symbol@, size));
    lemma_worth_at(m, fill.symbol@, fill.price, size);
    let price = fill.price as int;
    let n = fill.size as int;
    assert(n * price == price * n) by (nonlinear_arith);
    assert((-n) * price == -(price * n)) by (nonlinear_arith);
}

proof fn lemma_worth_at(m: SimModel, symbol: Seq<char>, price: Price, size: int)
    requires
        is_valued_at(m, symbol, price),
    ensures
        worth_alone(m, symbol, size) == size * price,
{
    assert(size * (2 * price) == 2 * (size * price)) by (nonlinear_arith);
    amount::halving_cuts_towards_zero(size * price);
}

/// A fee is the rate's share of what is traded, cut towards zero.
pub proof fn a_fee_is_a_share_of_what_is_traded(price: Price, size: Quantity, rate: i128)
    requires
        i128::MIN <= price * size <= i128::MAX,
        i128::MIN <= price * size * rate <= i128::MAX,
    ensures
        price * size * rate >= 0 ==> 100_000_000 * fee(price, size, rate) <= price * size * rate < 100_000_000 * fee(
            price,
            size,
            rate,
        ) + 100_000_000,
        price * size * rate <= 0 ==> 100_000_000 * fee(price, size, rate) - 100_000_000 < price * size * rate
            <= 100_000_000 * fee(price, size, rate),
{
    amount::dividing_cuts_towards_zero(price * size * rate, RATE_UNIT as int);
}

/// An order that may only reduce a position trades against what is held, up to all of it: never more,
/// never the other way, and as much as was asked where that is there. Any other order has room for
/// all that it asks.
pub proof fn reducing_never_opens_a_position(m: SimModel, order: Order, quantity: int)
    requires
        quantity >= 0,
        holding(m, order.symbol@) > i128::MIN,
    ensures
        ({
            let held = holding(m, order.symbol@);
            let q = room(m, order, quantity);
            &&& !order.reduce_only ==> q == quantity
            &&& order.reduce_only && order.side is Short && held > 0 ==> q == if held < quantity { held } else { quantity }
            &&& order.reduce_only && order.side is Long && held < 0 ==> q == if -held < quantity { -held } else { quantity }
            &&& order.reduce_only && order.side is Short && held <= 0 ==> q == 0
            &&& order.reduce_only && order.side is Long && held >= 0 ==> q == 0
        }),
{
}

/// An order trades at once only against a quote, at the price of the other side: a market order always,
/// a limit order where that price is no worse than its own.
pub proof fn an_order_takes_the_other_side(m: SimModel, order: Order)
    ensures
        ({
            let quoted = m.quotes.dom().contains(order.symbol@);
            let quote = m.quotes[order.symbol@];
            &&& touch(m, order) is Some ==> quoted && touch(m, order)->0 == if order.side is Long {
                quote.ask_price
            } else {
                quote.bid_price
            }
            &&& order.order_type is Market ==> touch(m, order) is Some == quoted
            &&& order.order_type is Limit && order.side is Long ==> touch(m, order) is Some == (quoted
                && quote.ask_price <= order.order_type->price)
            &&& order.order_type is Limit && order.side is Short ==> touch(m, order) is Some == (quoted
                && quote.bid_price >= order.order_type->price)
        }),
{
}

/// Whether a fill is one of the order's: its venue, instrument, side and ids, at its time, an ordinary
/// one.
pub open spec fn is_fill_of(fill: Fill, order: Order, order_id: String, at: Timestamp) -> bool {
    &&& fill.exchange == order.exchange
    &&& fill.symbol == order.symbol
    &&& fill.side == order.side
    &&& fill.client_order_id == Some(order.client_order_id)
    &&& fill.order_id == order_id
    &&& fill.timestamp == at
    &&& fill.reason is Normal
}

/// Whether a report is on the order, with a status.
pub open spec fn is_report_of(u: OrderUpdate, order: Order, order_id: String, status: OrderStatus) -> bool {
    &&& u.exchange == order.exchange
    &&& u.symbol == order.symbol
    &&& u.side == order.side
    &&& u.client_order_id == Some(order.client_order_id)
    &&& u.order_id == order_id
    &&& u.quantity == order.quantity
    &&& u.status == status
}

/// An accepted order that trades at once trades in whole, as far as it has room, at the price of the
/// other side and at the taker's fee; it is reported as filled and does not wait.
pub proof fn a_taking_order_is_filled(m: SimModel, now: Timestamp, order: Order, order_id: String)
    requires
        touch(m, cut(order, m.metas[(order.exchange, order.symbol@)])) is Some,
    ensures
        ({
            let o = cut(order, m.metas[(order.exchange, order.symbol@)]);
            let (after, reports) = arrived(m, now, order, order_id);
            &&& reports.len() == 2
            &&& reports[0] is Fill
            &&& reports[1] is OrderUpdate
            &&& is_fill_of(reports[0]->Fill_0, order, order_id, now)
            &&& reports[0]->Fill_0.price == touch(m, o)->0
            &&& reports[0]->Fill_0.size == room(m, o, o.quantity as int) as Quantity
            &&& reports[0]->Fill_0.fee == fee(reports[0]->Fill_0.price, reports[0]->Fill_0.size, m.taker_fee_rate) as Money
            &&& is_report_of(reports[1]->OrderUpdate_0, o, order_id, OrderStatus::Filled)
            &&& after == booked(m, reports[0]->Fill_0)
            &&& after.book == m.book
        }),
{
}

/// An accepted order that cannot trade at once waits behind all others, in whole and reported as
/// waiting; one that must trade at once or never is cancelled and leaves no trace.
pub proof fn a_making_order_waits_its_turn(m: SimModel, now: Timestamp, order: Order, order_id: String)
    requires
        touch(m, cut(order, m.metas[(order.exchange, order.symbol@)])) is None,
    ensures
        ({
            let o = cut(order, m.metas[(order.exchange, order.symbol@)]);
            let (after, reports) = arrived(m, now, order, order_id);
            let once = order.order_type is Limit && order.order_type->tif is IOC;
            &&& reports.len() == 1
            &&& reports[0] is OrderUpdate
            &&& is_report_of(
                reports[0]->OrderUpdate_0,
                o,
                order_id,
                if once { OrderStatus::Cancelled } else { OrderStatus::Pending },
            )
            &&& once ==> after == m
            &&& !once ==> {
                &&& after.book.len() == m.book.len() + 1
                &&& forall|i: int| 0 <= i < m.book.len() ==> after.book[i] == #[trigger] m.book[i]
                &&& after.book[m.book.len() as int].order == o
                &&& after.book[m.book.len() as int].order_id == order_id
                &&& after.book[m.book.len() as int].left == o.quantity
                &&& after.cash == m.cash
                &&& after.positions == m.positions
                &&& after.quotes == m.quotes
                &&& after.marks == m.marks
                &&& after.metas == m.metas
            }
        }),
{
}

/// An order is cut to whole lots, never to more than was asked, and by less than one smallest order;
/// nothing else of it changes.
pub proof fn an_order_is_cut_to_whole_lots(order: Order, meta: SymbolMeta)
    requires
        meta.contract_size > 0,
        meta.size_step > 0,
        order.quantity >= 0,
    ensures
        ({
            let o = cut(order, meta);
            let step = meta.size_step * meta.contract_size;
            &&& 0 <= o.quantity <= order.quantity < o.quantity + step
            &&& o.quantity as int % step == 0
            &&& o.id == order.id
            &&& o.exchange == order.exchange
            &&& o.symbol == order.symbol
            &&& o.side == order.side
            &&& o.order_type == order.order_type
            &&& o.reduce_only == order.reduce_only
            &&& o.client_order_id == order.client_order_id
        }),
{
    outcome_processor::lots_come_to_no_more_coins(order.quantity as int, meta);
}

/// When a venue refuses an order: exactly where its rules are not known or it does not meet them, it
/// may only reduce and there is nothing to reduce, it must not take and would, or it is to trade at
/// any price and there is none.
pub proof fn an_order_is_refused_for_cause(m: SimModel, order: Order)
    ensures
        ({
            let known = m.metas.dom().contains((order.exchange, order.symbol@));
            let meta = m.metas[(order.exchange, order.symbol@)];
            let o = cut(order, meta);
            let lots = outcome_processor::lots_for(order.quantity as int, meta);
            refused(m, order) is None <==> {
                &&& known
                &&& meta.contract_size > 0
                &&& lots > 0
                &&& lots >= meta.min_order_size
                &&& room(m, o, o.quantity as int) > 0
                &&& order.order_type is Market ==> m.quotes.dom().contains(order.symbol@)
                &&& order.order_type is Limit && order.order_type->tif is PostOnly ==> touch(m, o) is None
            }
        }),
{
}

/// How much of a waiting order a trade fills.
pub open spec fn share(m: SimModel, book: Seq<Resting>, trade: MarketTrade, at: Timestamp, i: int) -> int {
    matched(m, book.take(i), trade, at).budget - matched(m, book.take(i + 1), trade, at).budget
}

/// A trade serves the waiting orders oldest first: each on its instrument whose price it went through
/// gets all it waits for, or what those before it have left of the trade if that is less; any other
/// gets nothing.
pub proof fn a_trade_serves_the_oldest_first(m: SimModel, book: Seq<Resting>, trade: MarketTrade, at: Timestamp, i: int)
    requires
        0 <= i < book.len(),
        trade.qty >= 0,
        book[i].left >= 0,
    ensures
        ({
            let r = book[i];
            let before = matched(m, book.take(i), trade, at);
            let through = r.order.symbol@ == trade.symbol@ && r.order.order_type is Limit && if r.order.side is Long {
                trade.price < r.order.order_type->price
            } else {
                trade.price > r.order.order_type->price
            };
            let q = share(m, book, trade, at, i);
            &&& !through ==> q == 0
            &&& through && !r.order.reduce_only ==> q == if r.left < before.budget { r.left as int } else { before.budget }
            &&& 0 <= q <= r.left
            &&& q <= before.budget
        }),
{
    let before = matched(m, book.take(i), trade, at);
    let after = matched(m, book.take(i + 1), trade, at);
    assert(book.take(i + 1).drop_last() =~= book.take(i));
    assert(book.take(i + 1).last() == book[i]);
    fills_are_bounded_by_the_trade(m, book.take(i), trade, at);
    assert(room(before.model, book[i].order, book[i].left as int) <= book[i].left);
}

/// A waiting order that a trade fills is filled at its own price and the maker's fee, and reported as
/// filled once nothing of it is left, as partly filled before; what is left of it keeps waiting in its
/// place, and an order that gets nothing waits on unchanged.
pub proof fn a_waiting_order_is_filled_at_its_price(
    m: SimModel,
    book: Seq<Resting>,
    trade: MarketTrade,
    at: Timestamp,
    i: int,
)
    requires
        0 <= i < book.len(),
        trade.qty >= 0,
        book[i].left >= 0,
    ensures
        ({
            let r = book[i];
            let before = matched(m, book.take(i), trade, at);
            let after = matched(m, book.take(i + 1), trade, at);
            let q = share(m, book, trade, at, i);
            let n = before.reports.len() as int;
            &&& q == 0 ==> {
                &&& after.reports == before.reports
                &&& after.model == (SimModel { book: before.model.book.push(r), ..before.model })
            }
            &&& q > 0 ==> {
                let status = if q == r.left { OrderStatus::Filled } else { OrderStatus::PartiallyFilled };
                &&& after.reports.len() == n + 2
                &&& forall|k: int| 0 <= k < n ==> after.reports[k] == #[trigger] before.reports[k]
                &&& after.reports[n] is Fill
                &&& is_fill_of(after.reports[n]->Fill_0, r.order, r.order_id, at)
                &&& after.reports[n]->Fill_0.size == q
                &&& after.reports[n]->Fill_0.price == r.order.order_type->price
                &&& after.reports[n]->Fill_0.fee == fee(r.order.order_type->price, q as Quantity, before.model.maker_fee_rate) as Money
                &&& after.reports[n + 1] is OrderUpdate
                &&& is_report_of(after.reports[n + 1]->OrderUpdate_0, r.order, r.order_id, status)
                &&& after.model.cash == booked(before.model, after.reports[n]->Fill_0).cash
                &&& after.model.positions == booked(before.model, after.reports[n]->Fill_0).positions
                &&& q == r.left ==> after.model.book == before.model.book
                &&& q < r.left ==> {
                    &&& after.model.book.len() == before.model.book.len() + 1
                    &&& after.model.book.drop_last() == before.model.book
                    &&& after.model.book.last().order == r.order
                    &&& after.model.book.last().order_id == r.order_id
                    &&& after.model.book.last().left == r.left - q
                }
            }
        }),
{
    let before = matched(m, book.take(i), trade, at);
    assert(book.take(i + 1).drop_last() =~= book.take(i));
    assert(book.take(i + 1).last() == book[i]);
    fills_are_bounded_by_the_trade(m, book.take(i), trade, at);
    a_trade_serves_the_oldest_first(m, book, trade, at, i);
    let after = matched(m, book.take(i + 1), trade, at);
    assert(after.model.book.len() > before.model.book.len() ==> after.model.book.drop_last() =~= before.model.book);
}

/// A pass starts with all of the trade to share out and nothing reported or waiting, and leaves the
/// account, the quotes and the rules to the fills alone.
pub proof fn a_pass_starts_with_the_whole_trade(m: SimModel, trade: MarketTrade, at: Timestamp)
    ensures
        matched(m, Seq::empty(), trade, at).budget == trade.qty,
        matched(m, Seq::empty(), trade, at).reports.len() == 0,
        matched(m, Seq::empty(), trade, at).model.book.len() == 0,
        matched(m, Seq::empty(), trade, at).model.cash == m.cash,
        matched(m, Seq::empty(), trade, at).model.positions == m.positions,
        matched(m, Seq::empty(), trade, at).model.maker_fee_rate == m.maker_fee_rate,
        matched(m, Seq::empty(), trade, at).model.taker_fee_rate == m.taker_fee_rate,
        matched(m, Seq::empty(), trade, at).model.quotes == m.quotes,
        matched(m, Seq::empty(), trade, at).model.marks == m.marks,
        matched(m, Seq::empty(), trade, at).model.metas == m.metas,
{
}

/// A refused order is reported once, as refused for that reason, under the ids it came with.
pub proof fn a_refusal_is_reported_on_its_order(reports: Seq<AccountData>, order: Order, order_id: String, reason: Seq<char>)
    requires
        is_refusal(reports, order, order_id, reason),
    ensures
        reports.len() == 1,
        reports[0] is OrderUpdate,
        reports[0]->OrderUpdate_0.status is Rejected,
        reports[0]->OrderUpdate_0.status->Rejected_reason@ == reason,
        is_report_of(reports[0]->OrderUpdate_0, order, order_id, reports[0]->OrderUpdate_0.status),
{
}

/// An order waits exactly when one in the book has its id, and it waits in one place: that of the oldest
/// with the id.
pub proof fn an_order_waits_in_one_place(book: Seq<Resting>, i: int, j: int, order_id: Seq<char>)
    requires
        waits_at(book, i, order_id),
    ensures
        waits(book, order_id),
        0 <= i < book.len(),
        book[i].order_id@ == order_id,
        0 <= j < i ==> book[j].order_id@ != order_id,
        waits_at(book, j, order_id) ==> i == j,
{
}

/// The reason for a refusal names the leg where the venue does not know it.
pub proof fn an_unknown_leg_is_named(m: SimModel, order: Order)
    requires
        !m.metas.dom().contains((order.exchange, order.symbol@)),
    ensures
        refused(m, order) is Some,
        crate::text::holds(refused(m, order)->0, domain::exchange_name(order.exchange) + "/"@ + order.symbol@),
{
    let reason = "No SymbolMeta for "@ + domain::exchange_name(order.exchange) + "/"@ + order.symbol@;
    assert(refused(m, order) == Some(reason));
    lemma_end_is_held("No SymbolMeta for "@, domain::exchange_name(order.exchange), "/"@, order.symbol@);
}

proof fn lemma_end_is_held(a: Seq<char>, b: Seq<char>, c: Seq<char>, d: Seq<char>)
    ensures
        crate::text::holds(a + b + c + d, b + c + d),
{
    crate::text::what_is_held_stays_held(a, b + c + d, Seq::empty(), b + c + d);
    assert(a + (b + c + d) + Seq::<char>::empty() =~= a + b + c + d);
}

} // verus!
