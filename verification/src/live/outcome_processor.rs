//! The one way out to the venues: orders and cancellations of the real account.
//!
//! Every request is split at the point where the venue is asked: one step says whether and what
//! to send, the next says what its answer means.

use vstd::prelude::*;
use vstd::string::StringExecFns;
use crate::amount;
use crate::amount::{divide_down, round, round_down};
use crate::domain;
use crate::domain::{Exchange, ExchangeError, Lots, Order, OrderStatus, OrderType, OrderUpdate};
use crate::domain::{OutcomeEvent, Side, Symbol, SymbolMeta, SymbolMetas};
use crate::event::{AccountData, IncomeEvent};
use crate::live::AccountOutcome;
use crate::table::{Key, Table};
use crate::text::{joined, same_text};

verus! {

/// An order as a venue takes it: counted in lots, at a price that it quotes.
#[derive(Debug)]
pub struct ExchangeOrder {
    pub exchange: Exchange,
    pub symbol: Symbol,
    pub side: Side,
    pub order_type: OrderType,
    pub lots: Lots,
    pub reduce_only: bool,
    pub client_order_id: String,
}

/// How many lots a quantity of coins makes, cut down to what can be ordered.
pub open spec fn lots_for(quantity: int, meta: SymbolMeta) -> int {
    amount::rounded_down(amount::divided_down(quantity, meta.contract_size as int), meta.size_step as int)
}

/// The order's type at a price that the venue quotes.
pub open spec fn quoted(order_type: OrderType, meta: SymbolMeta) -> OrderType {
    match order_type {
        OrderType::Market => OrderType::Market,
        OrderType::Limit { price, tif } => OrderType::Limit {
            price: amount::clamp(
                amount::rounded(price as int, meta.price_formatter.step as int),
            ) as i128,
            tif,
        },
    }
}

/// Why an order cannot be put to the venue, if it cannot.
pub open spec fn unfit(order: Order, meta: SymbolMeta) -> Option<Seq<char>> {
    let leg = domain::exchange_name(order.exchange) + "/"@ + order.symbol@;
    if meta.contract_size <= 0 {
        Some(leg + ": contract size is not positive"@)
    } else if lots_for(order.quantity as int, meta) <= 0 {
        Some(leg + ": order quantity rounds down to zero"@)
    } else if lots_for(order.quantity as int, meta) < meta.min_order_size {
        Some(leg + ": order quantity is below the minimum order size"@)
    } else {
        None
    }
}

/// Whether this is the order as the venue takes it.
pub open spec fn is_wire_order(wire: ExchangeOrder, order: Order, meta: SymbolMeta) -> bool {
    wire == (ExchangeOrder {
        exchange: order.exchange,
        symbol: order.symbol,
        side: order.side,
        order_type: quoted(order.order_type, meta),
        lots: lots_for(order.quantity as int, meta) as Lots,
        reduce_only: order.reduce_only,
        client_order_id: order.client_order_id,
    })
}

fn leg_text(order: &Order) -> (s: String)
    ensures
        s@ == domain::exchange_name(order.exchange) + "/"@ + order.symbol@,
{
    let mut s = order.exchange.name().to_owned();
    s.append("/");
    s.append(order.symbol.as_str());
    s
}

impl ExchangeOrder {
    /// Turns coins into lots and prices into quotes; an order for nothing, or for less than the
    /// venue takes, is turned away here.
    pub fn from_domain(order: &Order, meta: &SymbolMeta) -> (res: Result<Self, String>)
        ensures
            match res {
                Ok(wire) => unfit(*order, *meta) is None && is_wire_order(wire, *order, *meta),
                Err(reason) => unfit(*order, *meta) == Some(reason@),
            },
    {
        if meta.contract_size <= 0 {
            let mut s = leg_text(order);
            s.append(": contract size is not positive");
            return Err(s);
        }
        let lots = round_down(divide_down(order.quantity, meta.contract_size), meta.size_step);
        if lots <= 0 {
            let mut s = leg_text(order);
            s.append(": order quantity rounds down to zero");
            return Err(s);
        }
        if lots < meta.min_order_size {
            let mut s = leg_text(order);
            s.append(": order quantity is below the minimum order size");
            return Err(s);
        }
        let order_type = match order.order_type {
            OrderType::Market => OrderType::Market,
            OrderType::Limit { price, tif } => OrderType::Limit {
                price: round(price, meta.price_formatter.step),
                tif,
            },
        };
        Ok(
            ExchangeOrder {
                exchange: order.exchange,
                symbol: order.symbol.clone(),
                side: order.side,
                order_type,
                lots,
                reduce_only: order.reduce_only,
                client_order_id: order.client_order_id.clone(),
            },
        )
    }
}

/// What goes out to a venue is never more than what was asked for, and less than one step less.
pub proof fn no_more_is_sent_than_asked(order: Order, meta: SymbolMeta)
    requires
        unfit(order, meta) is None,
        meta.size_step > 0,
    ensures
        0 < lots_for(order.quantity as int, meta) * meta.contract_size <= order.quantity
            < (lots_for(order.quantity as int, meta) + meta.size_step) * meta.contract_size,
{
    let q = order.quantity as int;
    let c = meta.contract_size as int;
    let step = meta.size_step as int;
    let whole = amount::divided_down(q, c);
    let lots = lots_for(q, meta);
    amount::rounding_down_never_adds(whole, step);
    if q < 0 {
        vstd::arithmetic::div_mod::lemma_div_pos_is_pos(-q, c);
        assert(lots <= 0);
    }
    vstd::arithmetic::div_mod::lemma_fundamental_div_mod(q, c);
    assert(whole == q / c);
    assert(lots * c <= whole * c) by (nonlinear_arith)
        requires
            lots <= whole,
            c > 0,
    ;
    assert((whole + 1) * c <= (lots + step) * c) by (nonlinear_arith)
        requires
            whole + 1 <= lots + step,
            c > 0,
    ;
    assert((whole + 1) * c == c * whole + c && whole * c == c * whole) by (nonlinear_arith);
    assert(lots * c > 0) by (nonlinear_arith)
        requires
            lots > 0,
            c > 0,
    ;
}

/// What asking a venue for an order came to.
#[derive(Clone, Copy, Debug, PartialEq, Eq, Structural)]
pub enum PlaceVerdict {
    /// The venue has taken it.
    Accepted,
    /// Nothing was sent.
    DryRun,
    /// The position that it was to reduce is gone.
    ReduceOnlyAlreadyClosed,
    /// The request failed, but the venue has reported on the order: what it said decides.
    ExchangeSpoke,
}

/// What is to be done about an order.
#[derive(Debug)]
pub enum PlaceStep {
    /// It cannot be sent; the strategy gets the report.
    Refused { reason: String, report: OrderUpdate },
    /// It would have been sent.
    DryRun,
    /// It is to be sent.
    Send(ExchangeOrder),
}

/// What the venue's answer to an order means.
#[derive(Debug)]
pub struct PlaceReply {
    pub verdict: Result<PlaceVerdict, String>,
    /// For the strategy.
    pub report: Option<OrderUpdate>,
}

/// What is to be done about a cancellation.
#[derive(Debug)]
pub enum CancelStep {
    Refused { reason: String },
    DryRun,
    Send,
}

/// What a cancellation came to.
#[derive(Debug)]
pub struct CancelReply {
    pub verdict: Result<(), String>,
    /// For the strategy.
    pub report: Option<OrderUpdate>,
}

/// What the list of open orders says of an order whose cancellation failed.
#[derive(Clone, Copy, Debug, PartialEq, Eq, Structural)]
pub enum CancelRecheckVerdict {
    /// It is still open.
    StillOpen,
    /// It is over.
    Gone,
    /// An open order that carries no id of ours may be it.
    Unverifiable,
}

/// Whether an open order is the one that is meant: it carries our id, or the venue's id if that
/// is known.
pub open spec fn is_the_order(o: OrderUpdate, order_id: Seq<char>, client_order_id: Seq<char>) -> bool {
    ||| (o.client_order_id matches Some(id) && id@ == client_order_id)
    ||| (order_id.len() > 0 && o.order_id@ == order_id)
}

/// What the list of open orders says.
pub open spec fn recheck(
    open: Seq<OrderUpdate>,
    order_id: Seq<char>,
    client_order_id: Seq<char>,
) -> CancelRecheckVerdict {
    if exists|i: int| 0 <= i < open.len() && is_the_order(#[trigger] open[i], order_id, client_order_id) {
        CancelRecheckVerdict::StillOpen
    } else if order_id.len() == 0 && exists|i: int|
        0 <= i < open.len() && (#[trigger] open[i]).client_order_id is None {
        CancelRecheckVerdict::Unverifiable
    } else {
        CancelRecheckVerdict::Gone
    }
}

/// Says from the list of open orders whether an order is still there.
pub fn cancel_recheck_verdict(
    open_orders: &Vec<OrderUpdate>,
    order_id: &str,
    client_order_id: &str,
) -> (v: CancelRecheckVerdict)
    ensures
        v == recheck(open_orders@, order_id@, client_order_id@),
{
    let unnamed = order_id.is_empty();
    let mut anonymous = false;
    let mut i: usize = 0;
    while i < open_orders.len()
        invariant
            i <= open_orders.len(),
            unnamed == (order_id@.len() == 0),
            forall|j: int| 0 <= j < i ==> !is_the_order(#[trigger] open_orders@[j], order_id@, client_order_id@),
            anonymous == exists|j: int| 0 <= j < i && (#[trigger] open_orders@[j]).client_order_id is None,
        decreases open_orders.len() - i,
    {
        let o = &open_orders[i];
        let by_client = match &o.client_order_id {
            Some(id) => same_text(id.as_str(), client_order_id),
            None => false,
        };
        if by_client || (!unnamed && same_text(o.order_id.as_str(), order_id)) {
            assert(is_the_order(open_orders@[i as int], order_id@, client_order_id@));
            return CancelRecheckVerdict::StillOpen;
        }
        if o.client_order_id.is_none() {
            anonymous = true;
        }
        i = i + 1;
    }
    if unnamed && anonymous {
        CancelRecheckVerdict::Unverifiable
    } else {
        CancelRecheckVerdict::Gone
    }
}

/// An order counts as gone only when every open order is known to be another.
pub proof fn gone_means_all_others_are_known(
    open: Seq<OrderUpdate>,
    order_id: Seq<char>,
    client_order_id: Seq<char>,
    i: int,
)
    requires
        recheck(open, order_id, client_order_id) is Gone,
        0 <= i < open.len(),
    ensures
        order_id.len() > 0 ==> open[i].order_id@ != order_id,
        order_id.len() == 0 ==> open[i].client_order_id is Some,
        open[i].client_order_id matches Some(id) ==> id@ != client_order_id,
{
    assert(!is_the_order(open[i], order_id, client_order_id));
}

/// Whether this is the report that an order failed for the reason.
pub open spec fn is_error_report(u: OrderUpdate, order: Order, reason: Seq<char>) -> bool {
    &&& u.order_id@ == ""@
    &&& u.client_order_id == Some(order.client_order_id)
    &&& u.exchange == order.exchange
    &&& u.symbol == order.symbol
    &&& u.side == order.side
    &&& u.status matches OrderStatus::Error { reason: r } && r@ == reason
    &&& u.quantity == order.quantity
}

/// The report that an order failed.
fn order_error(order: &Order, reason: &String) -> (u: OrderUpdate)
    ensures
        is_error_report(u, *order, reason@),
{
    OrderUpdate {
        order_id: "".to_owned(),
        client_order_id: Some(order.client_order_id.clone()),
        exchange: order.exchange,
        symbol: order.symbol.clone(),
        side: order.side,
        status: OrderStatus::Error { reason: reason.clone() },
        quantity: order.quantity,
    }
}

/// Whether this is the report that an order was cancelled.
pub open spec fn is_cancel_report(
    u: OrderUpdate,
    exchange: Exchange,
    symbol: Seq<char>,
    order_id: Seq<char>,
    client_order_id: Seq<char>,
) -> bool {
    &&& u.order_id@ == order_id
    &&& u.client_order_id matches Some(id) && id@ == client_order_id
    &&& u.exchange == exchange
    &&& u.symbol@ == symbol
    &&& u.side is Long
    &&& u.status is Cancelled
    &&& u.quantity == 0
}

fn order_cancelled(
    exchange: Exchange,
    symbol: &Symbol,
    order_id: &String,
    client_order_id: &String,
) -> (u: OrderUpdate)
    ensures
        is_cancel_report(u, exchange, symbol@, order_id@, client_order_id@),
{
    OrderUpdate {
        order_id: order_id.clone(),
        client_order_id: Some(client_order_id.clone()),
        exchange,
        symbol: symbol.clone(),
        side: Side::Long,
        status: OrderStatus::Cancelled,
        quantity: 0,
    }
}

/// What the gateway knows.
#[verifier::ext_equal]
pub struct GatewayModel {
    /// The venues that take orders.
    pub clients: Set<Exchange>,
    pub metas: Map<(Exchange, Seq<char>), SymbolMeta>,
    pub dry_run: bool,
    /// The client order ids of orders that were sent and of which neither the request nor the
    /// venue has said anything.
    pub in_flight: Set<Seq<char>>,
}

/// Why an order is not sent, if it is not.
pub open spec fn refusal(g: GatewayModel, order: Order) -> Option<Seq<char>> {
    let leg = (order.exchange, order.symbol@);
    if !g.clients.contains(order.exchange) {
        Some("No client found for exchange "@ + domain::exchange_name(order.exchange))
    } else if g.dry_run {
        None
    } else if !g.metas.dom().contains(leg) {
        Some(
            "No SymbolMeta for "@ + domain::exchange_name(order.exchange) + "/"@ + order.symbol@
                + ", cannot convert order quantity to exchange unit"@,
        )
    } else {
        unfit(order, g.metas[leg])
    }
}

/// An order has been sent.
pub open spec fn sent(g: GatewayModel, id: Seq<char>) -> GatewayModel {
    GatewayModel { in_flight: g.in_flight.insert(id), ..g }
}

/// The venue, or the request, has said something of an order.
pub open spec fn heard(g: GatewayModel, id: Seq<char>) -> GatewayModel {
    GatewayModel { in_flight: g.in_flight.remove(id), ..g }
}

/// What the answer to an order's request tells the strategy: that it failed and why, if neither
/// the venue nor an earlier answer has said anything of the order.
pub open spec fn reply_report(
    g: GatewayModel,
    order: Order,
    result: Result<String, ExchangeError>,
) -> Option<Seq<char>> {
    match result {
        Ok(_) => None,
        Err(e) => if g.in_flight.contains(order.client_order_id@) {
            Some(domain::error_text(e))
        } else {
            None
        },
    }
}

/// What the answer to an order's request comes to.
pub open spec fn reply_verdict(
    g: GatewayModel,
    order: Order,
    result: Result<String, ExchangeError>,
) -> Result<PlaceVerdict, Seq<char>> {
    match result {
        Ok(_) => Ok(PlaceVerdict::Accepted),
        Err(e) => if e matches ExchangeError::OrderRejected(_, why) && why is ReduceOnlyClosed {
            Ok(PlaceVerdict::ReduceOnlyAlreadyClosed)
        } else if !g.in_flight.contains(order.client_order_id@) {
            Ok(PlaceVerdict::ExchangeSpoke)
        } else {
            Err(domain::error_text(e))
        },
    }
}

/// A verdict with its reason as text.
pub open spec fn verdict_view(v: Result<PlaceVerdict, String>) -> Result<PlaceVerdict, Seq<char>> {
    match v {
        Ok(x) => Ok(x),
        Err(s) => Err(s@),
    }
}

/// The real account's way out.
pub struct OrderGateway {
    clients: Table<Exchange, ()>,
    symbol_metas: SymbolMetas,
    dry_run: bool,
    in_flight: Table<String, ()>,
}

impl View for OrderGateway {
    type V = GatewayModel;

    closed spec fn view(&self) -> GatewayModel {
        GatewayModel {
            clients: self.clients@.dom(),
            metas: self.symbol_metas@,
            dry_run: self.dry_run,
            in_flight: self.in_flight@.dom(),
        }
    }
}

impl OrderGateway {
    /// A gateway to these venues.
    pub fn new(clients: &Vec<Exchange>, symbol_metas: SymbolMetas, dry_run: bool) -> (g: Self)
        ensures
            g@ == (GatewayModel {
                clients: clients@.to_set(),
                metas: symbol_metas@,
                dry_run,
                in_flight: Set::empty(),
            }),
    {
        let mut table: Table<Exchange, ()> = Table::new();
        let mut i: usize = 0;
        while i < clients.len()
            invariant
                i <= clients.len(),
                forall|e: Exchange| #[trigger] table@.dom().contains(e) == clients@.take(i as int).contains(e),
            decreases clients.len() - i,
        {
            table.insert(clients[i], ());
            proof {
                broadcast use vstd::seq_lib::group_seq_properties;

                assert(clients@.take(i + 1) =~= clients@.take(i as int).push(clients@[i as int]));
            }
            i = i + 1;
        }
        assert(clients@.take(i as int) =~= clients@);
        let g = OrderGateway { clients: table, symbol_metas, dry_run, in_flight: Table::new() };
        assert(g@.clients =~= clients@.to_set());
        assert(g@.in_flight =~= Set::empty());
        g
    }

    /// Decides on an order. One that is to be sent is in flight from then on.
    pub fn place(&mut self, order: &Order) -> (step: PlaceStep)
        ensures
            match step {
                PlaceStep::Refused { reason, report } => {
                    &&& refusal(old(self)@, *order) == Some(reason@)
                    &&& is_error_report(report, *order, reason@)
                    &&& final(self)@ == old(self)@
                },
                PlaceStep::DryRun => {
                    &&& refusal(old(self)@, *order) is None
                    &&& old(self)@.dry_run
                    &&& final(self)@ == old(self)@
                },
                PlaceStep::Send(wire) => {
                    &&& refusal(old(self)@, *order) is None
                    &&& !old(self)@.dry_run
                    &&& is_wire_order(
                        wire,
                        *order,
                        old(self)@.metas[(order.exchange, order.symbol@)],
                    )
                    &&& final(self)@ == sent(old(self)@, order.client_order_id@)
                },
            },
    {
        if !self.clients.contains_key(&order.exchange) {
            let reason = joined("No client found for exchange ", order.exchange.name());
            let report = order_error(order, &reason);
            return PlaceStep::Refused { reason, report };
        }
        if self.dry_run {
            return PlaceStep::DryRun;
        }
        let wire = match self.symbol_metas.get(&(order.exchange, order.symbol.clone())) {
            None => {
                let mut reason = joined("No SymbolMeta for ", order.exchange.name());
                reason.append("/");
                reason.append(order.symbol.as_str());
                reason.append(", cannot convert order quantity to exchange unit");
                let report = order_error(order, &reason);
                return PlaceStep::Refused { reason, report };
            },
            Some(meta) => ExchangeOrder::from_domain(order, meta),
        };
        match wire {
            Err(reason) => {
                let report = order_error(order, &reason);
                PlaceStep::Refused { reason, report }
            },
            Ok(wire) => {
                self.in_flight.insert(order.client_order_id.clone(), ());
                assert(self@.in_flight =~= old(self)@.in_flight.insert(order.client_order_id@));
                PlaceStep::Send(wire)
            },
        }
    }

    /// Takes in the venue's answer to an order that was sent. A failed request is reported to the
    /// strategy unless the venue has reported on the order meanwhile.
    pub fn place_reply(&mut self, order: &Order, result: &Result<String, ExchangeError>) -> (r: PlaceReply)
        ensures
            final(self)@ == heard(old(self)@, order.client_order_id@),
            verdict_view(r.verdict) == reply_verdict(old(self)@, *order, *result),
            match r.report {
                Some(u) => reply_report(old(self)@, *order, *result) matches Some(reason)
                    && is_error_report(u, *order, reason),
                None => reply_report(old(self)@, *order, *result) is None,
            },
    {
        let unheard = self.in_flight.remove(&order.client_order_id).is_some();
        assert(self@.in_flight =~= old(self)@.in_flight.remove(order.client_order_id@));
        match result {
            Ok(_) => PlaceReply { verdict: Ok(PlaceVerdict::Accepted), report: None },
            Err(e) => {
                let reason = e.message();
                let report = if unheard {
                    Some(order_error(order, &reason))
                } else {
                    None
                };
                let verdict = if e.is_reduce_only_closed() {
                    Ok(PlaceVerdict::ReduceOnlyAlreadyClosed)
                } else if !unheard {
                    Ok(PlaceVerdict::ExchangeSpoke)
                } else {
                    Err(reason)
                };
                PlaceReply { verdict, report }
            },
        }
    }

    /// Decides on a cancellation.
    pub fn cancel(&self, exchange: Exchange) -> (step: CancelStep)
        ensures
            match step {
                CancelStep::Refused { reason } => !self@.clients.contains(exchange) && reason@
                    == "No client found for cancel_order on "@ + domain::exchange_name(exchange),
                CancelStep::DryRun => self@.clients.contains(exchange) && self@.dry_run,
                CancelStep::Send => self@.clients.contains(exchange) && !self@.dry_run,
            },
    {
        if !self.clients.contains_key(&exchange) {
            CancelStep::Refused {
                reason: joined("No client found for cancel_order on ", exchange.name()),
            }
        } else if self.dry_run {
            CancelStep::DryRun
        } else {
            CancelStep::Send
        }
    }

    /// The venue has cancelled an order.
    pub fn cancel_accepted(
        &self,
        exchange: Exchange,
        symbol: &Symbol,
        order_id: &String,
        client_order_id: &String,
    ) -> (r: CancelReply)
        ensures
            r.verdict is Ok,
            r.report matches Some(u) && is_cancel_report(
                u,
                exchange,
                symbol@,
                order_id@,
                client_order_id@,
            ),
    {
        CancelReply {
            verdict: Ok(()),
            report: Some(order_cancelled(exchange, symbol, order_id, client_order_id)),
        }
    }

    /// The venue did not cancel an order; the list of its open orders says what that means. An
    /// order that is not among them is over, and is reported as cancelled. One that is, or that
    /// may be, stays as it is.
    pub fn cancel_failed(
        &self,
        exchange: Exchange,
        symbol: &Symbol,
        order_id: &String,
        client_order_id: &String,
        error: &ExchangeError,
        open_orders: &Result<Vec<OrderUpdate>, ExchangeError>,
    ) -> (r: CancelReply)
        ensures
            match *open_orders {
                Err(e2) => {
                    &&& r.report is None
                    &&& r.verdict matches Err(s) && s@ == "撤单失败（"@ + domain::error_text(*error)
                        + "）且复查也失败（"@ + domain::error_text(e2) + "）"@
                },
                Ok(open) => match recheck(open@, order_id@, client_order_id@) {
                    CancelRecheckVerdict::StillOpen => {
                        &&& r.report is None
                        &&& r.verdict matches Err(s) && s@ == "撤单失败且订单仍挂在交易所: "@
                            + domain::error_text(*error)
                    },
                    CancelRecheckVerdict::Unverifiable => {
                        &&& r.report is None
                        &&& r.verdict matches Err(s) && s@ == "撤单失败且无法核实订单是否仍挂着: "@
                            + domain::error_text(*error)
                    },
                    CancelRecheckVerdict::Gone => {
                        &&& r.verdict is Ok
                        &&& r.report matches Some(u) && is_cancel_report(
                            u,
                            exchange,
                            symbol@,
                            order_id@,
                            client_order_id@,
                        )
                    },
                },
            },
    {
        let e = error.message();
        match open_orders {
            Err(e2) => {
                let mut s = joined("撤单失败（", e.as_str());
                s.append("）且复查也失败（");
                s.append(e2.message().as_str());
                s.append("）");
                CancelReply { verdict: Err(s), report: None }
            },
            Ok(open) => match cancel_recheck_verdict(
                open,
                order_id.as_str(),
                client_order_id.as_str(),
            ) {
                CancelRecheckVerdict::StillOpen => CancelReply {
                    verdict: Err(joined("撤单失败且订单仍挂在交易所: ", e.as_str())),
                    report: None,
                },
                CancelRecheckVerdict::Unverifiable => CancelReply {
                    verdict: Err(
                        joined("撤单失败且无法核实订单是否仍挂着: ", e.as_str()),
                    ),
                    report: None,
                },
                CancelRecheckVerdict::Gone => CancelReply {
                    verdict: Ok(()),
                    report: Some(order_cancelled(exchange, symbol, order_id, client_order_id)),
                },
            },
        }
    }

    /// The venue has reported on an order: what its request comes to no longer counts.
    pub fn ack(&mut self, client_order_id: &String)
        ensures
            final(self)@ == heard(old(self)@, client_order_id@),
    {
        self.in_flight.remove(client_order_id);
        assert(self@.in_flight =~= old(self)@.in_flight.remove(client_order_id@));
    }

    /// Takes in an event: a report on an order acknowledges it, any other changes nothing.
    pub fn on_event(&mut self, event: &IncomeEvent)
        ensures
            final(self)@ == (if event matches IncomeEvent::Account(e)
                && e.data matches AccountData::OrderUpdate(u) && u.client_order_id is Some {
                heard(
                    old(self)@,
                    event->Account_0.data->OrderUpdate_0.client_order_id->Some_0@,
                )
            } else {
                old(self)@
            }),
    {
        if let IncomeEvent::Account(e) = event {
            if let AccountData::OrderUpdate(update) = &e.data {
                if let Some(id) = &update.client_order_id {
                    self.ack(id);
                }
            }
        }
    }
}

/// Once the venue has reported on an order, a request that fails late tells the strategy
/// nothing, and comes to no more than that the venue has spoken.
pub proof fn a_late_failure_is_dropped(g: GatewayModel, order: Order, e: ExchangeError)
    requires
        !(e matches ExchangeError::OrderRejected(_, why) && why is ReduceOnlyClosed),
    ensures
        ({
            let g2 = heard(sent(g, order.client_order_id@), order.client_order_id@);
            &&& reply_report(g2, order, Err(e)) is None
            &&& reply_verdict(g2, order, Err(e)) == Ok::<PlaceVerdict, Seq<char>>(
                PlaceVerdict::ExchangeSpoke,
            )
        }),
{
}

/// A request that fails before the venue has reported on the order is told to the strategy, and
/// is a failure unless the position that was to be reduced is gone.
pub proof fn an_unheard_failure_is_told(g: GatewayModel, order: Order, e: ExchangeError)
    ensures
        ({
            let g2 = sent(g, order.client_order_id@);
            &&& reply_report(g2, order, Err(e)) == Some(domain::error_text(e))
            &&& !(e matches ExchangeError::OrderRejected(_, why) && why is ReduceOnlyClosed)
                ==> reply_verdict(g2, order, Err(e)) is Err
        }),
{
}

/// An order's request is judged once: after its answer, whatever comes again tells the strategy
/// nothing.
pub proof fn an_order_is_judged_once(g: GatewayModel, order: Order, again: Result<String, ExchangeError>)
    ensures
        reply_report(heard(g, order.client_order_id@), order, again) is None,
{
}

/// What a decision asks of the gateway.
#[derive(Debug)]
pub enum LiveRequest {
    Place(Order),
    Cancel {
        exchange: Exchange,
        symbol: Symbol,
        order_id: String,
        client_order_id: String,
    },
}

/// What a decision asks of the gateway: each of its orders, or its one cancellation, if it is
/// made for the real account; nothing otherwise.
pub open spec fn requests(tagged: AccountOutcome) -> Seq<LiveRequest> {
    if !(tagged.account is Live) {
        Seq::empty()
    } else {
        match tagged.event {
            OutcomeEvent::PlaceOrders { orders, .. } => orders@.map_values(
                |o: Order| LiveRequest::Place(o),
            ),
            OutcomeEvent::CancelOrder { exchange, symbol, order_id, client_order_id } => seq![
                LiveRequest::Cancel { exchange, symbol, order_id, client_order_id },
            ],
            OutcomeEvent::Emit(_) => Seq::empty(),
        }
    }
}

/// What a decision asks of the gateway.
pub fn live_requests(tagged: &AccountOutcome) -> (v: Vec<LiveRequest>)
    ensures
        v@ == requests(*tagged),
        tagged.account is Live && tagged.event is PlaceOrders ==> v@.len() == tagged.event->orders@.len() && forall|i: int|
            0 <= i < v@.len() ==> #[trigger] v@[i] == LiveRequest::Place(tagged.event->orders@[i]),
{
    let mut v: Vec<LiveRequest> = Vec::new();
    if !tagged.account.is_live() {
        return v;
    }
    match &tagged.event {
        OutcomeEvent::PlaceOrders { orders, .. } => {
            let mut i: usize = 0;
            while i < orders.len()
                invariant
                    i <= orders.len(),
                    v@.len() == i,
                    forall|j: int| 0 <= j < i ==> #[trigger] v@[j] == LiveRequest::Place(orders@[j]),
                decreases orders.len() - i,
            {
                v.push(LiveRequest::Place(orders[i].clone()));
                i = i + 1;
            }
            assert(v@ =~= orders@.map_values(|o: Order| LiveRequest::Place(o)));
        },
        OutcomeEvent::CancelOrder { exchange, symbol, order_id, client_order_id } => {
            v.push(
                LiveRequest::Cancel {
                    exchange: *exchange,
                    symbol: symbol.clone(),
                    order_id: order_id.clone(),
                    client_order_id: client_order_id.clone(),
                },
            );
            assert(v@ =~= requests(*tagged));
        },
        OutcomeEvent::Emit(_) => {},
    }
    v
}

/// For a decision of the real account to place orders, the gateway is asked for as many orders as
/// were decided, each in its place and exactly as it was decided.
pub proof fn every_order_decided_is_asked_for(tagged: AccountOutcome, i: int)
    requires
        tagged.account is Live,
        tagged.event is PlaceOrders,
    ensures
        requests(tagged).len() == tagged.event->orders@.len(),
        0 <= i < tagged.event->orders@.len() ==> requests(tagged)[i] == LiveRequest::Place(tagged.event->orders@[i]),
{
}

/// A decision of the real account to take an order back asks the gateway for that and nothing else.
pub proof fn a_cancellation_is_asked_for_once(tagged: AccountOutcome)
    requires
        tagged.account is Live,
        tagged.event is CancelOrder,
    ensures
        requests(tagged).len() == 1,
        requests(tagged)[0] is Cancel,
        requests(tagged)[0]->exchange == tagged.event->exchange,
        requests(tagged)[0]->symbol == tagged.event->symbol,
        requests(tagged)[0]->order_id == tagged.event->order_id,
        requests(tagged)[0]->client_order_id == tagged.event->client_order_id,
{
}

/// The gateway is asked for nothing on behalf of a simulated account, nor by an event of a strategy.
pub proof fn only_the_real_account_trades(tagged: AccountOutcome)
    ensures
        !(tagged.account is Live) || tagged.event is Emit ==> requests(tagged).len() == 0,
{
}

/// The lots that are ordered come to no more coins than were asked for, and to less than one smallest
/// order fewer; they are a whole number of the smallest orders.
pub proof fn lots_come_to_no_more_coins(quantity: int, meta: SymbolMeta)
    requires
        meta.contract_size > 0,
        meta.size_step > 0,
        quantity >= 0,
    ensures
        lots_for(quantity, meta) >= 0,
        lots_for(quantity, meta) % (meta.size_step as int) == 0,
        lots_for(quantity, meta) * meta.contract_size <= quantity < lots_for(quantity, meta) * meta.contract_size
            + meta.size_step * meta.contract_size,
        (lots_for(quantity, meta) * meta.contract_size) % (meta.size_step * meta.contract_size) == 0,
{
    let c = meta.contract_size as int;
    let s = meta.size_step as int;
    let d = amount::divided_down(quantity, c);
    let lots = lots_for(quantity, meta);
    amount::dividing_cuts_towards_zero(quantity, c);
    assert(d >= 0) by (nonlinear_arith)
        requires
            c > 0,
            quantity >= 0,
            quantity < c * d + c,
    ;
    amount::rounding_down_never_adds(d, s);
    let k = lots / s;
    vstd::arithmetic::div_mod::lemma_fundamental_div_mod(lots, s);
    assert(lots * c <= quantity < lots * c + s * c) by (nonlinear_arith)
        requires
            c > 0,
            lots <= d,
            d < lots + s,
            c * d <= quantity < c * d + c,
    ;
    assert(lots * c == k * (s * c)) by (nonlinear_arith)
        requires
            lots == s * k,
    ;
    assert(s * c > 0) by (nonlinear_arith)
        requires
            s > 0,
            c > 0,
    ;
    vstd::arithmetic::div_mod::lemma_mod_multiples_basic(k, s * c);
}

/// What goes to the venue is the order decided: its leg, side, kind, time in force, effect and id, in
/// lots and at a price that the venue quotes, no further than half a step from the price decided.
pub proof fn the_wire_carries_the_order(wire: ExchangeOrder, order: Order, meta: SymbolMeta)
    requires
        is_wire_order(wire, order, meta),
        unfit(order, meta) is None,
    ensures
        wire.exchange == order.exchange,
        wire.symbol == order.symbol,
        wire.side == order.side,
        wire.reduce_only == order.reduce_only,
        wire.client_order_id == order.client_order_id,
        wire.order_type is Market == order.order_type is Market,
        order.order_type matches OrderType::Limit { price, tif } ==> {
            let step = meta.price_formatter.step as int;
            &&& wire.order_type->tif == tif
            &&& step > 0 && i128::MIN + step <= price <= i128::MAX - step ==> {
                &&& price - step <= 2 * wire.order_type->price - price <= price + step
                &&& wire.order_type->price as int % step == 0
            }
            &&& step <= 0 ==> wire.order_type->price == price
        },
        meta.size_step > 0 ==> {
            &&& 0 < wire.lots * meta.contract_size <= order.quantity
            &&& order.quantity < (wire.lots + meta.size_step) * meta.contract_size
            &&& wire.lots as int % meta.size_step as int == 0
        },
        wire.lots >= meta.min_order_size,
{
    if let OrderType::Limit { price, tif } = order.order_type {
        let step = meta.price_formatter.step as int;
        if step > 0 {
            amount::rounding_moves_at_most_half_a_step(price as int, step);
            amount::rounding_lands_on_a_step(price as int, step);
        }
    }
    let c = meta.contract_size as int;
    let q = order.quantity as int;
    amount::dividing_cuts_towards_zero(q, c);
    let d = amount::divided_down(q, c);
    assert(-amount::abs(q) <= d <= amount::abs(q)) by (nonlinear_arith)
        requires
            c > 0,
            q >= 0 ==> c * d <= q < c * d + c,
            q <= 0 ==> c * d - c < q <= c * d,
            amount::abs(q) == (if q < 0 { -q } else { q }),
    ;
    if meta.size_step > 0 {
        amount::rounding_down_never_adds(d, meta.size_step as int);
        no_more_is_sent_than_asked(order, meta);
    }
}

/// An order meets its venue's rules exactly when lots have a size, and its quantity makes at least one
/// lot and at least the smallest order.
pub proof fn an_order_fits_its_venue(order: Order, meta: SymbolMeta)
    ensures
        unfit(order, meta) is None <==> meta.contract_size > 0 && lots_for(order.quantity as int, meta) > 0 && lots_for(
            order.quantity as int,
            meta,
        ) >= meta.min_order_size,
{
}

/// An order is sent exactly where its venue is connected and, unless the run is dry, its venue's rules
/// are known and met.
pub proof fn an_order_is_held_back_for_cause(g: GatewayModel, order: Order)
    ensures
        refusal(g, order) is None <==> {
            &&& g.clients.contains(order.exchange)
            &&& g.dry_run || {
                &&& g.metas.dom().contains((order.exchange, order.symbol@))
                &&& unfit(order, g.metas[(order.exchange, order.symbol@)]) is None
            }
        },
{
}

/// An order counts as still open exactly when an open order carries our id, or the venue's where that
/// is known; as over only when no open order can be it.
pub proof fn an_order_is_looked_for_by_its_ids(open: Seq<OrderUpdate>, order_id: Seq<char>, client_order_id: Seq<char>)
    ensures
        recheck(open, order_id, client_order_id) is StillOpen <==> exists|i: int|
            0 <= i < open.len() && ((#[trigger] open[i]).client_order_id is Some && open[i].client_order_id->0@
                == client_order_id || order_id.len() > 0 && open[i].order_id@ == order_id),
        recheck(open, order_id, client_order_id) is Unverifiable <==> {
            &&& !(recheck(open, order_id, client_order_id) is StillOpen)
            &&& order_id.len() == 0
            &&& exists|i: int| 0 <= i < open.len() && (#[trigger] open[i]).client_order_id is None
        },
{
    let named = exists|i: int|
        0 <= i < open.len() && ((#[trigger] open[i]).client_order_id is Some && open[i].client_order_id->0@
            == client_order_id || order_id.len() > 0 && open[i].order_id@ == order_id);
    if named {
        let i = choose|i: int|
            0 <= i < open.len() && ((#[trigger] open[i]).client_order_id is Some && open[i].client_order_id->0@
                == client_order_id || order_id.len() > 0 && open[i].order_id@ == order_id);
        assert(is_the_order(open[i], order_id, client_order_id));
    }
    if recheck(open, order_id, client_order_id) is StillOpen {
        let i = choose|i: int| 0 <= i < open.len() && is_the_order(#[trigger] open[i], order_id, client_order_id);
        assert(open[i].client_order_id is Some && open[i].client_order_id->0@ == client_order_id || order_id.len() > 0
            && open[i].order_id@ == order_id);
    }
}

/// What the gateway makes of a reply: an order that was taken is accepted; a reduction of what is
/// already gone is no failure; any other failure counts only while nothing was heard of the order.
pub proof fn a_reply_is_judged_by_what_was_heard(g: GatewayModel, order: Order, result: Result<String, ExchangeError>)
    ensures
        result is Ok ==> reply_verdict(g, order, result) == Ok::<PlaceVerdict, Seq<char>>(PlaceVerdict::Accepted),
        result is Ok ==> reply_report(g, order, result) is None,
        result matches Err(e) ==> {
            let gone = e is OrderRejected && e->OrderRejected_1 is ReduceOnlyClosed;
            let unheard = g.in_flight.contains(order.client_order_id@);
            &&& gone ==> reply_verdict(g, order, result) == Ok::<PlaceVerdict, Seq<char>>(
                PlaceVerdict::ReduceOnlyAlreadyClosed,
            )
            &&& !gone && !unheard ==> reply_verdict(g, order, result) == Ok::<PlaceVerdict, Seq<char>>(
                PlaceVerdict::ExchangeSpoke,
            )
            &&& !gone && unheard ==> reply_verdict(g, order, result) == Err::<PlaceVerdict, Seq<char>>(
                domain::error_text(e),
            )
            &&& unheard ==> reply_report(g, order, result) == Some(domain::error_text(e))
            &&& !unheard ==> reply_report(g, order, result) is None
        },
{
}

/// Sending an order and hearing of it concern that order alone: it is under way from the one to the
/// other.
pub proof fn orders_are_under_way_until_heard_of(g: GatewayModel, id: Seq<char>, other: Seq<char>)
    ensures
        sent(g, id).in_flight.contains(id),
        !heard(g, id).in_flight.contains(id),
        other != id ==> sent(g, id).in_flight.contains(other) == g.in_flight.contains(other),
        other != id ==> heard(g, id).in_flight.contains(other) == g.in_flight.contains(other),
        sent(g, id).clients == g.clients && heard(g, id).clients == g.clients,
        sent(g, id).metas == g.metas && heard(g, id).metas == g.metas,
        sent(g, id).dry_run == g.dry_run && heard(g, id).dry_run == g.dry_run,
{
}

/// A report of a failed order is on that order, says that it failed and why, and bears no id of the
/// venue's.
pub proof fn a_failure_is_reported_on_its_order(u: OrderUpdate, order: Order, reason: Seq<char>)
    requires
        is_error_report(u, order, reason),
    ensures
        u.status is Error,
        u.status->Error_reason@ == reason,
        u.client_order_id == Some(order.client_order_id),
        u.exchange == order.exchange,
        u.symbol == order.symbol,
        u.side == order.side,
        u.quantity == order.quantity,
        u.order_id@.len() == 0,
{
    reveal_strlit("");
}

/// A report of an order found to be over is on that order and says that it was cancelled; it tells of no
/// quantity.
pub proof fn a_cancellation_is_reported_on_its_order(
    u: OrderUpdate,
    exchange: Exchange,
    symbol: Seq<char>,
    order_id: Seq<char>,
    client_order_id: Seq<char>,
)
    requires
        is_cancel_report(u, exchange, symbol, order_id, client_order_id),
    ensures
        u.status is Cancelled,
        u.exchange == exchange,
        u.symbol@ == symbol,
        u.order_id@ == order_id,
        u.client_order_id is Some,
        u.client_order_id->0@ == client_order_id,
        u.quantity == 0,
        u.side is Long,
{
}

} // verus!
