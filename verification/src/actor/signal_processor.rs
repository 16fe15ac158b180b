//! Sends orders to the venues, and tells the strategies when that failed.

use vstd::prelude::*;
use crate::actor::{ExchangeEvent, ExchangeEventData};
use crate::domain;
use crate::domain::{Exchange, ExchangeError, Order, OrderStatus, OrderUpdate, Timestamp};
use crate::table::Table;
use crate::text::joined;

verus! {

/// What the processor is set up with.
pub struct SignalProcessorArgs {
    /// The venues to which orders can be sent.
    pub clients: Table<Exchange, ()>,
}

/// Sends orders.
pub struct SignalProcessorActor {
    clients: Table<Exchange, ()>,
}

/// What to do with an order.
#[derive(Debug)]
pub enum SignalStep {
    /// Send it to its venue.
    Send,
    /// Tell that it could not be sent.
    Tell(ExchangeEvent),
}

/// Whether the event tells that an order failed, and why.
pub open spec fn tells_failure(e: ExchangeEvent, order: Order, reason: Seq<char>, now: Timestamp) -> bool {
    &&& e.exchange_ts == now
    &&& e.local_ts == now
    &&& e.data matches ExchangeEventData::OrderUpdate(u)
    &&& u.order_id@ == ""@
    &&& u.client_order_id == Some(order.client_order_id)
    &&& u.exchange == order.exchange
    &&& u.symbol == order.symbol
    &&& u.side == order.side
    &&& u.quantity == order.quantity
    &&& u.status matches OrderStatus::Error { reason: r }
    &&& r@ == reason
}

fn order_error(order: &Order, reason: String, now: Timestamp) -> (e: ExchangeEvent)
    ensures
        tells_failure(e, *order, reason@, now),
{
    ExchangeEvent {
        exchange_ts: now,
        local_ts: now,
        data: ExchangeEventData::OrderUpdate(
            OrderUpdate {
                order_id: "".to_owned(),
                client_order_id: Some(order.client_order_id.clone()),
                exchange: order.exchange,
                symbol: order.symbol.clone(),
                side: order.side,
                status: OrderStatus::Error { reason },
                quantity: order.quantity,
            },
        ),
    }
}

impl SignalProcessorActor {
    /// The venues to which orders can be sent.
    pub closed spec fn venues(&self) -> Set<Exchange> {
        self.clients@.dom()
    }

    /// A processor for these venues.
    pub fn new(args: SignalProcessorArgs) -> (p: Self)
        ensures
            p.venues() == args.clients@.dom(),
    {
        SignalProcessorActor { clients: args.clients }
    }

    /// What to do with an order: it is sent, or it is told that its venue cannot be reached.
    pub fn place(&self, order: &Order, now: Timestamp) -> (s: SignalStep)
        ensures
            match s {
                SignalStep::Send => self.venues().contains(order.exchange),
                SignalStep::Tell(e) => !self.venues().contains(order.exchange) && tells_failure(
                    e,
                    *order,
                    "No client found for exchange "@ + domain::exchange_name(order.exchange),
                    now,
                ),
            },
    {
        if self.clients.contains_key(&order.exchange) {
            SignalStep::Send
        } else {
            SignalStep::Tell(
                order_error(order, joined("No client found for exchange ", order.exchange.name()), now),
            )
        }
    }

    /// What the venue's answer to an order means: a failure is told, a success is not, for the
    /// venue reports on the order itself.
    pub fn on_reply(&self, order: &Order, result: &Result<String, ExchangeError>, now: Timestamp) -> (r: Option<ExchangeEvent>)
        ensures
            match result {
                Ok(_) => r is None,
                Err(e) => r matches Some(told) && tells_failure(told, *order, domain::error_text(*e), now),
            },
    {
        match result {
            Ok(_) => None,
            Err(e) => Some(order_error(order, e.message(), now)),
        }
    }
}

/// What tells of a failed order is a report on that order that says so and why, as of now.
pub proof fn a_failed_order_is_told_as_such(e: ExchangeEvent, order: Order, reason: Seq<char>, now: Timestamp)
    requires
        tells_failure(e, order, reason, now),
    ensures
        e.exchange_ts == now,
        e.local_ts == now,
        e.data is OrderUpdate,
        e.data->OrderUpdate_0.status is Error,
        e.data->OrderUpdate_0.status->Error_reason@ == reason,
        e.data->OrderUpdate_0.client_order_id == Some(order.client_order_id),
        e.data->OrderUpdate_0.exchange == order.exchange,
        e.data->OrderUpdate_0.symbol == order.symbol,
        e.data->OrderUpdate_0.side == order.side,
        e.data->OrderUpdate_0.quantity == order.quantity,
        e.data->OrderUpdate_0.order_id@.len() == 0,
{
    reveal_strlit("");
}

} // verus!
