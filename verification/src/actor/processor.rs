//! Hands what venues say to those whom it concerns.

use vstd::prelude::*;
use crate::actor::{ExchangeEvent, ExchangeEventData};
use crate::domain::{Exchange, Symbol};
use crate::live::income_processor::ActorId;
use crate::scope;
use crate::scope::SubscriptionScope;
use crate::subscription;
use crate::subscription::{legs, SubscriptionKind};
use crate::table;
use crate::table::{Key, Table};

verus! {

/// To whom an event goes.
#[derive(Debug)]
pub enum EventRouting {
    /// To those who follow the leg.
    BySymbol { exchange: Exchange, symbol: Symbol },
    /// To everyone.
    Broadcast,
}

/// The leg that an event names, if it names one; what concerns a whole account, and the clock,
/// name none.
pub open spec fn leg_of(data: ExchangeEventData) -> Option<(Exchange, Seq<char>)> {
    match data {
        ExchangeEventData::FundingRate(x) => Some((x.exchange, x.symbol@)),
        ExchangeEventData::BBO(x) => Some((x.exchange, x.symbol@)),
        ExchangeEventData::Position(x) => Some((x.exchange, x.symbol@)),
        ExchangeEventData::OrderUpdate(x) => Some((x.exchange, x.symbol@)),
        ExchangeEventData::Balance { .. } => None,
        ExchangeEventData::Equity { .. } => None,
        ExchangeEventData::Clock => None,
    }
}

/// Those whom an event concerns.
pub open spec fn receivers(entries: Seq<(u64, SubscriptionScope)>, data: ExchangeEventData) -> Seq<ActorId>
    decreases entries.len(),
{
    if entries.len() == 0 {
        Seq::empty()
    } else {
        let earlier = receivers(entries.drop_last(), data);
        let (id, scope) = entries.last();
        let hears = match leg_of(data) {
            Some(leg) => scope@.contains(leg),
            None => true,
        };
        if hears {
            earlier.push(id)
        } else {
            earlier
        }
    }
}

/// Hands events on.
pub struct ProcessorActor {
    executors: Table<u64, SubscriptionScope>,
}

impl Default for ProcessorActor {
    fn default() -> (p: Self)
        ensures
            p.list().len() == 0,
    {
        ProcessorActor::new()
    }
}

impl ProcessorActor {
    /// Those who registered, in the order in which they first did.
    pub closed spec fn list(&self) -> Seq<(u64, SubscriptionScope)> {
        self.executors.entries()
    }

    /// The legs that each follows.
    pub closed spec fn following(&self) -> Map<u64, SubscriptionScope> {
        self.executors@
    }

    /// Nobody has registered.
    pub fn new() -> (p: Self)
        ensures
            p.list().len() == 0,
            p.following() == Map::<u64, SubscriptionScope>::empty(),
    {
        ProcessorActor { executors: Table::new() }
    }

    /// Whom an event concerns.
    pub fn event_routing(event: &ExchangeEvent) -> (r: EventRouting)
        ensures
            match r {
                EventRouting::BySymbol { exchange, symbol } => leg_of(event.data) == Some((exchange, symbol@)),
                EventRouting::Broadcast => leg_of(event.data) is None,
            },
    {
        match &event.data {
            ExchangeEventData::FundingRate(x) => EventRouting::BySymbol {
                exchange: x.exchange,
                symbol: x.symbol.clone(),
            },
            ExchangeEventData::BBO(x) => EventRouting::BySymbol {
                exchange: x.exchange,
                symbol: x.symbol.clone(),
            },
            ExchangeEventData::Position(x) => EventRouting::BySymbol {
                exchange: x.exchange,
                symbol: x.symbol.clone(),
            },
            ExchangeEventData::OrderUpdate(x) => EventRouting::BySymbol {
                exchange: x.exchange,
                symbol: x.symbol.clone(),
            },
            ExchangeEventData::Balance { .. } => EventRouting::Broadcast,
            ExchangeEventData::Equity { .. } => EventRouting::Broadcast,
            ExchangeEventData::Clock => EventRouting::Broadcast,
        }
    }

    /// Somebody follows the legs of these streams; what they followed before no longer counts.
    pub fn register(&mut self, executor: ActorId, subscriptions: &Vec<(Exchange, SubscriptionKind)>)
        ensures
            final(self).following().dom() == old(self).following().dom().insert(executor),
            final(self).following()[executor]@ == scope::leg_set(subscription::legs_of(subscriptions@)),
            forall|id: u64| id != executor && #[trigger] old(self).following().dom().contains(id) ==> final(self).following()[id]
                == old(self).following()[id],
    {
        let scope = SubscriptionScope::from_pairs(&legs(subscriptions));
        self.executors.insert(executor, scope);
        assert(self.following().dom() =~= old(self).following().dom().insert(executor));
    }

    /// Those whom an event concerns.
    pub fn route(&self, event: &ExchangeEvent) -> (v: Vec<ActorId>)
        ensures
            v@ == receivers(self.list(), event.data),
            table::lists(self.list(), self.following()),
    {
        proof {
            use_type_invariant(&self.executors);
        }
        let routing = Self::event_routing(event);
        let leg = match routing {
            EventRouting::BySymbol { exchange, symbol } => Some((exchange, symbol)),
            EventRouting::Broadcast => None,
        };
        let n = self.executors.len();
        let ghost all = self.executors.entries();
        let mut v: Vec<ActorId> = Vec::new();
        let mut i: usize = 0;
        while i < n
            invariant
                i <= n,
                n == all.len(),
                all == self.executors.entries(),
                match leg {
                    Some(l) => leg_of(event.data) == Some(l.id()),
                    None => leg_of(event.data) is None,
                },
                v@ == receivers(all.take(i as int), event.data),
            decreases n - i,
        {
            assert(all.take(i + 1).drop_last() =~= all.take(i as int));
            let hears = match &leg {
                Some(l) => self.executors.value_at(i).follows(l),
                None => true,
            };
            if hears {
                v.push(*self.executors.key_at(i));
            }
            i = i + 1;
        }
        assert(all.take(i as int) =~= all);
        v
    }
}

/// Someone who follows a leg gets all that is said of it, and nothing that is said of another.
pub proof fn only_followers_hear_of_a_leg(entries: Seq<(u64, SubscriptionScope)>, data: ExchangeEventData, i: int)
    requires
        0 <= i < entries.len(),
        leg_of(data) is Some,
        table::distinct_keys(entries),
    ensures
        receivers(entries, data).contains(entries[i].0) == entries[i].1@.contains(leg_of(data)->0),
    decreases entries.len(),
{
    let rest = entries.drop_last();
    let earlier = receivers(rest, data);
    let all = receivers(entries, data);
    assert forall|a: int, b: int| 0 <= a < b < rest.len() implies (#[trigger] rest[a]).0.id() != (#[trigger] rest[b]).0.id() by {
        assert(entries[a].0.id() != entries[b].0.id());
    }
    if i < entries.len() - 1 {
        only_followers_hear_of_a_leg(rest, data, i);
        assert(rest[i] == entries[i]);
        assert(entries[i].0.id() != entries[entries.len() - 1].0.id());
        if earlier.contains(entries[i].0) {
            let k = choose|k: int| 0 <= k < earlier.len() && earlier[k] == entries[i].0;
            assert(all[k] == entries[i].0);
        }
        if all.contains(entries[i].0) {
            let k = choose|k: int| 0 <= k < all.len() && all[k] == entries[i].0;
            assert(earlier[k] == entries[i].0);
        }
    } else {
        if earlier.contains(entries[i].0) {
            lemma_receivers_are_listed(rest, data, entries[i].0);
            let k = choose|k: int| 0 <= k < rest.len() && (#[trigger] rest[k]).0 == entries[i].0;
            assert(entries[k].0.id() != entries[i].0.id());
        }
        if all.contains(entries[i].0) && !entries[i].1@.contains(leg_of(data)->0) {
            assert(all == earlier);
        }
        if entries[i].1@.contains(leg_of(data)->0) {
            assert(all[all.len() - 1] == entries[i].0);
        }
    }
}

proof fn lemma_receivers_are_listed(entries: Seq<(u64, SubscriptionScope)>, data: ExchangeEventData, id: u64)
    requires
        receivers(entries, data).contains(id),
    ensures
        exists|k: int| 0 <= k < entries.len() && (#[trigger] entries[k]).0 == id,
    decreases entries.len(),
{
    if entries.len() > 0 {
        let rest = entries.drop_last();
        let earlier = receivers(rest, data);
        let all = receivers(entries, data);
        let j = choose|j: int| 0 <= j < all.len() && all[j] == id;
        if j < earlier.len() {
            assert(earlier[j] == id);
            lemma_receivers_are_listed(rest, data, id);
            let k = choose|k: int| 0 <= k < rest.len() && (#[trigger] rest[k]).0 == id;
            assert(entries[k].0 == id);
        } else {
            assert(entries[entries.len() - 1].0 == id);
        }
    }
}

/// What a venue says of a leg is of the leg that it names, and anything else of none.
pub proof fn words_are_of_the_leg_they_name(data: ExchangeEventData)
    ensures
        data matches ExchangeEventData::FundingRate(x) ==> leg_of(data) == Some((x.exchange, x.symbol@)),
        data matches ExchangeEventData::BBO(x) ==> leg_of(data) == Some((x.exchange, x.symbol@)),
        data matches ExchangeEventData::Position(x) ==> leg_of(data) == Some((x.exchange, x.symbol@)),
        data matches ExchangeEventData::OrderUpdate(x) ==> leg_of(data) == Some((x.exchange, x.symbol@)),
        data is Balance || data is Equity || data is Clock ==> leg_of(data) is None,
{
}

/// Those who hear of something are all who follow its leg, or all where it is of none, in their order.
pub proof fn all_followers_hear_in_their_order(entries: Seq<(u64, SubscriptionScope)>, data: ExchangeEventData)
    ensures
        receivers(entries, data) == entries.filter(
            |e: (u64, SubscriptionScope)| leg_of(data) is None || e.1@.contains(leg_of(data)->0),
        ).map_values(|e: (u64, SubscriptionScope)| e.0),
    decreases entries.len(),
{
    table::lemma_picked(
        entries,
        |e: (u64, SubscriptionScope)| leg_of(data) is None || e.1@.contains(leg_of(data)->0),
        |e: (u64, SubscriptionScope)| e.0,
    );
    if entries.len() > 0 {
        all_followers_hear_in_their_order(entries.drop_last(), data);
    }
}

} // verus!
