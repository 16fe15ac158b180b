//! Which events concern a strategy.

use vstd::prelude::*;
use crate::domain::{Exchange, Symbol};
use crate::event::{Delivery, IncomeEvent, Reach};
use crate::event;
use crate::table::{Key, Table};
use crate::table;

verus! {

/// Whether an event that belongs to `reach` concerns a subscriber to these legs: its leg is one
/// of them, or its venue is that of one of them, or it belongs everywhere.
pub open spec fn concerns(legs: Set<(Exchange, Seq<char>)>, reach: Reach) -> bool {
    match reach {
        Reach::Symbol(exchange, symbol) => legs.contains((exchange, symbol)),
        Reach::Exchange(exchange) => exists|symbol: Seq<char>| legs.contains((exchange, symbol)),
        Reach::Broadcast => true,
    }
}

/// The ids of a list of legs.
pub open spec fn leg_set(pairs: Seq<(Exchange, Symbol)>) -> Set<(Exchange, Seq<char>)> {
    Set::new(|id: (Exchange, Seq<char>)| exists|i: int| 0 <= i < pairs.len() && (#[trigger] pairs[i]).id() == id)
}

/// A list has one more leg when it is put at the end.
pub proof fn lemma_leg_set_push(pairs: Seq<(Exchange, Symbol)>, new: (Exchange, Symbol))
    ensures
        leg_set(pairs.push(new)) == leg_set(pairs).insert(new.id()),
{
    let now = pairs.push(new);
    assert forall|id: (Exchange, Seq<char>)|
        leg_set(now).contains(id) == leg_set(pairs).insert(new.id()).contains(id) by {
        if leg_set(now).contains(id) {
            let j = choose|j: int| 0 <= j < now.len() && (#[trigger] now[j]).id() == id;
            if j < pairs.len() {
                assert(pairs[j].id() == id);
            }
        }
        if leg_set(pairs).contains(id) {
            let j = choose|j: int| 0 <= j < pairs.len() && (#[trigger] pairs[j]).id() == id;
            assert(now[j].id() == id);
        }
        if id == new.id() {
            assert(now[pairs.len() as int].id() == id);
        }
    }
    assert(leg_set(now) =~= leg_set(pairs).insert(new.id()));
}

/// No leg comes twice.
pub open spec fn distinct_legs(pairs: Seq<(Exchange, Symbol)>) -> bool {
    forall|i: int, j: int| 0 <= i < j < pairs.len() ==> (#[trigger] pairs[i]).id() != (#[trigger] pairs[j]).id()
}

/// Whether one of the legs is of this instrument.
pub open spec fn traded(legs: Set<(Exchange, Seq<char>)>, symbol: Seq<char>) -> bool {
    exists|exchange: Exchange| #[trigger] legs.contains((exchange, symbol))
}

/// Whether the list holds the text.
pub open spec fn listed(list: Seq<String>, text: Seq<char>) -> bool {
    exists|i: int| 0 <= i < list.len() && (#[trigger] list[i])@ == text
}

/// No text comes twice.
pub open spec fn no_repeats(list: Seq<String>) -> bool {
    forall|i: int, j: int| 0 <= i < j < list.len() ==> (#[trigger] list[i])@ != (#[trigger] list[j])@
}

/// The legs that a strategy subscribes to.
pub struct SubscriptionScope {
    legs: Table<(Exchange, Symbol), ()>,
}

impl View for SubscriptionScope {
    type V = Set<(Exchange, Seq<char>)>;

    closed spec fn view(&self) -> Set<(Exchange, Seq<char>)> {
        self.legs@.dom()
    }
}

impl SubscriptionScope {
    /// The legs in the order in which they first came, each once.
    pub closed spec fn list(&self) -> Seq<((Exchange, Symbol), ())> {
        self.legs.entries()
    }

    /// The scope of these legs; one that comes twice counts once.
    pub fn from_pairs(pairs: &Vec<(Exchange, Symbol)>) -> (s: Self)
        ensures
            s@ == leg_set(pairs@),
    {
        let mut legs: Table<(Exchange, Symbol), ()> = Table::new();
        let mut i: usize = 0;
        assert(legs@.dom() =~= leg_set(pairs@.take(0)));
        while i < pairs.len()
            invariant
                i <= pairs.len(),
                legs@.dom() == leg_set(pairs@.take(i as int)),
            decreases pairs.len() - i,
        {
            let ghost before = legs@.dom();
            let ghost seen = pairs@.take(i as int);
            legs.insert(pairs[i].copy(), ());
            proof {
                assert(pairs@.take(i + 1) =~= seen.push(pairs@[i as int]));
                lemma_leg_set_push(seen, pairs@[i as int]);
                assert(legs@.dom() =~= before.insert(pairs@[i as int].id()));
            }
            i = i + 1;
        }
        assert(pairs@.take(i as int) =~= pairs@);
        SubscriptionScope { legs }
    }

    /// The legs, each once.
    pub fn pairs(&self) -> (v: Vec<(Exchange, Symbol)>)
        ensures
            leg_set(v@) == self@,
            distinct_legs(v@),
    {
        let n = self.legs.len();
        let mut v: Vec<(Exchange, Symbol)> = Vec::new();
        let mut i: usize = 0;
        while i < n
            invariant
                i <= n,
                n == self.legs.entries().len(),
                v@.len() == i,
                forall|j: int| 0 <= j < i ==> (#[trigger] v@[j]) == self.legs.entries()[j].0,
            decreases n - i,
        {
            v.push(self.legs.key_at(i).copy());
            i = i + 1;
        }
        proof {
            use_type_invariant(&self.legs);
            let e = self.legs.entries();
            assert forall|id: (Exchange, Seq<char>)| leg_set(v@).contains(id) == self@.contains(id) by {
                if leg_set(v@).contains(id) {
                    let j = choose|j: int| 0 <= j < v@.len() && (#[trigger] v@[j]).id() == id;
                    table::lemma_entry_in_map(e, j);
                }
                if self@.contains(id) {
                    let j = choose|j: int| #[trigger] table::names(e, j, id);
                    assert(v@[j].id() == id);
                }
            }
            assert(leg_set(v@) =~= self@);
        }
        v
    }

    /// The instruments of the legs, each once.
    pub fn symbols(&self) -> (v: Vec<Symbol>)
        ensures
            no_repeats(v@),
            forall|s: Seq<char>| #[trigger] listed(v@, s) == traded(self@, s),
    {
        let pairs = self.pairs();
        let v = symbols_of(&pairs);
        v
    }

    /// Whether the leg is one of those that are followed.
    pub fn follows(&self, leg: &(Exchange, Symbol)) -> (b: bool)
        ensures
            b == self@.contains(leg.id()),
    {
        self.legs.contains_key(leg)
    }

    /// Whether an event that belongs there concerns the subscriber.
    pub fn accepts_delivery(&self, delivery: &Delivery) -> (b: bool)
        ensures
            b == concerns(self@, delivery@),
    {
        match delivery {
            Delivery::Symbol(exchange, symbol) => self.legs.contains_key(
                &(*exchange, symbol.clone()),
            ),
            Delivery::Exchange(exchange) => {
                let n = self.legs.len();
                let mut i: usize = 0;
                while i < n
                    invariant
                        i <= n,
                        n == self.legs.entries().len(),
                        self.legs.inv(),
                        delivery@ == Reach::Exchange(*exchange),
                        forall|j: int| 0 <= j < i ==> (#[trigger] self.legs.entries()[j]).0.0 != *exchange,
                    decreases n - i,
                {
                    if self.legs.key_at(i).0 == *exchange {
                        proof {
                            let leg = self.legs.entries()[i as int].0;
                            table::lemma_entry_in_map(self.legs.entries(), i as int);
                            assert(self@.contains((*exchange, leg.1@)));
                        }
                        return true;
                    }
                    i = i + 1;
                }
                proof {
                    assert forall|symbol: Seq<char>| !self@.contains((*exchange, symbol)) by {
                        if self@.contains((*exchange, symbol)) {
                            let j = choose|j: int| #[trigger] table::names(self.legs.entries(), j, (*exchange, symbol));
                            assert(self.legs.entries()[j].0.0 == *exchange);
                        }
                    }
                }
                false
            },
            Delivery::Broadcast => true,
        }
    }

    /// Whether the event concerns the subscriber.
    pub fn accepts(&self, event: &IncomeEvent) -> (b: bool)
        ensures
            b == concerns(self@, event::reach(*event)),
    {
        self.accepts_delivery(&event.delivery())
    }
}

/// The instruments of these legs, each once.
pub fn symbols_of(pairs: &Vec<(Exchange, Symbol)>) -> (v: Vec<Symbol>)
    ensures
        no_repeats(v@),
        forall|s: Seq<char>| #[trigger] listed(v@, s) == traded(leg_set(pairs@), s),
{
    let mut v: Vec<Symbol> = Vec::new();
    let mut i: usize = 0;
    while i < pairs.len()
        invariant
            i <= pairs.len(),
            no_repeats(v@),
            forall|a: int| 0 <= a < i ==> listed(v@, (#[trigger] pairs@[a]).1@),
            forall|s: Seq<char>| #[trigger] listed(v@, s) ==> traded(leg_set(pairs@), s),
        decreases pairs.len() - i,
    {
        let ghost before = v@;
        if !contains_symbol(&v, &pairs[i].1) {
            v.push(pairs[i].1.clone());
            proof {
                let new = pairs@[i as int];
                assert(new.id() == (new.0, new.1@));
                assert(leg_set(pairs@).contains((new.0, new.1@)));
                assert(v@[before.len() as int]@ == new.1@);
                lemma_listed_push(before, v@[before.len() as int]);
            }
        }
        i = i + 1;
    }
    assert forall|s: Seq<char>| #[trigger] listed(v@, s) == traded(leg_set(pairs@), s) by {
        if traded(leg_set(pairs@), s) {
            let e = choose|e: Exchange| #[trigger] leg_set(pairs@).contains((e, s));
            let a = choose|a: int| 0 <= a < pairs@.len() && (#[trigger] pairs@[a]).id() == (e, s);
            assert(listed(v@, pairs@[a].1@));
        }
    }
    v
}

/// A list holds one more text when it is put at the end.
pub proof fn lemma_listed_push(list: Seq<String>, new: String)
    ensures
        forall|s: Seq<char>| #[trigger] listed(list.push(new), s) == (listed(list, s) || s == new@),
{
    assert forall|s: Seq<char>| #[trigger] listed(list.push(new), s) == (listed(list, s) || s == new@) by {
        if listed(list, s) {
            let i = choose|i: int| 0 <= i < list.len() && (#[trigger] list[i])@ == s;
            assert(list.push(new)[i]@ == s);
        }
        if s == new@ {
            assert(list.push(new)[list.len() as int]@ == s);
        }
        if listed(list.push(new), s) && s != new@ {
            let i = choose|i: int| 0 <= i < list.push(new).len() && (#[trigger] list.push(new)[i])@ == s;
            assert(list[i]@ == s);
        }
    }
}

/// Whether the list holds the instrument.
pub fn contains_symbol(list: &Vec<Symbol>, symbol: &Symbol) -> (b: bool)
    ensures
        b == listed(list@, symbol@),
{
    let mut i: usize = 0;
    while i < list.len()
        invariant
            i <= list.len(),
            forall|j: int| 0 <= j < i ==> (#[trigger] list@[j])@ != symbol@,
        decreases list.len() - i,
    {
        if list[i] == *symbol {
            return true;
        }
        i = i + 1;
    }
    false
}

} // verus!
