//! Hands events to the strategies that they concern.
//!
//! Market data serves every account: it goes to all who subscribe to its leg, or to its venue, or
//! to everyone. An account's event goes to the strategies of that account only.

use vstd::prelude::*;
use crate::domain::{AccountId, AccountKey, Exchange, Symbol};
use crate::event;
use crate::event::{AccountEvent, Delivery, MarketEvent};
use crate::scope;
use crate::scope::SubscriptionScope;
use crate::subscription;
use crate::subscription::{legs, SubscriptionKind};
use crate::table;
use crate::table::{Key, Table};

verus! {

/// Identifies a running strategy.
pub type ActorId = u64;

/// What a strategy is registered for.
pub struct ExecutorSubscription {
    scope: SubscriptionScope,
    account: AccountId,
}

/// What a strategy is registered for.
pub struct Registration {
    pub legs: Set<(Exchange, Seq<char>)>,
    pub account: AccountKey,
}

impl View for ExecutorSubscription {
    type V = Registration;

    closed spec fn view(&self) -> Registration {
        Registration { legs: self.scope@, account: self.account@ }
    }
}

/// A strategy and what it wants.
pub struct RegisterExecutor {
    pub executor: ActorId,
    pub subscriptions: Vec<(Exchange, SubscriptionKind)>,
    pub account: AccountId,
}

/// A strategy that is to get nothing more.
pub struct UnregisterExecutor {
    pub executor: ActorId,
}

/// Who is listed under a key.
pub open spec fn under<I>(index: Map<I, Vec<ActorId>>, key: I) -> Seq<ActorId> {
    if index.dom().contains(key) {
        index[key]@
    } else {
        Seq::empty()
    }
}

/// The list without one id.
pub open spec fn without(list: Seq<ActorId>, id: ActorId) -> Seq<ActorId>
    decreases list.len(),
{
    if list.len() == 0 {
        list
    } else if list.last() == id {
        without(list.drop_last(), id)
    } else {
        without(list.drop_last(), id).push(list.last())
    }
}

/// Taking an id out of a list takes out that id alone.
proof fn lemma_without(list: Seq<ActorId>, id: ActorId)
    ensures
        forall|x: ActorId| #[trigger] without(list, id).contains(x) == (list.contains(x) && x != id),
        list.no_duplicates() ==> without(list, id).no_duplicates(),
        !list.contains(id) ==> without(list, id) == list,
    decreases list.len(),
{
    if list.len() > 0 {
        let rest = list.drop_last();
        lemma_without(rest, id);
        assert(list =~= rest.push(list.last()));
        assert forall|x: ActorId| #[trigger] without(list, id).contains(x) == (list.contains(x) && x != id) by {
            lemma_push_contains(rest, list.last(), x);
            lemma_push_contains(without(rest, id), list.last(), x);
        }
        if list.no_duplicates() {
            assert(rest.no_duplicates()) by {
                assert forall|i: int, j: int| 0 <= i < rest.len() && 0 <= j < rest.len() && i != j implies rest[i] != rest[j] by {
                    assert(list[i] != list[j]);
                }
            }
            assert(!rest.contains(list.last())) by {
                if rest.contains(list.last()) {
                    let i = choose|i: int| 0 <= i < rest.len() && rest[i] == list.last();
                    assert(list[i] == list[list.len() - 1]);
                }
            }
            if list.last() != id {
                lemma_push_no_duplicates(without(rest, id), list.last());
            }
        }
        if !list.contains(id) {
            lemma_push_contains(rest, list.last(), id);
            assert(list[list.len() - 1] != id);
        }
    }
}

proof fn lemma_push_contains(s: Seq<ActorId>, x: ActorId, y: ActorId)
    ensures
        s.push(x).contains(y) == (s.contains(y) || x == y),
{
    if s.contains(y) {
        let i = choose|i: int| 0 <= i < s.len() && s[i] == y;
        assert(s.push(x)[i] == y);
    }
    if x == y {
        assert(s.push(x)[s.len() as int] == y);
    }
    if s.push(x).contains(y) && x != y {
        let i = choose|i: int| 0 <= i < s.push(x).len() && s.push(x)[i] == y;
        assert(s[i] == y);
    }
}

proof fn lemma_push_no_duplicates(s: Seq<ActorId>, x: ActorId)
    requires
        s.no_duplicates(),
        !s.contains(x),
    ensures
        s.push(x).no_duplicates(),
{
    assert forall|i: int, j: int| 0 <= i < s.push(x).len() && 0 <= j < s.push(x).len() && i != j implies s.push(x)[i] != s.push(x)[j] by {
        if i == s.len() {
            assert(s[j] == s.push(x)[j]);
            assert(s.contains(s[j]));
        } else if j == s.len() {
            assert(s[i] == s.push(x)[i]);
            assert(s.contains(s[i]));
        }
    }
}

/// Lists an id under a key.
fn list_under<K: Key>(index: &mut Table<K, Vec<ActorId>>, key: K, id: ActorId)
    ensures
        forall|k: K::Id| #[trigger] under(final(index)@, k) == if k == key.id() {
            under(old(index)@, k).push(id)
        } else {
            under(old(index)@, k)
        },
{
    match index.position(&key) {
        Some(at) => {
            let mut list = index.replace_at(at, Vec::new());
            list.push(id);
            index.replace_at(at, list);
        },
        None => {
            let mut list: Vec<ActorId> = Vec::new();
            list.push(id);
            assert(list@ =~= Seq::<ActorId>::empty().push(id));
            index.insert(key, list);
        },
    }
}

/// The list without one id.
pub(crate) fn drop_id(list: &Vec<ActorId>, id: ActorId) -> (r: Vec<ActorId>)
    ensures
        r@ == without(list@, id),
{
    let mut r: Vec<ActorId> = Vec::new();
    let mut i: usize = 0;
    assert(r@ =~= without(list@.take(0), id));
    while i < list.len()
        invariant
            i <= list.len(),
            r@ == without(list@.take(i as int), id),
        decreases list.len() - i,
    {
        assert(list@.take(i + 1).drop_last() =~= list@.take(i as int));
        if list[i] != id {
            r.push(list[i]);
        }
        i = i + 1;
    }
    assert(list@.take(i as int) =~= list@);
    r
}

/// Takes an id off the list under a key; a list that is empty then goes.
fn unlist_under<K: Key>(index: &mut Table<K, Vec<ActorId>>, key: &K, id: ActorId)
    ensures
        forall|k: K::Id| #[trigger] under(final(index)@, k) == if k == key.id() {
            without(under(old(index)@, k), id)
        } else {
            under(old(index)@, k)
        },
{
    if let Some(at) = index.position(key) {
        let list = index.replace_at(at, Vec::new());
        let rest = drop_id(&list, id);
        if rest.len() == 0 {
            assert(rest@ =~= Seq::<ActorId>::empty());
            index.remove(key);
        } else {
            index.replace_at(at, rest);
        }
    } else {
        assert(without(Seq::<ActorId>::empty(), id) =~= Seq::<ActorId>::empty());
    }
}

/// Hands events to the strategies that they concern.
pub struct IncomeProcessorActor {
    executors: Table<ActorId, ExecutorSubscription>,
    by_symbol: Table<(Exchange, Symbol), Vec<ActorId>>,
    by_account: Table<AccountId, Vec<ActorId>>,
}

/// Whether the index lists under each key exactly those to whom it belongs, each once.
pub open spec fn indexes<I>(
    index: Map<I, Vec<ActorId>>,
    table: Map<ActorId, ExecutorSubscription>,
    belongs: spec_fn(Registration, I) -> bool,
) -> bool {
    &&& forall|k: I| (#[trigger] under(index, k)).no_duplicates()
    &&& forall|k: I, id: ActorId| #[trigger] under(index, k).contains(id) == (table.dom().contains(id) && belongs(table[id]@, k))
}

/// Whether a strategy subscribes to a leg.
pub open spec fn on_leg() -> spec_fn(Registration, (Exchange, Seq<char>)) -> bool {
    |r: Registration, k: (Exchange, Seq<char>)| r.legs.contains(k)
}

/// Whether a strategy is an account's.
pub open spec fn of_account() -> spec_fn(Registration, AccountKey) -> bool {
    |r: Registration, k: AccountKey| r.account == k
}

/// Those who are registered.
pub open spec fn registrations(m: Map<ActorId, ExecutorSubscription>) -> Map<ActorId, Registration> {
    m.map_values(|s: ExecutorSubscription| s@)
}

/// Whether a strategy gets market data: it is registered, and the data concerns its legs. Whose
/// it is does not matter.
pub open spec fn hears_market(t: Map<ActorId, Registration>, id: ActorId, event: MarketEvent) -> bool {
    t.dom().contains(id) && scope::concerns(t[id].legs, event::market_reach(event.data))
}

/// Whether a strategy gets an account's event: it is registered, it is that account's, and the
/// event concerns its legs.
pub open spec fn hears_account(t: Map<ActorId, Registration>, id: ActorId, event: AccountEvent) -> bool {
    t.dom().contains(id) && t[id].account == event.account@ && scope::concerns(
        t[id].legs,
        event::account_reach(event.data),
    )
}

/// Whether a strategy of a simulated account misses a report on an instrument that it does not
/// follow.
pub open spec fn misses_report(t: Map<ActorId, Registration>, id: ActorId, event: AccountEvent) -> bool {
    &&& event.account is Paper
    &&& event::account_reach(event.data) is Symbol
    &&& t.dom().contains(id)
    &&& t[id].account == event.account@
    &&& !scope::concerns(t[id].legs, event::account_reach(event.data))
}

/// No report on an instrument is lost on a simulated account unseen: each of its strategies hears
/// it, or is told to have missed it, and never both.
pub proof fn no_report_is_lost_unseen(t: Map<ActorId, Registration>, id: ActorId, event: AccountEvent)
    requires
        event.account is Paper,
        event::account_reach(event.data) is Symbol,
        t.dom().contains(id),
        t[id].account == event.account@,
    ensures
        hears_account(t, id, event) != misses_report(t, id, event),
{
}

/// One account's events never reach another account's strategies.
pub proof fn accounts_are_kept_apart(t: Map<ActorId, Registration>, id: ActorId, event: AccountEvent)
    requires
        t.dom().contains(id),
        t[id].account != event.account@,
    ensures
        !hears_account(t, id, event),
{
}

/// Leaving undoes joining: nobody else is touched by either.
pub proof fn leaving_undoes_joining(t: Map<ActorId, Registration>, id: ActorId, r: Registration)
    requires
        !t.dom().contains(id),
    ensures
        t.insert(id, r).remove(id) == t,
{
    assert(t.insert(id, r).remove(id) =~= t);
}

/// Of two registrations of a strategy the later counts, and it alone.
pub proof fn the_later_registration_counts(t: Map<ActorId, Registration>, id: ActorId, a: Registration, b: Registration)
    ensures
        t.insert(id, a).insert(id, b) == t.insert(id, b),
{
    assert(t.insert(id, a).insert(id, b) =~= t.insert(id, b));
}

impl Default for IncomeProcessorActor {
    fn default() -> (p: Self)
        ensures
            p.inv(),
            p.table() == Map::<ActorId, Registration>::empty(),
    {
        IncomeProcessorActor::new()
    }
}

impl IncomeProcessorActor {
    /// Those who are registered.
    pub closed spec fn table(&self) -> Map<ActorId, Registration> {
        registrations(self.executors@)
    }

    /// The indexes say what the registrations say.
    pub closed spec fn inv(&self) -> bool {
        &&& indexes(self.by_symbol@, self.executors@, on_leg())
        &&& indexes(self.by_account@, self.executors@, of_account())
    }

    /// Nobody is registered.
    pub fn new() -> (p: Self)
        ensures
            p.inv(),
            p.table() == Map::<ActorId, Registration>::empty(),
    {
        let p = IncomeProcessorActor {
            executors: Table::new(),
            by_symbol: Table::new(),
            by_account: Table::new(),
        };
        assert(p.table() =~= Map::<ActorId, Registration>::empty());
        p
    }

    fn remove_from_indexes(&mut self, id: ActorId)
        requires
            old(self).inv(),
        ensures
            final(self).inv(),
            final(self).table() == old(self).table().remove(id),
    {
        let ghost before = self.executors@;
        let ghost sym0 = self.by_symbol@;
        let ghost acc0 = self.by_account@;
        match self.executors.remove(&id) {
            None => {
                assert(self.table() =~= old(self).table().remove(id));
            },
            Some(sub) => {
                let pairs = sub.scope.pairs();
                let mut i: usize = 0;
                while i < pairs.len()
                    invariant
                        i <= pairs.len(),
                        self.executors@ == before.remove(id),
                        self.by_account@ == acc0,
                        forall|k: (Exchange, Seq<char>)| #[trigger] under(self.by_symbol@, k) == if scope::leg_set(pairs@.take(i as int)).contains(k) {
                            without(under(sym0, k), id)
                        } else {
                            under(sym0, k)
                        },
                        forall|a: int, b: int| 0 <= a < b < pairs@.len() ==> (#[trigger] pairs@[a]).id() != (#[trigger] pairs@[b]).id(),
                    decreases pairs.len() - i,
                {
                    let ghost was = self.by_symbol@;
                    unlist_under(&mut self.by_symbol, &pairs[i], id);
                    proof {
                        let done = pairs@.take(i as int);
                        let next = pairs@.take(i + 1);
                        assert(next =~= done.push(pairs@[i as int]));
                        scope::lemma_leg_set_push(done, pairs@[i as int]);
                        let key = pairs@[i as int].id();
                        assert(!scope::leg_set(done).contains(key)) by {
                            if scope::leg_set(done).contains(key) {
                                let j = choose|j: int| 0 <= j < done.len() && (#[trigger] done[j]).id() == key;
                                assert(pairs@[j].id() != pairs@[i as int].id());
                            }
                        }
                    }
                    i = i + 1;
                }
                assert(pairs@.take(i as int) =~= pairs@);
                unlist_under(&mut self.by_account, &sub.account, id);
                proof {
                    let after = self.executors@;
                    assert forall|k: (Exchange, Seq<char>)| (#[trigger] under(self.by_symbol@, k)).no_duplicates() by {
                        lemma_without(under(sym0, k), id);
                    }
                    assert forall|k: (Exchange, Seq<char>), x: ActorId| #[trigger] under(self.by_symbol@, k).contains(x) == (after.dom().contains(x) && after[x]@.legs.contains(k)) by {
                        lemma_without(under(sym0, k), id);
                        assert(under(sym0, k).contains(x) == (before.dom().contains(x) && before[x]@.legs.contains(k)));
                    }
                    assert forall|k: AccountKey| (#[trigger] under(self.by_account@, k)).no_duplicates() by {
                        lemma_without(under(acc0, k), id);
                    }
                    assert forall|k: AccountKey, x: ActorId| #[trigger] under(self.by_account@, k).contains(x) == (after.dom().contains(x) && after[x]@.account == k) by {
                        lemma_without(under(acc0, k), id);
                        assert(under(acc0, k).contains(x) == (before.dom().contains(x) && before[x]@.account == k));
                    }
                    assert(self.table() =~= old(self).table().remove(id));
                }
            },
        }
    }

    /// Registers a strategy. One that is registered already is registered anew.
    pub fn register(&mut self, msg: RegisterExecutor)
        requires
            old(self).inv(),
        ensures
            final(self).inv(),
            final(self).table() == old(self).table().insert(
                msg.executor,
                Registration {
                    legs: scope::leg_set(subscription::legs_of(msg.subscriptions@)),
                    account: msg.account@,
                },
            ),
    {
        let id = msg.executor;
        self.remove_from_indexes(id);
        let scope = SubscriptionScope::from_pairs(&legs(&msg.subscriptions));
        let pairs = scope.pairs();
        let ghost before = self.executors@;
        let ghost sym0 = self.by_symbol@;
        let ghost acc0 = self.by_account@;
        let ghost t0 = self.table();
        assert(!before.dom().contains(id)) by {
            assert(!t0.dom().contains(id));
        }
        let mut i: usize = 0;
        while i < pairs.len()
            invariant
                i <= pairs.len(),
                self.executors@ == before,
                self.by_account@ == acc0,
                forall|k: (Exchange, Seq<char>)| #[trigger] under(self.by_symbol@, k) == if scope::leg_set(pairs@.take(i as int)).contains(k) {
                    under(sym0, k).push(id)
                } else {
                    under(sym0, k)
                },
                forall|a: int, b: int| 0 <= a < b < pairs@.len() ==> (#[trigger] pairs@[a]).id() != (#[trigger] pairs@[b]).id(),
            decreases pairs.len() - i,
        {
            list_under(&mut self.by_symbol, pairs[i].copy(), id);
            proof {
                let done = pairs@.take(i as int);
                let next = pairs@.take(i + 1);
                assert(next =~= done.push(pairs@[i as int]));
                scope::lemma_leg_set_push(done, pairs@[i as int]);
                let key = pairs@[i as int].id();
                assert(!scope::leg_set(done).contains(key)) by {
                    if scope::leg_set(done).contains(key) {
                        let j = choose|j: int| 0 <= j < done.len() && (#[trigger] done[j]).id() == key;
                        assert(pairs@[j].id() != pairs@[i as int].id());
                    }
                }
            }
            i = i + 1;
        }
        assert(pairs@.take(i as int) =~= pairs@);
        list_under(&mut self.by_account, msg.account.clone(), id);
        let sub = ExecutorSubscription { scope, account: msg.account };
        self.executors.insert(id, sub);
        proof {
            let after = self.executors@;
            assert(after == before.insert(id, sub));
            assert forall|k: (Exchange, Seq<char>)| (#[trigger] under(self.by_symbol@, k)).no_duplicates() by {
                assert(!under(sym0, k).contains(id));
                lemma_push_no_duplicates(under(sym0, k), id);
            }
            assert forall|k: (Exchange, Seq<char>), x: ActorId| #[trigger] under(self.by_symbol@, k).contains(x) == (after.dom().contains(x) && after[x]@.legs.contains(k)) by {
                lemma_push_contains(under(sym0, k), id, x);
                assert(under(sym0, k).contains(x) == (before.dom().contains(x) && before[x]@.legs.contains(k)));
            }
            assert forall|k: AccountKey| (#[trigger] under(self.by_account@, k)).no_duplicates() by {
                assert(!under(acc0, k).contains(id));
                lemma_push_no_duplicates(under(acc0, k), id);
            }
            assert forall|k: AccountKey, x: ActorId| #[trigger] under(self.by_account@, k).contains(x) == (after.dom().contains(x) && after[x]@.account == k) by {
                lemma_push_contains(under(acc0, k), id, x);
                assert(under(acc0, k).contains(x) == (before.dom().contains(x) && before[x]@.account == k));
            }
            assert(self.table() =~= t0.insert(id, sub@));
            assert(self.table() =~= old(self).table().insert(id, sub@));
        }
    }

    /// Takes a strategy off the register; says whether it was on it.
    pub fn unregister(&mut self, msg: UnregisterExecutor) -> (known: bool)
        requires
            old(self).inv(),
        ensures
            final(self).inv(),
            known == old(self).table().dom().contains(msg.executor),
            final(self).table() == old(self).table().remove(msg.executor),
    {
        let known = self.executors.contains_key(&msg.executor);
        self.remove_from_indexes(msg.executor);
        known
    }

    /// The registered strategies that an event concerns, by their scopes.
    fn all_concerned(&self, delivery: &Delivery) -> (v: Vec<ActorId>)
        ensures
            v@.no_duplicates(),
            forall|id: ActorId| #[trigger] v@.contains(id) == (self.table().dom().contains(id) && scope::concerns(self.table()[id].legs, delivery@)),
    {
        let n = self.executors.len();
        let mut v: Vec<ActorId> = Vec::new();
        let ghost e = self.executors.entries();
        let mut i: usize = 0;
        while i < n
            invariant
                i <= n,
                n == e.len(),
                e == self.executors.entries(),
                table::distinct_keys(e),
                v@.no_duplicates(),
                forall|id: ActorId| #[trigger] v@.contains(id) == exists|j: int| 0 <= j < i && (#[trigger] e[j]).0 == id && scope::concerns(e[j].1@.legs, delivery@),
            decreases n - i,
        {
            let ghost was = v@;
            let id = *self.executors.key_at(i);
            let sub = self.executors.value_at(i);
            if sub.scope.accepts_delivery(delivery) {
                assert(!was.contains(id)) by {
                    if was.contains(id) {
                        let j = choose|j: int| 0 <= j < i && (#[trigger] e[j]).0 == id && scope::concerns(e[j].1@.legs, delivery@);
                        assert(e[j].0.id() != e[i as int].0.id());
                    }
                }
                proof {
                    lemma_push_no_duplicates(was, id);
                }
                v.push(id);
                assert forall|x: ActorId| #[trigger] v@.contains(x) == exists|j: int| 0 <= j < i + 1 && (#[trigger] e[j]).0 == x && scope::concerns(e[j].1@.legs, delivery@) by {
                    lemma_push_contains(was, id, x);
                    if x == id {
                        assert(e[i as int].0 == x);
                    }
                }
            }
            i = i + 1;
        }
        proof {
            assert forall|id: ActorId| #[trigger] v@.contains(id) == (self.table().dom().contains(id) && scope::concerns(self.table()[id].legs, delivery@)) by {
                if v@.contains(id) {
                    let j = choose|j: int| 0 <= j < n && (#[trigger] e[j]).0 == id && scope::concerns(e[j].1@.legs, delivery@);
                    table::lemma_entry_in_map(e, j);
                }
                if self.table().dom().contains(id) {
                    let j = choose|j: int| #[trigger] table::names(e, j, id);
                    table::lemma_entry_in_map(e, j);
                    assert(e[j].0 == id);
                }
            }
        }
        v
    }

    /// Who gets market data: each strategy that it concerns, once.
    pub fn route_market(&self, event: &MarketEvent) -> (v: Vec<ActorId>)
        requires
            self.inv(),
        ensures
            v@.no_duplicates(),
            forall|id: ActorId| #[trigger] v@.contains(id) == hears_market(self.table(), id, *event),
    {
        let delivery = event.data.delivery();
        match &delivery {
            Delivery::Symbol(exchange, symbol) => {
                let key = (*exchange, symbol.clone());
                let v = match self.by_symbol.get(&key) {
                    Some(list) => copy_ids(list),
                    None => Vec::new(),
                };
                assert(v@ =~= under(self.by_symbol@, key.id()));
                v
            },
            _ => self.all_concerned(&delivery),
        }
    }

    /// The strategies of the account that an event concerns, or those that it does not, each once.
    fn parted(&self, event: &AccountEvent, concerned: bool) -> (v: Vec<ActorId>)
        requires
            self.inv(),
        ensures
            v@.no_duplicates(),
            forall|id: ActorId| #[trigger] v@.contains(id) == (self.table().dom().contains(id) && self.table()[id].account == event.account@ && scope::concerns(self.table()[id].legs, event::account_reach(event.data)) == concerned),
    {
        let delivery = event.data.delivery();
        let mut v: Vec<ActorId> = Vec::new();
        if let Some(ids) = self.by_account.get(&event.account) {
            let ghost list = ids@;
            assert(list == under(self.by_account@, event.account@));
            let mut i: usize = 0;
            while i < ids.len()
                invariant
                    i <= ids.len(),
                    ids@ == list,
                    self.inv(),
                    list == under(self.by_account@, event.account@),
                    delivery@ == event::account_reach(event.data),
                    v@.no_duplicates(),
                    forall|x: ActorId| #[trigger] v@.contains(x) == (list.take(i as int).contains(x) && scope::concerns(self.table()[x].legs, delivery@) == concerned),
                decreases ids.len() - i,
            {
                let id = ids[i];
                let ghost was = v@;
                assert(list.take(i + 1) =~= list.take(i as int).push(id));
                assert(list.contains(list[i as int]));
                assert(self.executors@.dom().contains(id));
                assert(!list.take(i as int).contains(id)) by {
                    if list.take(i as int).contains(id) {
                        let j = choose|j: int| 0 <= j < i && list.take(i as int)[j] == id;
                        assert(list[j] == list[i as int]);
                    }
                }
                if let Some(sub) = self.executors.get(&id) {
                    if sub.scope.accepts_delivery(&delivery) == concerned {
                        proof {
                            lemma_push_no_duplicates(was, id);
                        }
                        v.push(id);
                    }
                }
                assert forall|x: ActorId| #[trigger] v@.contains(x) == (list.take(i + 1).contains(x) && scope::concerns(self.table()[x].legs, delivery@) == concerned) by {
                    lemma_push_contains(was, id, x);
                    lemma_push_contains(list.take(i as int), id, x);
                }
                i = i + 1;
            }
            assert(list.take(i as int) =~= list);
        }
        assert forall|id: ActorId| #[trigger] v@.contains(id) == (self.table().dom().contains(id) && self.table()[id].account == event.account@ && scope::concerns(self.table()[id].legs, event::account_reach(event.data)) == concerned) by {
            assert(under(self.by_account@, event.account@).contains(id) == (self.executors@.dom().contains(id) && self.executors@[id]@.account == event.account@));
        }
        v
    }

    /// Who gets an account's event: each strategy of that account that it concerns, once.
    pub fn route_account(&self, event: &AccountEvent) -> (v: Vec<ActorId>)
        requires
            self.inv(),
        ensures
            v@.no_duplicates(),
            forall|id: ActorId| #[trigger] v@.contains(id) == hears_account(self.table(), id, *event),
    {
        self.parted(event, true)
    }

    /// Whom a report misses: each strategy of a simulated account that does not follow the
    /// instrument which is reported on, once. Nobody but those strategies can have caused it, so
    /// that is to be told.
    pub fn missed_by(&self, event: &AccountEvent) -> (v: Vec<ActorId>)
        requires
            self.inv(),
        ensures
            v@.no_duplicates(),
            forall|id: ActorId| #[trigger] v@.contains(id) == misses_report(self.table(), id, *event),
    {
        let told = match (&event.account, event.data.delivery()) {
            (AccountId::Paper(_), Delivery::Symbol(_, _)) => true,
            _ => false,
        };
        if told {
            self.parted(event, false)
        } else {
            Vec::new()
        }
    }
}

fn copy_ids(list: &Vec<ActorId>) -> (v: Vec<ActorId>)
    ensures
        v@ == list@,
{
    let mut v: Vec<ActorId> = Vec::new();
    let mut i: usize = 0;
    while i < list.len()
        invariant
            i <= list.len(),
            v@ == list@.take(i as int),
        decreases list.len() - i,
    {
        v.push(list[i]);
        assert(v@ =~= list@.take(i + 1));
        i = i + 1;
    }
    assert(list@.take(i as int) =~= list@);
    v
}

/// Market data reaches a registered executor exactly when it is of one of its legs, or of a venue on
/// which it has a leg where it names no instrument, or of no venue at all.
pub proof fn market_data_reaches_its_legs(t: Map<ActorId, Registration>, id: ActorId, event: MarketEvent)
    ensures
        hears_market(t, id, event) <==> t.dom().contains(id) && match event::market_reach(event.data) {
            event::Reach::Symbol(exchange, symbol) => t[id].legs.contains((exchange, symbol)),
            event::Reach::Exchange(exchange) => exists|symbol: Seq<char>|
                #[trigger] t[id].legs.contains((exchange, symbol)),
            event::Reach::Broadcast => true,
        },
{
}

/// An account's event reaches a registered executor exactly when it trades for that account and the
/// event is of one of its legs, or of a venue on which it has a leg where it names no instrument.
pub proof fn account_events_reach_their_account(t: Map<ActorId, Registration>, id: ActorId, event: AccountEvent)
    ensures
        hears_account(t, id, event) <==> t.dom().contains(id) && t[id].account == event.account@
            && match event::account_reach(event.data) {
            event::Reach::Symbol(exchange, symbol) => t[id].legs.contains((exchange, symbol)),
            event::Reach::Exchange(exchange) => exists|symbol: Seq<char>|
                #[trigger] t[id].legs.contains((exchange, symbol)),
            event::Reach::Broadcast => true,
        },
{
}

/// A report of a simulated account is missed exactly by those who trade for that account without its
/// leg.
pub proof fn reports_are_missed_by_strangers_to_the_leg(
    t: Map<ActorId, Registration>,
    id: ActorId,
    event: AccountEvent,
    exchange: Exchange,
    symbol: Seq<char>,
)
    requires
        event::account_reach(event.data) == event::Reach::Symbol(exchange, symbol),
    ensures
        misses_report(t, id, event) <==> event.account is Paper && t.dom().contains(id) && t[id].account == event.account@
            && !t[id].legs.contains((exchange, symbol)),
{
}

/// Taking one off a list leaves the others, in their order.
pub proof fn taking_one_off_keeps_the_others(list: Seq<ActorId>, id: ActorId, other: ActorId)
    ensures
        !without(list, id).contains(id),
        other != id ==> without(list, id).contains(other) == list.contains(other),
        without(list, id).len() <= list.len(),
        !list.contains(id) ==> without(list, id) == list,
    decreases list.len(),
{
    if list.len() > 0 {
        let rest = list.drop_last();
        taking_one_off_keeps_the_others(rest, id, other);
        assert(list =~= rest.push(list.last()));
        assert(list.contains(list.last())) by {
            assert(list[list.len() - 1] == list.last());
        }
        assert forall|x: ActorId| #[trigger] list.contains(x) == (rest.contains(x) || x == list.last()) by {
            if list.contains(x) {
                let i = choose|i: int| 0 <= i < list.len() && list[i] == x;
                if i < rest.len() {
                    assert(rest[i] == x);
                }
            }
            if rest.contains(x) {
                let i = choose|i: int| 0 <= i < rest.len() && rest[i] == x;
                assert(list[i] == x);
            }
        }
        if list.last() != id {
            let now = without(rest, id).push(list.last());
            assert forall|x: ActorId| #[trigger] now.contains(x) == (without(rest, id).contains(x) || x == list.last()) by {
                if now.contains(x) {
                    let i = choose|i: int| 0 <= i < now.len() && now[i] == x;
                    if i < without(rest, id).len() {
                        assert(without(rest, id)[i] == x);
                    }
                }
                if without(rest, id).contains(x) {
                    let i = choose|i: int| 0 <= i < without(rest, id).len() && without(rest, id)[i] == x;
                    assert(now[i] == x);
                }
                if x == list.last() {
                    assert(now[now.len() - 1] == x);
                }
            }
        }
    }
}

} // verus!
