//! An association list: one value per key, in the order in which the keys first came.

use vstd::prelude::*;

verus! {

/// What can name an entry of a [`Table`]: two keys are one key when their ids are equal.
pub trait Key: Sized {
    /// The mathematical value that identifies a key.
    type Id;

    spec fn id(&self) -> Self::Id;

    /// Whether both name the same entry.
    fn same(&self, other: &Self) -> (b: bool)
        ensures
            b == (self.id() == other.id()),
    ;

    /// Another key with the same id.
    fn copy(&self) -> (k: Self)
        ensures
            k == *self,
    ;
}

impl Key for String {
    type Id = Seq<char>;

    open spec fn id(&self) -> Seq<char> {
        self@
    }

    fn same(&self, other: &Self) -> (b: bool) {
        *self == *other
    }

    fn copy(&self) -> (k: Self) {
        self.clone()
    }
}

impl Key for u64 {
    type Id = u64;

    open spec fn id(&self) -> u64 {
        *self
    }

    fn same(&self, other: &Self) -> (b: bool) {
        *self == *other
    }

    fn copy(&self) -> (k: Self) {
        *self
    }
}

/// No two entries share a key.
pub open spec fn distinct_keys<K: Key, V>(entries: Seq<(K, V)>) -> bool {
    forall|i: int, j: int|
        0 <= i < j < entries.len() ==> (#[trigger] entries[i]).0.id() != (#[trigger] entries[j]).0.id()
}

/// Whether the entry at `i` is the one that `id` names.
pub open spec fn names<K: Key, V>(entries: Seq<(K, V)>, i: int, id: K::Id) -> bool {
    0 <= i < entries.len() && entries[i].0.id() == id
}

/// The finite map that a list of entries stands for.
pub open spec fn entries_map<K: Key, V>(entries: Seq<(K, V)>) -> Map<K::Id, V> {
    Map::new(
        |id: K::Id| exists|i: int| #[trigger] names(entries, i, id),
        |id: K::Id| entries[choose|i: int| #[trigger] names(entries, i, id)].1,
    )
}

/// Whether a list holds each entry of a map, once.
pub open spec fn lists<K: Key, V>(entries: Seq<(K, V)>, m: Map<K::Id, V>) -> bool {
    distinct_keys(entries) && entries_map(entries) == m
}

/// A map that keeps its entries in a list.
pub struct Table<K: Key, V> {
    entries: Vec<(K, V)>,
}

impl<K: Key, V> View for Table<K, V> {
    type V = Map<K::Id, V>;

    open spec fn view(&self) -> Map<K::Id, V> {
        entries_map(self.entries())
    }
}

/// Each entry of a list with distinct keys is what the map holds under its key.
pub proof fn lemma_entry_in_map<K: Key, V>(entries: Seq<(K, V)>, i: int)
    requires
        distinct_keys(entries),
        0 <= i < entries.len(),
    ensures
        entries_map(entries).dom().contains(entries[i].0.id()),
        entries_map(entries)[entries[i].0.id()] == entries[i].1,
{
    let id = entries[i].0.id();
    assert(names(entries, i, id));
    let j = choose|j: int| #[trigger] names(entries, j, id);
    assert(names(entries, j, id));
    assert(i == j);
}

impl<K: Key, V> Table<K, V> {
    /// The entries, oldest first.
    pub closed spec fn entries(&self) -> Seq<(K, V)> {
        self.entries@
    }

    #[verifier::type_invariant]
    pub open spec fn inv(&self) -> bool {
        distinct_keys(self.entries())
    }

    /// A table without entries.
    pub fn new() -> (t: Self)
        ensures
            t@ == Map::<K::Id, V>::empty(),
            t.entries() == Seq::<(K, V)>::empty(),
    {
        let t = Table { entries: Vec::new() };
        assert(t@ =~= Map::<K::Id, V>::empty());
        t
    }

    /// The number of entries.
    pub fn len(&self) -> (n: usize)
        ensures
            n == self.entries().len(),
            self.inv(),
    {
        proof {
            use_type_invariant(self);
        }
        self.entries.len()
    }

    /// Where the key stands, if it is there.
    pub fn position(&self, key: &K) -> (r: Option<usize>)
        ensures
            match r {
                Some(i) => i < self.entries().len() && self.entries()[i as int].0.id() == key.id()
                    && self@.dom().contains(key.id()) && self@[key.id()] == self.entries()[i as int].1,
                None => !self@.dom().contains(key.id()),
            },
            self.inv(),
    {
        proof {
            use_type_invariant(self);
        }
        let mut i: usize = 0;
        while i < self.entries.len()
            invariant
                distinct_keys(self.entries@),
                i <= self.entries@.len(),
                forall|j: int| 0 <= j < i ==> (#[trigger] self.entries@[j]).0.id() != key.id(),
            decreases self.entries@.len() - i,
        {
            if self.entries[i].0.same(key) {
                proof {
                    lemma_entry_in_map(self.entries@, i as int);
                }
                return Some(i);
            }
            i = i + 1;
        }
        assert forall|j: int| !(#[trigger] names(self.entries(), j, key.id())) by {
            if 0 <= j < self.entries@.len() {
                assert(self.entries@[j].0.id() != key.id());
            }
        }
        None
    }

    /// The value under the key.
    pub fn get(&self, key: &K) -> (r: Option<&V>)
        ensures
            match r {
                Some(v) => self@.dom().contains(key.id()) && *v == self@[key.id()],
                None => !self@.dom().contains(key.id()),
            },
    {
        match self.position(key) {
            Some(i) => Some(&self.entries[i].1),
            None => None,
        }
    }

    /// Whether the key has an entry.
    pub fn contains_key(&self, key: &K) -> (b: bool)
        ensures
            b == self@.dom().contains(key.id()),
    {
        self.position(key).is_some()
    }

    /// The key at a place in the list.
    pub fn key_at(&self, i: usize) -> (k: &K)
        requires
            i < self.entries().len(),
        ensures
            *k == self.entries()[i as int].0,
    {
        &self.entries[i].0
    }

    /// The value at a place in the list.
    pub fn value_at(&self, i: usize) -> (v: &V)
        requires
            i < self.entries().len(),
        ensures
            *v == self.entries()[i as int].1,
    {
        &self.entries[i].1
    }
    /// Replaces the value at a place in the list, and gives the former value back.
    pub fn replace_at(&mut self, i: usize, value: V) -> (was: V)
        requires
            i < old(self).entries().len(),
        ensures
            was == old(self).entries()[i as int].1,
            final(self).entries() == old(self).entries().update(
                i as int,
                (old(self).entries()[i as int].0, value),
            ),
            final(self)@ == old(self)@.insert(old(self).entries()[i as int].0.id(), value),
    {
        proof {
            use_type_invariant(&*self);
        }
        let ghost before = self.entries@;
        let mut list: Vec<(K, V)> = Vec::new();
        std::mem::swap(&mut list, &mut self.entries);
        let (key, was) = list.remove(i);
        list.insert(i, (key, value));
        assert(list@ =~= before.update(i as int, (before[i as int].0, value)));
        proof {
            lemma_map_update(before, i as int, value);
        }
        self.entries = list;
        was
    }

    /// Puts the value under the key: in the key's place if it has one, at the end if not.
    pub fn insert(&mut self, key: K, value: V) -> (was: Option<V>)
        ensures
            final(self)@ == old(self)@.insert(key.id(), value),
            match was {
                Some(v) => old(self)@.dom().contains(key.id()) && v == old(self)@[key.id()],
                None => !old(self)@.dom().contains(key.id()) && final(self).entries()
                    == old(self).entries().push((key, value)),
            },
            old(self)@.dom().contains(key.id()) ==> exists|i: int|
                #![trigger old(self).entries()[i]]
                names(old(self).entries(), i, key.id()) && final(self).entries()
                    == old(self).entries().update(i, (old(self).entries()[i].0, value)),
    {
        match self.position(&key) {
            Some(i) => {
                let ghost before = self.entries();
                assert(names(before, i as int, key.id()));
                Some(self.replace_at(i, value))
            },
            None => {
                proof {
                    use_type_invariant(&*self);
                    lemma_map_push(self.entries@, key, value);
                }
                let mut list: Vec<(K, V)> = Vec::new();
                std::mem::swap(&mut list, &mut self.entries);
                list.push((key, value));
                self.entries = list;
                None
            },
        }
    }

    /// Takes the key's entry out; the others keep their order.
    pub fn remove(&mut self, key: &K) -> (was: Option<V>)
        ensures
            final(self)@ == old(self)@.remove(key.id()),
            match was {
                Some(v) => old(self)@.dom().contains(key.id()) && v == old(self)@[key.id()],
                None => !old(self)@.dom().contains(key.id()) && final(self).entries() == old(
                    self,
                ).entries(),
            },
            old(self)@.dom().contains(key.id()) ==> exists|i: int|
                #![trigger old(self).entries()[i]]
                names(old(self).entries(), i, key.id()) && final(self).entries()
                    == old(self).entries().remove(i),
    {
        match self.position(key) {
            Some(i) => {
                proof {
                    use_type_invariant(&*self);
                    assert(names(self.entries(), i as int, key.id()));
                    lemma_map_remove(self.entries@, i as int);
                }
                let mut list: Vec<(K, V)> = Vec::new();
                std::mem::swap(&mut list, &mut self.entries);
                let (_, was) = list.remove(i);
                self.entries = list;
                Some(was)
            },
            None => {
                assert(self@.remove(key.id()) =~= self@);
                None
            },
        }
    }
}

/// Replacing a value changes the map at that key alone.
proof fn lemma_map_update<K: Key, V>(entries: Seq<(K, V)>, i: int, value: V)
    requires
        distinct_keys(entries),
        0 <= i < entries.len(),
    ensures
        distinct_keys(entries.update(i, (entries[i].0, value))),
        entries_map(entries.update(i, (entries[i].0, value))) == entries_map(entries).insert(
            entries[i].0.id(),
            value,
        ),
{
    let after = entries.update(i, (entries[i].0, value));
    assert(distinct_keys(after));
    let m = entries_map(entries).insert(entries[i].0.id(), value);
    assert forall|j: int| 0 <= j < after.len() implies m[(#[trigger] after[j]).0.id()] == after[j].1 by {
        lemma_entry_in_map(entries, j);
        if j != i {
            assert(entries[j].0.id() != entries[i].0.id());
        }
    }
    lemma_entry_in_map(entries, i);
    assert(m.dom() =~= entries_map(entries).dom());
    lemma_same_map(after, m, entries);
}

/// A new entry at the end adds its key to the map.
proof fn lemma_map_push<K: Key, V>(entries: Seq<(K, V)>, key: K, value: V)
    requires
        distinct_keys(entries),
        !entries_map(entries).dom().contains(key.id()),
    ensures
        distinct_keys(entries.push((key, value))),
        entries_map(entries.push((key, value))) == entries_map(entries).insert(key.id(), value),
{
    let after = entries.push((key, value));
    assert forall|j: int| 0 <= j < entries.len() implies (#[trigger] entries[j]).0.id() != key.id() by {
        lemma_entry_in_map(entries, j);
    }
    assert(distinct_keys(after));
    let m = entries_map(entries).insert(key.id(), value);
    assert(entries_map(after) =~= m) by {
        assert forall|id: K::Id| entries_map(after).dom().contains(id) == m.dom().contains(id) by {
            if entries_map(after).dom().contains(id) {
                let j = choose|j: int| #[trigger] names(after, j, id);
                if j < entries.len() {
                    assert(names(entries, j, id));
                }
            }
            if m.dom().contains(id) {
                if id == key.id() {
                    assert(names(after, entries.len() as int, id));
                } else {
                    let j = choose|j: int| #[trigger] names(entries, j, id);
                    assert(names(after, j, id));
                }
            }
        }
        assert forall|id: K::Id| #[trigger] entries_map(after).dom().contains(id) implies
            entries_map(after)[id] == m[id] by {
            let j = choose|j: int| #[trigger] names(after, j, id);
            lemma_entry_in_map(after, j);
            if j < entries.len() {
                lemma_entry_in_map(entries, j);
            }
        }
    }
}

/// A list with distinct keys is as long as its map is large.
pub proof fn lemma_map_len<K: Key, V>(entries: Seq<(K, V)>)
    requires
        distinct_keys(entries),
    ensures
        entries_map(entries).dom().finite(),
        entries_map(entries).dom().len() == entries.len(),
    decreases entries.len(),
{
    if entries.len() == 0 {
        assert(entries_map(entries).dom() =~= Set::empty());
    } else {
        let earlier = entries.drop_last();
        let (key, value) = entries.last();
        lemma_map_len(earlier);
        assert(!entries_map(earlier).dom().contains(key.id())) by {
            if entries_map(earlier).dom().contains(key.id()) {
                let j = choose|j: int| #[trigger] names(earlier, j, key.id());
                assert(entries[j].0.id() != entries[entries.len() - 1].0.id());
            }
        }
        lemma_map_push(earlier, key, value);
        assert(earlier.push((key, value)) =~= entries);
    }
}

/// Taking an entry out takes its key out of the map.
proof fn lemma_map_remove<K: Key, V>(entries: Seq<(K, V)>, i: int)
    requires
        distinct_keys(entries),
        0 <= i < entries.len(),
    ensures
        distinct_keys(entries.remove(i)),
        entries_map(entries.remove(i)) == entries_map(entries).remove(entries[i].0.id()),
{
    let after = entries.remove(i);
    assert forall|a: int, b: int| 0 <= a < b < after.len() implies (#[trigger] after[a]).0.id() != (
    #[trigger] after[b]).0.id() by {
        let a2 = if a < i { a } else { a + 1 };
        let b2 = if b < i { b } else { b + 1 };
        assert(entries[a2].0.id() != entries[b2].0.id());
    }
    let gone = entries[i].0.id();
    let m = entries_map(entries).remove(gone);
    assert(entries_map(after) =~= m) by {
        assert forall|id: K::Id| entries_map(after).dom().contains(id) == m.dom().contains(id) by {
            if entries_map(after).dom().contains(id) {
                let j = choose|j: int| #[trigger] names(after, j, id);
                let j2 = if j < i { j } else { j + 1 };
                assert(names(entries, j2, id));
                assert(entries[j2].0.id() != entries[i].0.id());
            }
            if m.dom().contains(id) {
                let j = choose|j: int| #[trigger] names(entries, j, id);
                let j2 = if j < i { j } else { j - 1 };
                assert(names(after, j2, id));
            }
        }
        assert forall|id: K::Id| #[trigger] entries_map(after).dom().contains(id) implies
            entries_map(after)[id] == m[id] by {
            let j = choose|j: int| #[trigger] names(after, j, id);
            lemma_entry_in_map(after, j);
            let j2 = if j < i { j } else { j + 1 };
            lemma_entry_in_map(entries, j2);
        }
    }
}

/// A list whose keys stand where those of another list stand holds the map that agrees with
/// it everywhere.
proof fn lemma_same_map<K: Key, V>(after: Seq<(K, V)>, m: Map<K::Id, V>, entries: Seq<(K, V)>)
    requires
        distinct_keys(after),
        after.len() == entries.len(),
        forall|j: int| 0 <= j < after.len() ==> (#[trigger] after[j]).0.id() == entries[j].0.id(),
        m.dom() == entries_map(entries).dom(),
        forall|j: int| 0 <= j < after.len() ==> m[(#[trigger] after[j]).0.id()] == after[j].1,
    ensures
        entries_map(after) == m,
{
    assert(entries_map(after) =~= m) by {
        assert forall|id: K::Id| entries_map(after).dom().contains(id) == m.dom().contains(id) by {
            if entries_map(after).dom().contains(id) {
                let j = choose|j: int| #[trigger] names(after, j, id);
                assert(after[j].0.id() == entries[j].0.id());
                assert(names(entries, j, id));
            }
            if m.dom().contains(id) {
                let j = choose|j: int| #[trigger] names(entries, j, id);
                assert(after[j].0.id() == entries[j].0.id());
                assert(names(after, j, id));
            }
        }
        assert forall|id: K::Id| #[trigger] entries_map(after).dom().contains(id) implies
            entries_map(after)[id] == m[id] by {
            let j = choose|j: int| #[trigger] names(after, j, id);
            lemma_entry_in_map(after, j);
        }
    }
}

/// Picking the items of a list by a mark and turning each into something: the last item is picked last,
/// if it bears the mark.
pub proof fn lemma_picked<T, U>(list: Seq<T>, mark: spec_fn(T) -> bool, f: spec_fn(T) -> U)
    ensures
        list.len() == 0 ==> list.filter(mark).map_values(f) == Seq::<U>::empty(),
        list.len() > 0 && mark(list.last()) ==> list.filter(mark).map_values(f) == list.drop_last().filter(
            mark,
        ).map_values(f).push(f(list.last())),
        list.len() > 0 && !mark(list.last()) ==> list.filter(mark).map_values(f) == list.drop_last().filter(
            mark,
        ).map_values(f),
{
    reveal(Seq::filter);
    if list.len() == 0 {
        assert(list.filter(mark).map_values(f) =~= Seq::<U>::empty());
    } else if mark(list.last()) {
        assert(list.filter(mark).map_values(f) =~= list.drop_last().filter(mark).map_values(f).push(f(list.last())));
    }
}

/// The items of a list that bear a mark, in their order.
pub proof fn lemma_picked_as_is<T>(list: Seq<T>, mark: spec_fn(T) -> bool)
    ensures
        list.len() == 0 ==> list.filter(mark) == Seq::<T>::empty(),
        list.len() > 0 && mark(list.last()) ==> list.filter(mark) == list.drop_last().filter(mark).push(list.last()),
        list.len() > 0 && !mark(list.last()) ==> list.filter(mark) == list.drop_last().filter(mark),
{
    reveal(Seq::filter);
    if list.len() == 0 {
        assert(list.filter(mark) =~= Seq::<T>::empty());
    }
}

/// A list that holds each entry of a map once holds it under its key, and the map holds nothing else.
pub proof fn a_list_holds_each_entry_of_its_map<K: Key, V>(entries: Seq<(K, V)>, m: Map<K::Id, V>, i: int, id: K::Id)
    requires
        lists(entries, m),
    ensures
        0 <= i < entries.len() ==> m.dom().contains(entries[i].0.id()) && m[entries[i].0.id()] == entries[i].1,
        m.dom().contains(id) ==> exists|j: int| 0 <= j < entries.len() && (#[trigger] entries[j]).0.id() == id,
{
    if 0 <= i < entries.len() {
        lemma_entry_in_map(entries, i);
    }
    if m.dom().contains(id) {
        let j = choose|j: int| #[trigger] names(entries, j, id);
        assert(entries[j].0.id() == id);
    }
}

} // verus!
