//! Small keyed tables: an association list that behaves as a finite map, and a set of
//! identities.
use vstd::prelude::*;

use crate::text::same_text;

verus! {

/// A key that can be compared by what it stands for.
pub trait Key: View + Sized {
    /// Whether two keys stand for the same thing.
    fn same(&self, other: &Self) -> (same: bool)
        ensures
            same == (self@ == other@),
    ;
}

impl Key for String {
    fn same(&self, other: &Self) -> (same: bool) {
        *self == *other
    }
}

impl Key for usize {
    fn same(&self, other: &Self) -> (same: bool) {
        *self == *other
    }
}

/// A map from keys to values, kept as a list of entries with distinct keys.
pub struct Table<K: Key, T> {
    entries: Vec<(K, T)>,
}

impl<K: Key, T> View for Table<K, T> {
    type V = Map<K::V, T>;

    closed spec fn view(&self) -> Map<K::V, T> {
        Map::new(
            |key: K::V| exists|i: int| self.holds_at(i, key),
            |key: K::V| self.entries@[choose|i: int| self.holds_at(i, key)].1,
        )
    }
}

impl<K: Key, T> Table<K, T> {
    spec fn holds_at(&self, i: int, key: K::V) -> bool {
        0 <= i < self.entries@.len() && self.entries@[i].0@ == key
    }

    #[verifier::type_invariant]
    spec fn distinct(self) -> bool {
        forall|i: int, j: int|
            0 <= i < j < self.entries@.len() ==> self.entries@[i].0@ != self.entries@[j].0@
    }

    /// The key of the `i`-th entry, in the order in which the entries are kept.
    pub closed spec fn key(&self, i: int) -> K::V {
        self.entries@[i].0@
    }

    /// How many entries there are.
    pub closed spec fn size(&self) -> nat {
        self.entries@.len()
    }

    proof fn lemma_at(&self, i: int)
        requires
            self.distinct(),
            0 <= i < self.entries@.len(),
        ensures
            self@.contains_key(self.entries@[i].0@),
            self@[self.entries@[i].0@] == self.entries@[i].1,
    {
        let key = self.entries@[i].0@;
        assert(self.holds_at(i, key));
        let j = choose|j: int| self.holds_at(j, key);
        assert(self.holds_at(j, key));
        assert(i == j);
    }

    proof fn lemma_position(&self, key: K::V) -> (i: int)
        requires
            self.distinct(),
            self@.contains_key(key),
        ensures
            self.holds_at(i, key),
            self@[key] == self.entries@[i].1,
    {
        choose|i: int| self.holds_at(i, key)
    }

    /// An empty table.
    pub fn new() -> (table: Self)
        ensures
            table@ == Map::<K::V, T>::empty(),
            table.size() == 0,
    {
        let table = Table { entries: Vec::new() };
        assert(table@ =~= Map::<K::V, T>::empty());
        table
    }

    /// The number of entries.
    pub fn len(&self) -> (length: usize)
        ensures
            length == self.size(),
            length == 0 <==> self@ == Map::<K::V, T>::empty(),
    {
        proof {
            use_type_invariant(self);
            if self.entries@.len() == 0 {
                assert(self@ =~= Map::<K::V, T>::empty());
            } else {
                self.lemma_at(0);
            }
        }
        self.entries.len()
    }

    /// The `i`-th entry.
    pub fn entry(&self, i: usize) -> (entry: (&K, &T))
        requires
            i < self.size(),
        ensures
            entry.0@ == self.key(i as int),
            self@.contains_key(entry.0@),
            self@[entry.0@] == *entry.1,
    {
        proof {
            use_type_invariant(self);
            self.lemma_at(i as int);
        }
        let entry = &self.entries[i];
        (&entry.0, &entry.1)
    }

    /// Every key of the table is the key of some entry.
    pub proof fn lemma_entry_of(&self, key: K::V) -> (i: int)
        requires
            self@.contains_key(key),
        ensures
            0 <= i < self.size(),
            self.key(i) == key,
    {
        let i = choose|i: int| self.holds_at(i, key);
        assert(self.holds_at(i, key));
        i
    }

    /// The key of an entry is a key of the table.
    pub proof fn lemma_key_at(&self, i: int)
        requires
            0 <= i < self.size(),
        ensures
            self@.contains_key(self.key(i)),
    {
        assert(self.holds_at(i, self.key(i)));
    }

    fn find(&self, key: &K) -> (found: Option<usize>)
        ensures
            found is Some <==> self@.contains_key(key@),
            found matches Some(i) ==> self.holds_at(i as int, key@) && self@[key@]
                == self.entries@[i as int].1,
    {
        proof {
            use_type_invariant(self);
        }
        let mut i: usize = 0;
        while i < self.entries.len()
            invariant
                i <= self.entries@.len(),
                self.distinct(),
                forall|j: int| 0 <= j < i ==> self.entries@[j].0@ != key@,
            decreases self.entries@.len() - i,
        {
            if self.entries[i].0.same(key) {
                proof {
                    self.lemma_at(i as int);
                }
                return Some(i);
            }
            i += 1;
        }
        None
    }

    /// Whether the key has a value.
    pub fn contains(&self, key: &K) -> (found: bool)
        ensures
            found == self@.contains_key(key@),
    {
        self.find(key).is_some()
    }

    /// The value of a key.
    pub fn get(&self, key: &K) -> (value: Option<&T>)
        ensures
            value is Some <==> self@.contains_key(key@),
            value matches Some(value) ==> *value == self@[key@],
    {
        match self.find(key) {
            Some(i) => Some(&self.entries[i].1),
            None => None,
        }
    }

    /// Gives the key a value in place of the one it had, if any.
    pub fn insert(&mut self, key: K, value: T)
        ensures
            final(self)@ == old(self)@.insert(key@, value),
    {
        proof {
            use_type_invariant(&*self);
        }
        let found = self.find(&key);
        let mut entries: Vec<(K, T)> = Vec::new();
        std::mem::swap(&mut entries, &mut self.entries);
        let ghost before = Table { entries };
        let ghost shown = key@;
        match found {
            Some(i) => {
                entries.set(i, (key, value));
            },
            None => {
                proof {
                    assert forall|j: int| 0 <= j < entries@.len() implies entries@[j].0@
                        != shown by {
                        assert(before.holds_at(j, entries@[j].0@));
                        before.lemma_at(j);
                    }
                }
                entries.push((key, value));
            },
        }
        self.entries = entries;
        proof {
            let after = *self;
            assert(after.distinct());
            assert forall|k: K::V| after@.contains_key(k) == before@.insert(
                shown,
                value,
            ).contains_key(k) by {
                if k == shown {
                    let at = if found is Some { found->0 as int } else { before.entries@.len() as int };
                    assert(after.holds_at(at, k));
                    after.lemma_at(at);
                } else if before@.contains_key(k) {
                    let at = before.lemma_position(k);
                    assert(after.holds_at(at, k));
                    after.lemma_at(at);
                } else if after@.contains_key(k) {
                    let at = after.lemma_position(k);
                    assert(before.holds_at(at, k));
                    before.lemma_at(at);
                }
            }
            assert forall|k: K::V| after@.contains_key(k) implies after@[k] == before@.insert(
                shown,
                value,
            )[k] by {
                let at = after.lemma_position(k);
                if k != shown {
                    assert(before.holds_at(at, k));
                    before.lemma_at(at);
                } else {
                    let here = if found is Some { found->0 as int } else { before.entries@.len() as int };
                    after.lemma_at(here);
                }
            }
            assert(after@ =~= before@.insert(shown, value));
        }
    }

    proof fn lemma_removed(before: Self, after: Self, i: int)
        requires
            before.distinct(),
            0 <= i < before.entries@.len(),
            after.entries@ == before.entries@.remove(i),
        ensures
            after.distinct(),
            after@ == before@.remove(before.entries@[i].0@),
            before@.contains_key(before.entries@[i].0@),
            before@[before.entries@[i].0@] == before.entries@[i].1,
    {
        let gone = before.entries@[i].0@;
        before.lemma_at(i);
        assert forall|a: int, b: int| 0 <= a < b < after.entries@.len() implies after.entries@[a].0@
            != after.entries@[b].0@ by {
            let c = if a < i { a } else { a + 1 };
            let d = if b < i { b } else { b + 1 };
            assert(after.entries@[a] == before.entries@[c]);
            assert(after.entries@[b] == before.entries@[d]);
        }
        assert forall|k: K::V| after@.contains_key(k) == before@.remove(gone).contains_key(k) by {
            if after@.contains_key(k) {
                let at = after.lemma_position(k);
                let from = if at < i { at } else { at + 1 };
                assert(before.holds_at(from, k));
                before.lemma_at(from);
            }
            if before@.remove(gone).contains_key(k) {
                let from = before.lemma_position(k);
                let at = if from < i { from } else { from - 1 };
                assert(after.holds_at(at, k));
                after.lemma_at(at);
            }
        }
        assert forall|k: K::V| after@.contains_key(k) implies after@[k] == before@[k] by {
            let at = after.lemma_position(k);
            let from = if at < i { at } else { at + 1 };
            assert(before.holds_at(from, k));
            before.lemma_at(from);
        }
        assert(after@ =~= before@.remove(gone));
    }

    /// Takes the value of a key out of the table.
    pub fn remove(&mut self, key: &K) -> (value: Option<T>)
        ensures
            final(self)@ == old(self)@.remove(key@),
            value is Some <==> old(self)@.contains_key(key@),
            value matches Some(value) ==> value == old(self)@[key@],
    {
        proof {
            use_type_invariant(&*self);
        }
        match self.find(key) {
            Some(i) => {
                let mut entries: Vec<(K, T)> = Vec::new();
                std::mem::swap(&mut entries, &mut self.entries);
                let ghost before = Table { entries };
                let entry = entries.remove(i);
                proof {
                    Self::lemma_removed(before, Table { entries }, i as int);
                }
                self.entries = entries;
                Some(entry.1)
            },
            None => {
                assert(self@ =~= self@.remove(key@));
                None
            },
        }
    }

    /// Takes some entry out of the table.
    pub fn pop(&mut self) -> (entry: Option<(K, T)>)
        ensures
            entry is None <==> old(self)@ == Map::<K::V, T>::empty(),
            entry is None ==> final(self)@ == old(self)@,
            entry is None <==> old(self).size() == 0,
            entry is None ==> final(self).size() == 0,
            entry matches Some(entry) ==> {
                &&& old(self)@.contains_key(entry.0@)
                &&& old(self)@[entry.0@] == entry.1
                &&& final(self)@ == old(self)@.remove(entry.0@)
                &&& final(self).size() + 1 == old(self).size()
            },
    {
        proof {
            use_type_invariant(&*self);
        }
        let length: usize = self.len();
        if length == 0 {
            return None;
        }
        let mut entries: Vec<(K, T)> = Vec::new();
        std::mem::swap(&mut entries, &mut self.entries);
        let ghost before = Table { entries };
        let entry = entries.remove(length - 1);
        proof {
            Self::lemma_removed(before, Table { entries }, length - 1);
        }
        self.entries = entries;
        Some(entry)
    }

    /// Keeps the entries for which `keep` holds, as `passes` says.
    pub(crate) fn retain<F: Fn(&K, &T) -> bool>(
        &mut self,
        keep: F,
        Ghost(passes): Ghost<spec_fn(K::V, T) -> bool>,
    )
        requires
            forall|key: &K, value: &T| call_requires(keep, (key, value)),
            forall|key: &K, value: &T, kept: bool|
                call_ensures(keep, (key, value), kept) ==> kept == passes(key@, *value),
        ensures
            final(self)@ == kept(old(self)@, passes),
    {
        proof {
            use_type_invariant(&*self);
        }
        let ghost before = self@;
        let mut left: Table<K, T> = Table::new();
        loop
            invariant
                forall|key: &K, value: &T| call_requires(keep, (key, value)),
                forall|key: &K, value: &T, kept: bool|
                    call_ensures(keep, (key, value), kept) ==> kept == passes(key@, *value),
                forall|key: K::V| #[trigger]
                    self@.contains_key(key) ==> before.contains_key(key) && before[key]
                        == self@[key],
                forall|key: K::V| #[trigger]
                    left@.contains_key(key) <==> before.contains_key(key) && !self@.contains_key(
                        key,
                    ) && passes(key, before[key]),
                forall|key: K::V| #[trigger]
                    left@.contains_key(key) ==> left@[key] == before[key],
            ensures
                left@ == kept(before, passes),
            decreases self.size(),
        {
            match self.pop() {
                Some((key, value)) => {
                    if keep(&key, &value) {
                        left.insert(key, value);
                    }
                },
                None => {
                    assert(left@ =~= kept(before, passes));
                    break;
                },
            }
        }
        *self = left;
    }

    /// Takes out the entries for which `leave` holds, as `passes` says, and lists their values.
    pub(crate) fn take_out<F: Fn(&K, &T) -> bool>(
        &mut self,
        leave: F,
        Ghost(passes): Ghost<spec_fn(K::V, T) -> bool>,
    ) -> (taken: Vec<T>)
        requires
            forall|key: &K, value: &T| call_requires(leave, (key, value)),
            forall|key: &K, value: &T, left: bool|
                call_ensures(leave, (key, value), left) ==> left == passes(key@, *value),
        ensures
            final(self)@ == kept(old(self)@, |key: K::V, value: T| !passes(key, value)),
            lists_values(old(self)@, passes, taken@),
    {
        proof {
            use_type_invariant(&*self);
        }
        let ghost before = self@;
        let ghost stays = |key: K::V, value: T| !passes(key, value);
        let ghost mut order: Seq<K::V> = Seq::empty();
        let mut taken: Vec<T> = Vec::new();
        let mut stayed: Table<K, T> = Table::new();
        loop
            invariant
                forall|key: &K, value: &T| call_requires(leave, (key, value)),
                forall|key: &K, value: &T, left: bool|
                    call_ensures(leave, (key, value), left) ==> left == passes(key@, *value),
                stays == (|key: K::V, value: T| !passes(key, value)),
                forall|key: K::V| #[trigger]
                    self@.contains_key(key) ==> before.contains_key(key) && before[key]
                        == self@[key],
                forall|key: K::V| #[trigger]
                    stayed@.contains_key(key) <==> before.contains_key(key) && !self@.contains_key(
                        key,
                    ) && !passes(key, before[key]),
                forall|key: K::V| #[trigger]
                    stayed@.contains_key(key) ==> stayed@[key] == before[key],
                order.no_duplicates(),
                order.len() == taken@.len(),
                forall|i: int|
                    0 <= i < order.len() ==> before.contains_key(#[trigger] order[i])
                        && !self@.contains_key(order[i]) && passes(order[i], before[order[i]])
                        && taken@[i] == before[order[i]],
                forall|key: K::V| #[trigger]
                    before.contains_key(key) && passes(key, before[key]) ==> self@.contains_key(key)
                        || order.contains(key),
            ensures
                stayed@ == kept(before, stays),
                in_order(before, passes, taken@, order),
            decreases self.size(),
        {
            let ghost waiting = self@;
            match self.pop() {
                Some((key, value)) => {
                    let ghost shown = key@;
                    if leave(&key, &value) {
                        taken.push(value);
                        proof {
                            let listed = order;
                            order = order.push(shown);
                            assert(order[listed.len() as int] == shown);
                            assert forall|other: K::V| #[trigger]
                                before.contains_key(other) && passes(
                                    other,
                                    before[other],
                                ) implies self@.contains_key(other) || order.contains(other) by {
                                if listed.contains(other) {
                                    let i = choose|i: int|
                                        0 <= i < listed.len() && listed[i] == other;
                                    assert(order[i] == other);
                                }
                            }
                        }
                    } else {
                        stayed.insert(key, value);
                    }
                },
                None => {
                    assert(stayed@ =~= kept(before, stays));
                    break;
                },
            }
        }
        *self = stayed;
        taken
    }
}

/// The list holds the values of the map that pass, each once, in this order of their keys.
pub open spec fn in_order<K, T>(
    map: Map<K, T>,
    passes: spec_fn(K, T) -> bool,
    list: Seq<T>,
    order: Seq<K>,
) -> bool {
    &&& order.no_duplicates()
    &&& order.len() == list.len()
    &&& forall|i: int|
        0 <= i < order.len() ==> map.contains_key(#[trigger] order[i]) && passes(
            order[i],
            map[order[i]],
        ) && list[i] == map[order[i]]
    &&& forall|key: K| #[trigger]
        map.contains_key(key) && passes(key, map[key]) ==> order.contains(key)
}

/// The list holds the values of the map that pass, each once, in some order of their keys.
pub open spec fn lists_values<K, T>(
    map: Map<K, T>,
    passes: spec_fn(K, T) -> bool,
    list: Seq<T>,
) -> bool {
    exists|order: Seq<K>| in_order(map, passes, list, order)
}

/// The part of a map on which `passes` holds.
pub open spec fn kept<K, T>(map: Map<K, T>, passes: spec_fn(K, T) -> bool) -> Map<K, T> {
    map.restrict(Set::new(|key: K| map.contains_key(key) && passes(key, map[key])))
}

/// What a list of strings says, string by string.
pub open spec fn texts(list: Seq<String>) -> Seq<Seq<char>> {
    list.map_values(|text: String| text@)
}

/// A set of identities, in the order in which they came.
pub struct IdSet {
    ids: Vec<String>,
}

impl View for IdSet {
    type V = Set<Seq<char>>;

    open spec fn view(&self) -> Set<Seq<char>> {
        self.order().to_set()
    }
}

impl IdSet {
    #[verifier::type_invariant]
    spec fn distinct(self) -> bool {
        texts(self.ids@).no_duplicates()
    }

    /// The identities in their order, each once.
    pub closed spec fn order(&self) -> Seq<Seq<char>> {
        texts(self.ids@)
    }

    /// The empty set.
    pub fn new() -> (set: Self)
        ensures
            set.order() == Seq::<Seq<char>>::empty(),
            set@ == Set::<Seq<char>>::empty(),
    {
        let set = IdSet { ids: Vec::new() };
        assert(set.order() =~= Seq::<Seq<char>>::empty());
        assert(set@ =~= Set::<Seq<char>>::empty());
        set
    }

    /// How many identities there are.
    pub fn len(&self) -> (length: usize)
        ensures
            length == self.order().len(),
            self@.finite(),
            length == self@.len(),
            self.order().no_duplicates(),
    {
        proof {
            use_type_invariant(self);
            self.order().unique_seq_to_set();
        }
        self.ids.len()
    }

    /// Whether there is no identity.
    pub fn is_empty(&self) -> (empty: bool)
        ensures
            empty == (self@ == Set::<Seq<char>>::empty()),
            empty == (self.order().len() == 0),
    {
        proof {
            if self.ids@.len() == 0 {
                assert(self@ =~= Set::<Seq<char>>::empty());
            } else {
                assert(self.order().contains(self.order()[0]));
                assert(self@.contains(self.order()[0]));
            }
        }
        self.ids.len() == 0
    }

    /// The `i`-th identity.
    pub fn id(&self, i: usize) -> (id: &String)
        requires
            i < self.order().len(),
        ensures
            id@ == self.order()[i as int],
            self@.contains(id@),
    {
        assert(self.order().contains(self.order()[i as int]));
        &self.ids[i]
    }

    fn find(&self, id: &str) -> (found: Option<usize>)
        ensures
            found is Some <==> self@.contains(id@),
            found matches Some(i) ==> i < self.order().len() && self.order()[i as int] == id@,
    {
        let mut i: usize = 0;
        while i < self.ids.len()
            invariant
                i <= self.ids@.len(),
                forall|j: int| 0 <= j < i ==> self.ids@[j]@ != id@,
            decreases self.ids@.len() - i,
        {
            if same_text(&self.ids[i], id) {
                assert(self.order()[i as int] == id@);
                assert(self.order().contains(id@));
                return Some(i);
            }
            i += 1;
        }
        assert(!self.order().contains(id@));
        None
    }

    /// Whether the identity is in the set.
    pub fn contains(&self, id: &str) -> (found: bool)
        ensures
            found == self@.contains(id@),
    {
        self.find(id).is_some()
    }

    /// Adds an identity, behind those that are there, unless it is there already.
    pub fn insert(&mut self, id: String)
        ensures
            final(self)@ == old(self)@.insert(id@),
            old(self)@.contains(id@) ==> final(self).order() == old(self).order(),
            !old(self)@.contains(id@) ==> final(self).order() == old(self).order().push(id@),
    {
        proof {
            use_type_invariant(&*self);
        }
        if self.contains(&id) {
            assert(self@ =~= self@.insert(id@));
            return;
        }
        let mut ids: Vec<String> = Vec::new();
        std::mem::swap(&mut ids, &mut self.ids);
        let ghost before = texts(ids@);
        let ghost shown = id@;
        ids.push(id);
        proof {
            assert(texts(ids@) =~= before.push(shown));
            assert forall|i: int, j: int|
                0 <= i < texts(ids@).len() && 0 <= j < texts(ids@).len() && i != j implies texts(
                ids@,
            )[i] != texts(ids@)[j] by {
                if i < before.len() {
                    assert(before.contains(before[i]));
                }
                if j < before.len() {
                    assert(before.contains(before[j]));
                }
            }
        }
        self.ids = ids;
        proof {
            assert forall|x: Seq<char>| self@.contains(x) == before.to_set().insert(shown).contains(
                x,
            ) by {
                if before.contains(x) {
                    let i = choose|i: int| 0 <= i < before.len() && before[i] == x;
                    assert(self.order()[i] == x);
                }
                if x == shown {
                    assert(self.order()[before.len() as int] == x);
                }
            }
            assert(self@ =~= before.to_set().insert(shown));
        }
    }

    /// Takes an identity out of the set; the others keep their order.
    pub fn remove(&mut self, id: &str)
        ensures
            final(self)@ == old(self)@.remove(id@),
            final(self).order() == old(self).order().filter(|other: Seq<char>| other != id@),
    {
        proof {
            use_type_invariant(&*self);
        }
        let found = self.find(id);
        let mut ids: Vec<String> = Vec::new();
        std::mem::swap(&mut ids, &mut self.ids);
        let ghost before = texts(ids@);
        match found {
            Some(i) => {
                let _ = ids.remove(i);
                proof {
                    let after = texts(ids@);
                    assert(after =~= before.remove(i as int));
                    lemma_remove_is_filter(before, i as int);
                    assert forall|a: int, b: int|
                        0 <= a < after.len() && 0 <= b < after.len() && a != b implies after[a]
                        != after[b] by {
                        let c = if a < i { a } else { a + 1 };
                        let d = if b < i { b } else { b + 1 };
                        assert(after[a] == before[c]);
                        assert(after[b] == before[d]);
                    }
                }
            },
            None => {
                proof {
                    lemma_filter_keeps_all(before, |other: Seq<char>| other != id@);
                }
            },
        }
        self.ids = ids;
        proof {
            let keep = |other: Seq<char>| other != id@;
            lemma_filter_set(before, keep);
            assert(self@ =~= before.to_set().remove(id@));
        }
    }

    /// The same set once more.
    pub fn copy(&self) -> (set: Self)
        ensures
            set.order() == self.order(),
            set@ == self@,
    {
        proof {
            use_type_invariant(self);
        }
        let mut ids: Vec<String> = Vec::new();
        let mut i: usize = 0;
        while i < self.ids.len()
            invariant
                i <= self.ids@.len(),
                ids@ == self.ids@.take(i as int),
            decreases self.ids@.len() - i,
        {
            ids.push(self.ids[i].clone());
            assert(self.ids@.take(i + 1) =~= self.ids@.take(i as int).push(self.ids@[i as int]));
            i += 1;
        }
        assert(ids@ =~= self.ids@);
        IdSet { ids }
    }

    /// Two sets hold the same identities.
    pub fn same(&self, other: &Self) -> (same: bool)
        ensures
            same == (self@ == other@),
    {
        let n: usize = self.len();
        let m: usize = other.len();
        if n != m {
            return false;
        }
        let mut i: usize = 0;
        while i < n
            invariant
                i <= n,
                n == self.order().len(),
                n == other@.len(),
                n == self@.len(),
                self@.finite(),
                other@.finite(),
                forall|j: int| 0 <= j < i ==> other@.contains(#[trigger] self.order()[j]),
            decreases n - i,
        {
            if !other.contains(self.id(i)) {
                return false;
            }
            i += 1;
        }
        proof {
            assert forall|x: Seq<char>| self@.contains(x) implies other@.contains(x) by {
                let j = choose|j: int| 0 <= j < self.order().len() && self.order()[j] == x;
                assert(other@.contains(self.order()[j]));
            }
            assert(self@.subset_of(other@));
            vstd::set_lib::lemma_subset_equality(self@, other@);
        }
        true
    }
}

/// A filter that rejects nothing changes nothing.
pub proof fn lemma_filter_keeps_all<A>(list: Seq<A>, keep: spec_fn(A) -> bool)
    requires
        forall|i: int| 0 <= i < list.len() ==> keep(#[trigger] list[i]),
    ensures
        list.filter(keep) == list,
    decreases list.len(),
{
    reveal(Seq::filter);
    if list.len() > 0 {
        lemma_filter_keeps_all(list.drop_last(), keep);
        assert(keep(list[list.len() - 1]));
        assert(list.filter(keep) =~= list);
    } else {
        assert(list.filter(keep) =~= list);
    }
}

/// Filtering a list one longer.
pub proof fn lemma_filter_push<A>(list: Seq<A>, last: A, keep: spec_fn(A) -> bool)
    ensures
        list.push(last).filter(keep) == if keep(last) {
            list.filter(keep).push(last)
        } else {
            list.filter(keep)
        },
{
    reveal(Seq::filter);
    assert(list.push(last).drop_last() =~= list);
}

/// The members of a filtered list are those members that pass.
pub proof fn lemma_filter_set<A>(list: Seq<A>, keep: spec_fn(A) -> bool)
    ensures
        forall|x: A| #[trigger]
            list.filter(keep).to_set().contains(x) <==> list.to_set().contains(x) && keep(x),
    decreases list.len(),
{
    reveal(Seq::filter);
    if list.len() > 0 {
        let head = list.drop_last();
        lemma_filter_set(head, keep);
        assert(list =~= head.push(list.last()));
        lemma_filter_push(head, list.last(), keep);
        assert forall|x: A| #[trigger]
            list.filter(keep).to_set().contains(x) <==> list.to_set().contains(x) && keep(x) by {
            let passed = head.filter(keep);
            assert(passed.to_set().contains(x) <==> head.to_set().contains(x) && keep(x));
            if list.contains(x) {
                let i = choose|i: int| 0 <= i < list.len() && list[i] == x;
                if i < head.len() {
                    assert(head[i] == x);
                }
            }
            if head.contains(x) {
                let i = choose|i: int| 0 <= i < head.len() && head[i] == x;
                assert(list[i] == x);
            }
            if keep(list.last()) {
                if passed.push(list.last()).contains(x) {
                    let i = choose|i: int| 0 <= i <= passed.len() && passed.push(list.last())[i] == x;
                    if i < passed.len() {
                        assert(passed[i] == x);
                    }
                }
                if passed.contains(x) {
                    let i = choose|i: int| 0 <= i < passed.len() && passed[i] == x;
                    assert(passed.push(list.last())[i] == x);
                }
                assert(passed.push(list.last())[passed.len() as int] == list.last());
            }
            assert(list[list.len() - 1] == list.last());
        }
    }
}

proof fn lemma_remove_is_filter<A>(list: Seq<A>, i: int)
    requires
        list.no_duplicates(),
        0 <= i < list.len(),
    ensures
        list.remove(i) == list.filter(|other: A| other != list[i]),
    decreases list.len(),
{
    reveal(Seq::filter);
    let keep = |other: A| other != list[i];
    let head = list.drop_last();
    assert(list =~= head.push(list.last()));
    lemma_filter_push(head, list.last(), keep);
    if i == list.len() - 1 {
        lemma_filter_keeps_all(head, keep);
        assert(list.remove(i) =~= head);
    } else {
        lemma_remove_is_filter(head, i);
        assert(list.remove(i) =~= head.remove(i).push(list.last()));
        assert(keep =~= (|other: A| other != head[i]));
    }
}

} // verus!
