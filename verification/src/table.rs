//! Maps that keep their keys in the order in which they came.

use crate::id::Id;
use crate::text::same_text;
use vstd::prelude::*;

verus! {

/// A type whose values are told apart by their views.
pub trait Key: View + Sized {
    /// Whether two keys have the same view.
    fn same_key(&self, other: &Self) -> (same: bool)
        ensures
            same == (self@ == other@),
    ;

    /// A key with the same view.
    fn copy_key(&self) -> (copy: Self)
        ensures
            copy@ == self@,
    ;
}

impl Key for String {
    fn same_key(&self, other: &Self) -> bool {
        *self == *other
    }

    fn copy_key(&self) -> Self {
        self.clone()
    }
}

impl Key for usize {
    fn same_key(&self, other: &Self) -> bool {
        *self == *other
    }

    fn copy_key(&self) -> Self {
        *self
    }
}

impl Key for Id {
    fn same_key(&self, other: &Self) -> bool {
        same_text(self.as_str(), other.as_str())
    }

    fn copy_key(&self) -> Self {
        self.clone()
    }
}

/// A map from keys to values. Every key occurs once.
#[derive(Debug)]
pub struct Table<K: Key, V> {
    entries: Vec<(K, V)>,
}

/// The place of a key among the entries.
spec fn place_of<K: Key, V>(entries: Seq<(K, V)>, key: K::V) -> int {
    choose|i: int| 0 <= i < entries.len() && (#[trigger] entries[i]).0@ == key
}

/// Whether an entry has this key.
spec fn has_entry<K: Key, V>(entries: Seq<(K, V)>, key: K::V) -> bool {
    exists|i: int| 0 <= i < entries.len() && (#[trigger] entries[i]).0@ == key
}

/// No two entries have the same key.
spec fn distinct_entries<K: Key, V>(entries: Seq<(K, V)>) -> bool {
    forall|i: int, j: int|
        0 <= i < entries.len() && 0 <= j < entries.len() && (#[trigger] entries[i]).0@ == (
        #[trigger] entries[j]).0@ ==> i == j
}

impl<K: Key, V> View for Table<K, V> {
    type V = Map<K::V, V>;

    closed spec fn view(&self) -> Map<K::V, V> {
        Map::new(
            |key: K::V| has_entry(self.entries@, key),
            |key: K::V| self.entries@[place_of(self.entries@, key)].1,
        )
    }
}

impl<K: Key, V> Table<K, V> {
    #[verifier::type_invariant]
    spec fn distinct(self) -> bool {
        distinct_entries(self.entries@)
    }

    /// The keys, in the order in which they came.
    pub closed spec fn keys(&self) -> Seq<K::V> {
        self.entries@.map_values(|entry: (K, V)| entry.0@)
    }

    /// The map without entries.
    pub fn new() -> (table: Self)
        ensures
            table@ == Map::<K::V, V>::empty(),
            table.keys() == Seq::<K::V>::empty(),
    {
        let table = Table { entries: Vec::new() };
        assert(table@ =~= Map::<K::V, V>::empty());
        assert(table.keys() =~= Seq::<K::V>::empty());
        table
    }

    /// How many keys the map has. Every key of the map occurs once among the keys.
    pub fn len(&self) -> (n: usize)
        ensures
            n == self.keys().len(),
            n == self@.len(),
            self@.dom().finite(),
            self.keys().no_duplicates(),
            forall|key: K::V| self@.dom().contains(key) <==> #[trigger] self.keys().contains(key),
            forall|i: int|
                0 <= i < self.keys().len() ==> self@.dom().contains(#[trigger] self.keys()[i]),
    {
        proof {
            use_type_invariant(self);
            let keys = self.keys();
            assert forall|key: K::V| self@.dom().contains(key) <==> #[trigger] keys.contains(key) by {
                if self@.dom().contains(key) {
                    let i = place_of(self.entries@, key);
                    assert(keys[i] == key);
                }
                if keys.contains(key) {
                    let i = choose|i: int| 0 <= i < keys.len() && keys[i] == key;
                    assert(self.entries@[i].0@ == key);
                }
            }
            assert forall|i: int| 0 <= i < keys.len() implies self@.dom().contains(
                #[trigger] keys[i],
            ) by {
                assert(keys.contains(keys[i]));
            }
            assert forall|i: int, j: int| 0 <= i < keys.len() && 0 <= j < keys.len() && i != j implies keys[i]
                != keys[j] by {
                assert(self.entries@[i].0@ == keys[i]);
                assert(self.entries@[j].0@ == keys[j]);
            }
            assert(self@.dom() =~= keys.to_set());
            keys.unique_seq_to_set();
            vstd::seq_lib::seq_to_set_is_finite(keys);
        }
        self.entries.len()
    }

    /// The place of a key.
    pub fn find(&self, key: &K) -> (place: Option<usize>)
        ensures
            match place {
                Some(i) => i < self.keys().len() && self.keys()[i as int] == key@
                    && self@.dom().contains(key@),
                None => !self@.dom().contains(key@) && !self.keys().contains(key@),
            },
    {
        let mut i: usize = 0;
        while i < self.entries.len()
            invariant
                i <= self.entries@.len(),
                forall|j: int| 0 <= j < i ==> (#[trigger] self.entries@[j]).0@ != key@,
            decreases self.entries.len() - i,
        {
            if self.entries[i].0.same_key(key) {
                assert(self.entries@[i as int].0@ == key@);
                return Some(i);
            }
            i = i + 1;
        }
        proof {
            if self.keys().contains(key@) {
                let j = choose|j: int| 0 <= j < self.keys().len() && self.keys()[j] == key@;
                assert(self.entries@[j].0@ == key@);
            }
        }
        None
    }

    /// Whether the map has a key.
    pub fn contains(&self, key: &K) -> (found: bool)
        ensures
            found == self@.dom().contains(key@),
    {
        match self.find(key) {
            Some(_) => true,
            None => false,
        }
    }

    /// The key at one place.
    pub fn key_at(&self, i: usize) -> (key: &K)
        requires
            i < self.keys().len(),
        ensures
            key@ == self.keys()[i as int],
            self@.dom().contains(key@),
    {
        let key = &self.entries[i].0;
        assert(self.entries@[i as int].0@ == key@);
        key
    }

    /// The value at one place.
    pub fn value_at(&self, i: usize) -> (value: &V)
        requires
            i < self.keys().len(),
        ensures
            *value == self@[self.keys()[i as int]],
            self@.dom().contains(self.keys()[i as int]),
    {
        proof {
            use_type_invariant(self);
            assert(self.entries@[i as int].0@ == self.keys()[i as int]);
            let key = self.keys()[i as int];
            assert(has_entry(self.entries@, key));
            assert(place_of(self.entries@, key) == i);
        }
        &self.entries[i].1
    }

    /// The value of a key.
    pub fn get(&self, key: &K) -> (value: Option<&V>)
        ensures
            match value {
                Some(v) => self@.dom().contains(key@) && *v == self@[key@],
                None => !self@.dom().contains(key@),
            },
    {
        match self.find(key) {
            Some(i) => Some(self.value_at(i)),
            None => None,
        }
    }

    /// Gives a key a value, in place of the one that it may have had.
    pub fn insert(&mut self, key: K, value: V)
        ensures
            final(self)@ == old(self)@.insert(key@, value),
            final(self).keys() == if old(self)@.dom().contains(key@) {
                old(self).keys()
            } else {
                old(self).keys().push(key@)
            },
    {
        proof {
            use_type_invariant(&*self);
        }
        let ghost before = self.entries@;
        let ghost map = self@;
        let ghost keys = self.keys();
        let place = self.find(&key);
        let mut entries: Vec<(K, V)> = Vec::new();
        std::mem::swap(&mut entries, &mut self.entries);
        match place {
            Some(i) => {
                entries.set(i, (key, value));
                proof {
                    let after = entries@;
                    assert(after =~= before.update(i as int, (key, value)));
                    assert(before[i as int].0@ == key@);
                    assert forall|a: int, b: int|
                        0 <= a < after.len() && 0 <= b < after.len() && (#[trigger] after[a]).0@
                            == (#[trigger] after[b]).0@ implies a == b by {
                        assert(after[a].0@ == before[a].0@);
                        assert(after[b].0@ == before[b].0@);
                    }
                }
            },
            None => {
                entries.push((key, value));
                proof {
                    let after = entries@;
                    assert forall|a: int, b: int|
                        0 <= a < after.len() && 0 <= b < after.len() && (#[trigger] after[a]).0@
                            == (#[trigger] after[b]).0@ implies a == b by {
                        if a < before.len() && b < before.len() {
                            assert(before[a].0@ == before[b].0@);
                        } else if a < before.len() {
                            assert(before[a].0@ == key@);
                        } else if b < before.len() {
                            assert(before[b].0@ == key@);
                        }
                    }
                }
            },
        }
        proof {
            let after = entries@;
            assert forall|k: K::V| has_entry(after, k) <==> (k == key@ || has_entry(before, k)) by {
                if has_entry(before, k) {
                    let i = place_of(before, k);
                    assert(after[i].0@ == before[i].0@);
                }
                if has_entry(after, k) && k != key@ {
                    let i = place_of(after, k);
                    assert(before[i].0@ == k);
                }
                if k == key@ {
                    match place {
                        Some(i) => assert(after[i as int].0@ == key@),
                        None => assert(after[before.len() as int].0@ == key@),
                    }
                }
            }
            assert forall|k: K::V| has_entry(after, k) implies after[place_of(after, k)].1 == (if k
                == key@ {
                value
            } else {
                before[place_of(before, k)].1
            }) by {
                let i = place_of(after, k);
                if k == key@ {
                    match place {
                        Some(j) => assert(after[j as int].0@ == key@),
                        None => assert(after[before.len() as int].0@ == key@),
                    }
                } else {
                    assert(after[i].0@ == k);
                    assert(i < before.len());
                    assert(before[i].0@ == k);
                    let j = place_of(before, k);
                    assert(i == j);
                }
            }
        }
        self.entries = entries;
        proof {
            assert(self@ =~= map.insert(key@, value));
            assert(self.keys() =~= if map.dom().contains(key@) {
                keys
            } else {
                keys.push(key@)
            });
        }
    }

    /// Forgets a key; gives its value, where it has one.
    pub fn remove(&mut self, key: &K) -> (value: Option<V>)
        ensures
            final(self)@ == old(self)@.remove(key@),
            match value {
                Some(v) => old(self)@.dom().contains(key@) && v == old(self)@[key@],
                None => !old(self)@.dom().contains(key@),
            },
    {
        proof {
            use_type_invariant(&*self);
        }
        let ghost before = self.entries@;
        let ghost map = self@;
        let place = self.find(key);
        match place {
            Some(i) => {
                let mut entries: Vec<(K, V)> = Vec::new();
                std::mem::swap(&mut entries, &mut self.entries);
                let entry = entries.remove(i);
                proof {
                    let after = entries@;
                    assert(after =~= before.remove(i as int));
                    assert(before[i as int].0@ == key@);
                    assert forall|a: int, b: int|
                        0 <= a < after.len() && 0 <= b < after.len() && (#[trigger] after[a]).0@
                            == (#[trigger] after[b]).0@ implies a == b by {
                        let x = if a < i { a } else { a + 1 };
                        let y = if b < i { b } else { b + 1 };
                        assert(after[a] == before[x]);
                        assert(after[b] == before[y]);
                    }
                    assert forall|k: K::V| has_entry(after, k) <==> (k != key@ && has_entry(before, k)) by {
                        if k != key@ && has_entry(before, k) {
                            let j = place_of(before, k);
                            let x = if j < i { j } else { j - 1 };
                            assert(after[x] == before[j]);
                        }
                        if has_entry(after, k) {
                            let j = place_of(after, k);
                            let x = if j < i { j } else { j + 1 };
                            assert(after[j] == before[x]);
                        }
                    }
                    assert forall|k: K::V| has_entry(after, k) implies after[place_of(after, k)].1
                        == before[place_of(before, k)].1 by {
                        let j = place_of(after, k);
                        let x = if j < i { j } else { j + 1 };
                        assert(after[j] == before[x]);
                        assert(before[place_of(before, k)].0@ == k);
                    }
                }
                self.entries = entries;
                assert(self@ =~= map.remove(key@));
                Some(entry.1)
            },
            None => {
                assert(self@ =~= map.remove(key@));
                None
            },
        }
    }
}

/// A type whose values can be copied so that the copies have the same view.
pub trait Duplicate: View + Sized {
    /// A value with the same view.
    fn duplicate(&self) -> (copy: Self)
        ensures
            copy@ == self@,
    ;
}

impl<K: Key, V: Duplicate> Table<K, V> {
    /// A map with the same keys in the same order, and values with the same views.
    pub fn copy(&self) -> (copy: Self)
        ensures
            copy.keys() == self.keys(),
            value_views(copy@) == value_views(self@),
    {
        let n: usize = self.len();
        let mut out: Table<K, V> = Table::new();
        let mut i: usize = 0;
        assert(out.keys() =~= self.keys().take(0));
        while i < n
            invariant
                n == self.keys().len(),
                i <= n,
                self.keys().no_duplicates(),
                out.keys() == self.keys().take(i as int),
                forall|key: K::V|
                    out@.dom().contains(key) <==> #[trigger] self.keys().take(i as int).contains(
                        key,
                    ),
                forall|key: K::V|
                    out@.dom().contains(key) ==> #[trigger] out@[key]@ == self@[key]@,
            decreases n - i,
        {
            let ghost taken = self.keys().take(i as int);
            let ghost next = self.keys().take(i + 1);
            let ghost key = self.keys()[i as int];
            proof {
                assert(next =~= taken.push(key));
                if taken.contains(key) {
                    let j = choose|j: int| 0 <= j < taken.len() && taken[j] == key;
                    assert(self.keys()[j] == self.keys()[i as int]);
                }
                assert forall|x: K::V| #[trigger] next.contains(x) <==> (taken.contains(x) || x
                    == key) by {
                    if taken.contains(x) {
                        let j = choose|j: int| 0 <= j < taken.len() && taken[j] == x;
                        assert(next[j] == x);
                    }
                    if x == key {
                        assert(next[i as int] == x);
                    }
                    if next.contains(x) && x != key {
                        let j = choose|j: int| 0 <= j < next.len() && next[j] == x;
                        assert(taken[j] == x);
                    }
                }
            }
            out.insert(self.key_at(i).copy_key(), self.value_at(i).duplicate());
            i = i + 1;
        }
        proof {
            assert(self.keys().take(i as int) =~= self.keys());
            assert forall|x: K::V| out@.dom().contains(x) <==> self@.dom().contains(x) by {
                assert(self.keys().contains(x) <==> self@.dom().contains(x));
            }
            assert(value_views(out@) =~= value_views(self@));
        }
        out
    }
}

/// The views of the values of a map.
pub open spec fn value_views<K, V: View>(map: Map<K, V>) -> Map<K, V::V> {
    map.map_values(|value: V| value@)
}

/// The views of the values with one more value.
pub broadcast proof fn value_views_insert<K, V: View>(map: Map<K, V>, key: K, value: V)
    ensures
        #[trigger] value_views(map.insert(key, value)) == value_views(map).insert(key, value@),
{
    assert(value_views(map.insert(key, value)) =~= value_views(map).insert(key, value@));
}

/// No values have no views.
pub proof fn value_views_empty<K, V: View>()
    ensures
        value_views(Map::<K, V>::empty()) == Map::<K, V::V>::empty(),
{
    assert(value_views(Map::<K, V>::empty()) =~= Map::<K, V::V>::empty());
}

} // verus!
