//! Sets of keys, and texts that occur once and in order.

use crate::order::{arranged, ranked_arranges, sort_ranked, total_rank, views, Ranked};
use crate::table::{Duplicate, Key, Table};
use crate::text::text_less_total;
use vstd::prelude::*;
use vstd::seq_lib::lemma_seq_contains_after_push;

verus! {

broadcast use crate::order::group_views;

/// A set of keys.
#[derive(Debug)]
pub struct KeySet<K: Key> {
    items: Table<K, bool>,
}

impl<K: Key> View for KeySet<K> {
    type V = Set<K::V>;

    closed spec fn view(&self) -> Set<K::V> {
        self.items@.dom()
    }
}

impl<K: Key> KeySet<K> {
    /// The keys, in the order in which they came.
    pub closed spec fn keys(&self) -> Seq<K::V> {
        self.items.keys()
    }

    /// The set without keys.
    pub fn new() -> (set: Self)
        ensures
            set@ == Set::<K::V>::empty(),
            set.keys() == Seq::<K::V>::empty(),
    {
        let set = KeySet { items: Table::new() };
        assert(set@ =~= Set::empty());
        set
    }

    /// How many keys the set has.
    pub fn len(&self) -> (n: usize)
        ensures
            n == self.keys().len(),
            n == self@.len(),
            self@.finite(),
            self.keys().no_duplicates(),
            forall|key: K::V| self@.contains(key) <==> #[trigger] self.keys().contains(key),
    {
        self.items.len()
    }

    /// The key at one place.
    pub fn key_at(&self, i: usize) -> (key: &K)
        requires
            i < self.keys().len(),
        ensures
            key@ == self.keys()[i as int],
            self@.contains(key@),
    {
        self.items.key_at(i)
    }

    /// Whether the set has a key.
    pub fn contains(&self, key: &K) -> (found: bool)
        ensures
            found == self@.contains(key@),
    {
        self.items.contains(key)
    }

    /// Adds a key.
    pub fn insert(&mut self, key: K)
        ensures
            final(self)@ == old(self)@.insert(key@),
            final(self).keys() == if old(self)@.contains(key@) {
                old(self).keys()
            } else {
                old(self).keys().push(key@)
            },
    {
        let ghost before = self@;
        self.items.insert(key, true);
        assert(self@ =~= before.insert(key@));
    }

    /// Forgets a key; says whether it was known.
    pub fn remove(&mut self, key: &K) -> (known: bool)
        ensures
            known == old(self)@.contains(key@),
            final(self)@ == old(self)@.remove(key@),
    {
        let ghost before = self.items@;
        let known = self.items.remove(key).is_some();
        assert(self@ =~= before.dom().remove(key@));
        known
    }
}

impl<K: Key> Duplicate for KeySet<K> {
    fn duplicate(&self) -> Self {
        let mut copy: KeySet<K> = KeySet::new();
        let n: usize = self.len();
        let mut i: usize = 0;
        while i < n
            invariant
                n == self.keys().len(),
                i <= n,
                forall|key: K::V| self@.contains(key) <==> #[trigger] self.keys().contains(key),
                forall|key: K::V| #[trigger]
                    copy@.contains(key) <==> self.keys().take(i as int).contains(key),
            decreases n - i,
        {
            let key = self.key_at(i);
            let ghost taken = self.keys().take(i as int);
            let ghost before = copy@;
            copy.insert(key.copy_key());
            proof {
                assert(self.keys().take(i + 1) =~= taken.push(key@));
                assert forall|x: K::V| #[trigger] copy@.contains(x) <==> self.keys().take(
                    i + 1,
                ).contains(x) by {
                    lemma_seq_contains_after_push(taken, key@, x);
                    assert(before.contains(x) <==> taken.contains(x));
                }
            }
            i = i + 1;
        }
        proof {
            assert(self.keys().take(i as int) =~= self.keys());
            assert(copy@ =~= self@);
        }
        copy
    }
}

/// Any two texts are ordered.
pub proof fn texts_rank()
    ensures
        total_rank::<String>(),
{
    assert forall|a: Seq<char>, b: Seq<char>| a != b implies #[trigger] String::before(a, b)
        || String::before(b, a) by {
        text_less_total(a, b);
    }
}

/// Sorts texts, each once.
pub fn sort_distinct(items: &Vec<String>) -> (sorted: Vec<String>)
    ensures
        views(sorted@) == arranged::<String>(views(items@).to_set()),
{
    let ghost all = views(items@);
    let mut distinct: KeySet<String> = KeySet::new();
    let mut kept: Vec<String> = Vec::new();
    let mut i: usize = 0;
    assert(views(kept@) =~= Seq::empty());
    assert(distinct.keys() =~= views(kept@));
    while i < items.len()
        invariant
            i <= items@.len(),
            all == views(items@),
            views(kept@) == distinct.keys(),
            forall|x: Seq<char>| #[trigger]
                distinct@.contains(x) <==> all.take(i as int).contains(x),
        decreases items.len() - i,
    {
        let item = &items[i];
        let ghost taken = all.take(i as int);
        let ghost before = distinct@;
        if !distinct.contains(item) {
            kept.push(item.clone());
        }
        distinct.insert(item.clone());
        proof {
            assert(all.take(i + 1) =~= taken.push(item@));
            assert forall|x: Seq<char>| #[trigger] distinct@.contains(x) <==> all.take(
                i + 1,
            ).contains(x) by {
                lemma_seq_contains_after_push(taken, item@, x);
                assert(before.contains(x) <==> taken.contains(x));
            }
        }
        i = i + 1;
    }
    let _ = distinct.len();
    let ghost keys = views(kept@);
    let sorted = sort_ranked(kept);
    proof {
        assert(all.take(i as int) =~= all);
        texts_rank();
        ranked_arranges::<String>(keys);
        assert forall|x: Seq<char>| keys.to_set().contains(x) <==> all.to_set().contains(x) by {
            assert(distinct@.contains(x) <==> distinct.keys().contains(x));
        }
        assert(keys.to_set() =~= all.to_set());
    }
    sorted
}

} // verus!
