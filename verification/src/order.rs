//! Views of collections, and stable sorting by a total order on views.

use crate::text::{text_before, text_less, text_less_irreflexive, text_less_total, text_less_transitive};
use vstd::prelude::*;

verus! {

/// The views of the items, in order.
pub open spec fn views<T: View>(items: Seq<T>) -> Seq<T::V> {
    items.map_values(|item: T| item@)
}

/// The views of items with one more behind them.
pub broadcast proof fn views_push<T: View>(items: Seq<T>, item: T)
    ensures
        #[trigger] views(items.push(item)) == views(items).push(item@),
{
    assert(views(items.push(item)) =~= views(items).push(item@));
}

/// There are as many views as items.
pub broadcast proof fn views_len<T: View>(items: Seq<T>)
    ensures
        #[trigger] views(items).len() == items.len(),
{
}

/// Every view is that of the item at its place.
pub broadcast proof fn views_index<T: View>(items: Seq<T>, i: int)
    requires
        0 <= i < items.len(),
    ensures
        #[trigger] views(items)[i] == items[i]@,
{
}

pub broadcast group group_views {
    views_push,
    views_len,
    views_index,
}

/// The view of an item that may be missing.
pub open spec fn view_of<T: View>(item: Option<T>) -> Option<T::V> {
    match item {
        Some(value) => Some(value@),
        None => None,
    }
}

/// The views of what an operation gives or reports.
pub open spec fn outcome<T: View, E: View>(result: Result<T, E>) -> Result<T::V, E::V> {
    match result {
        Ok(value) => Ok(value@),
        Err(error) => Err(error@),
    }
}

/// A type whose views have a strict order.
pub trait Ranked: View + Sized {
    /// The order on views.
    spec fn before(a: Self::V, b: Self::V) -> bool;

    /// No value precedes itself.
    proof fn before_irreflexive(a: Self::V)
        ensures
            !Self::before(a, a),
    ;

    /// The order is transitive.
    proof fn before_transitive(a: Self::V, b: Self::V, c: Self::V)
        requires
            Self::before(a, b),
            Self::before(b, c),
        ensures
            Self::before(a, c),
    ;

    /// Any two values that are not ordered have equal rank with all others.
    proof fn before_total(a: Self::V, b: Self::V, c: Self::V)
        requires
            Self::before(a, b),
        ensures
            Self::before(a, c) || Self::before(c, b),
    ;

    /// Whether this value precedes the other.
    fn is_before(&self, other: &Self) -> (r: bool)
        ensures
            r == Self::before(self@, other@),
    ;
}

/// An item put behind the last item that does not come after it.
pub open spec fn insert_ranked<T: Ranked>(items: Seq<T::V>, item: T::V) -> Seq<T::V>
    decreases items.len(),
{
    if items.len() == 0 || !T::before(item, items.last()) {
        items.push(item)
    } else {
        insert_ranked::<T>(items.drop_last(), item).push(items.last())
    }
}

/// The items in order; items of equal rank keep their relative order.
pub open spec fn ranked<T: Ranked>(items: Seq<T::V>) -> Seq<T::V>
    decreases items.len(),
{
    if items.len() == 0 {
        items
    } else {
        insert_ranked::<T>(ranked::<T>(items.drop_last()), items.last())
    }
}

/// No item precedes one that stands before it.
pub open spec fn in_order<T: Ranked>(items: Seq<T::V>) -> bool {
    forall|i: int, j: int| 0 <= i < j < items.len() ==> !T::before(items[j], items[i])
}

/// Insertion adds the item, and nothing else.
pub proof fn insert_ranked_adds<T: Ranked>(items: Seq<T::V>, item: T::V)
    ensures
        insert_ranked::<T>(items, item).to_multiset() == items.to_multiset().insert(item),
        insert_ranked::<T>(items, item).len() == items.len() + 1,
    decreases items.len(),
{
    broadcast use vstd::seq_lib::group_to_multiset_ensures;

    if !(items.len() == 0 || !T::before(item, items.last())) {
        insert_ranked_adds::<T>(items.drop_last(), item);
        assert(items =~= items.drop_last().push(items.last()));
        let rest = items.drop_last().to_multiset();
        assert(rest.insert(item).insert(items.last()) =~= rest.insert(items.last()).insert(item));
    }
}

/// Sorting keeps every item, as often as it occurs.
pub proof fn ranked_is_permutation<T: Ranked>(items: Seq<T::V>)
    ensures
        ranked::<T>(items).to_multiset() == items.to_multiset(),
        ranked::<T>(items).len() == items.len(),
    decreases items.len(),
{
    broadcast use vstd::seq_lib::group_to_multiset_ensures;

    if items.len() > 0 {
        ranked_is_permutation::<T>(items.drop_last());
        insert_ranked_adds::<T>(ranked::<T>(items.drop_last()), items.last());
        assert(items =~= items.drop_last().push(items.last()));
    }
}

/// Sorting neither adds nor loses a value.
pub proof fn ranked_same_items<T: Ranked>(items: Seq<T::V>, item: T::V)
    ensures
        ranked::<T>(items).contains(item) == items.contains(item),
{
    broadcast use vstd::seq_lib::group_to_multiset_ensures;

    ranked_is_permutation::<T>(items);
    assert(ranked::<T>(items).contains(item) <==> ranked::<T>(items).to_multiset().contains(item));
    assert(items.contains(item) <==> items.to_multiset().contains(item));
}

/// Insertion keeps sorted items sorted.
pub proof fn insert_ranked_in_order<T: Ranked>(items: Seq<T::V>, item: T::V)
    requires
        in_order::<T>(items),
    ensures
        in_order::<T>(insert_ranked::<T>(items, item)),
    decreases items.len(),
{
    let out = insert_ranked::<T>(items, item);
    if items.len() == 0 || !T::before(item, items.last()) {
        assert forall|i: int, j: int| 0 <= i < j < out.len() implies !T::before(out[j], out[i]) by {
            if j == items.len() && T::before(item, items[i]) {
                T::before_total(item, items[i], items.last());
                assert(T::before(items.last(), items[i]));
                if i < items.len() - 1 {
                    assert(!T::before(items[items.len() - 1], items[i]));
                }
            }
        }
    } else {
        let rest = items.drop_last();
        let head = insert_ranked::<T>(rest, item);
        insert_ranked_in_order::<T>(rest, item);
        insert_ranked_adds::<T>(rest, item);
        assert forall|i: int, j: int| 0 <= i < j < out.len() implies !T::before(out[j], out[i]) by {
            if j == out.len() - 1 {
                broadcast use vstd::seq_lib::group_to_multiset_ensures;

                assert(head.contains(head[i]));
                assert(head.to_multiset().contains(head[i]));
                if head[i] == item {
                    if T::before(items.last(), item) {
                        T::before_transitive(item, items.last(), item);
                        T::before_irreflexive(item);
                    }
                } else {
                    assert(rest.to_multiset().contains(head[i]));
                    assert(rest.contains(head[i]));
                    let k = choose|k: int| 0 <= k < rest.len() && rest[k] == head[i];
                    assert(items[k] == head[i]);
                    assert(!T::before(items[items.len() - 1], items[k]));
                }
            }
        }
    }
}

/// Sorting puts the items in order.
pub proof fn ranked_in_order<T: Ranked>(items: Seq<T::V>)
    ensures
        in_order::<T>(ranked::<T>(items)),
    decreases items.len(),
{
    if items.len() > 0 {
        ranked_in_order::<T>(items.drop_last());
        insert_ranked_in_order::<T>(ranked::<T>(items.drop_last()), items.last());
    }
}

/// Any two different values are ordered.
pub open spec fn total_rank<T: Ranked>() -> bool {
    forall|a: T::V, b: T::V| a != b ==> #[trigger] T::before(a, b) || T::before(b, a)
}

/// Any two different items are ordered.
pub open spec fn ranks_apart<T: Ranked>(items: Seq<T::V>) -> bool {
    forall|a: T::V, b: T::V|
        items.contains(a) && items.contains(b) && a != b ==> #[trigger] T::before(a, b) || T::before(
            b,
            a,
        )
}

/// Items in order with the same values in the same numbers are the same items.
pub proof fn ordered_is_unique<T: Ranked>(a: Seq<T::V>, b: Seq<T::V>)
    requires
        ranks_apart::<T>(a),
        in_order::<T>(a),
        in_order::<T>(b),
        a.to_multiset() == b.to_multiset(),
    ensures
        a == b,
    decreases a.len(),
{
    broadcast use vstd::seq_lib::group_to_multiset_ensures;

    assert(a.len() == a.to_multiset().len());
    assert(b.len() == b.to_multiset().len());
    if a.len() == 0 {
        assert(a =~= b);
    } else {
        let x = a.last();
        let y = b.last();
        assert(a.contains(x));
        assert(b.contains(y));
        assert(b.to_multiset().contains(x));
        assert(a.to_multiset().contains(y));
        let i = choose|i: int| 0 <= i < b.len() && b[i] == x;
        let j = choose|j: int| 0 <= j < a.len() && a[j] == y;
        if x != y {
            assert(!T::before(b[b.len() - 1], b[i]));
            assert(!T::before(a[a.len() - 1], a[j]));
            assert(a.contains(y));
            assert(T::before(x, y) || T::before(y, x));
        }
        assert(a =~= a.drop_last().push(x));
        assert(b =~= b.drop_last().push(y));
        assert(a.drop_last().to_multiset() =~= a.to_multiset().remove(x));
        assert(b.drop_last().to_multiset() =~= b.to_multiset().remove(y));
        let rest = a.drop_last();
        assert forall|p: T::V, q: T::V| rest.contains(p) && rest.contains(q) && p
            != q implies #[trigger] T::before(p, q) || T::before(q, p) by {
            let m = choose|m: int| 0 <= m < rest.len() && rest[m] == p;
            let n = choose|n: int| 0 <= n < rest.len() && rest[n] == q;
            assert(a[m] == p && a[n] == q);
            assert(a.contains(p) && a.contains(q));
        }
        ordered_is_unique::<T>(a.drop_last(), b.drop_last());
    }
}

/// Sorting forgets the order in which the items came.
pub proof fn ranked_ignores_order<T: Ranked>(a: Seq<T::V>, b: Seq<T::V>)
    requires
        ranks_apart::<T>(a),
        a.to_multiset() == b.to_multiset(),
    ensures
        ranked::<T>(a) == ranked::<T>(b),
{
    broadcast use vstd::seq_lib::group_to_multiset_ensures;

    ranked_is_permutation::<T>(a);
    ranked_is_permutation::<T>(b);
    ranked_in_order::<T>(a);
    ranked_in_order::<T>(b);
    let first = ranked::<T>(a);
    assert forall|p: T::V, q: T::V| first.contains(p) && first.contains(q) && p
        != q implies #[trigger] T::before(p, q) || T::before(q, p) by {
        ranked_same_items::<T>(a, p);
        ranked_same_items::<T>(a, q);
    }
    ordered_is_unique::<T>(first, ranked::<T>(b));
}

/// The values of a set in order, each once.
pub open spec fn arranged<T: Ranked>(items: Set<T::V>) -> Seq<T::V> {
    choose|s: Seq<T::V>| #[trigger] is_arranged::<T>(items, s)
}

/// Whether a sequence holds the values of a set in order, each once.
pub open spec fn is_arranged<T: Ranked>(items: Set<T::V>, s: Seq<T::V>) -> bool {
    s.no_duplicates() && in_order::<T>(s) && forall|x: T::V|
        items.contains(x) <==> #[trigger] s.contains(x)
}

/// There is one way to arrange a set.
pub proof fn arranged_is_unique<T: Ranked>(items: Set<T::V>, s: Seq<T::V>)
    requires
        total_rank::<T>(),
        is_arranged::<T>(items, s),
    ensures
        arranged::<T>(items) == s,
{
    let t = arranged::<T>(items);
    assert(is_arranged::<T>(items, t));
    s.lemma_multiset_has_no_duplicates();
    t.lemma_multiset_has_no_duplicates();
    broadcast use vstd::seq_lib::group_to_multiset_ensures;

    assert forall|x: T::V| s.to_multiset().count(x) == t.to_multiset().count(x) by {
        assert(s.contains(x) <==> t.contains(x)) by {
            assert(items.contains(x) <==> s.contains(x));
            assert(items.contains(x) <==> t.contains(x));
        }
        assert(s.to_multiset().contains(x) <==> s.contains(x));
        assert(t.to_multiset().contains(x) <==> t.contains(x));
    }
    assert(s.to_multiset() =~= t.to_multiset());
    ordered_is_unique::<T>(t, s);
}

/// Sorting values that differ arranges their set.
pub proof fn ranked_arranges<T: Ranked>(items: Seq<T::V>)
    requires
        total_rank::<T>(),
        items.no_duplicates(),
    ensures
        arranged::<T>(items.to_set()) == ranked::<T>(items),
        ranked::<T>(items).no_duplicates(),
{
    broadcast use vstd::seq_lib::group_to_multiset_ensures;

    let s = ranked::<T>(items);
    ranked_is_permutation::<T>(items);
    ranked_in_order::<T>(items);
    items.lemma_multiset_has_no_duplicates();
    s.lemma_multiset_has_no_duplicates_conv();
    assert forall|x: T::V| items.to_set().contains(x) <==> #[trigger] s.contains(x) by {
        ranked_same_items::<T>(items, x);
    }
    arranged_is_unique::<T>(items.to_set(), s);
}

/// The values of a finite set can be listed, each once.
proof fn listing<A>(items: Set<A>) -> (list: Seq<A>)
    requires
        items.finite(),
    ensures
        list.no_duplicates(),
        list.to_set() == items,
    decreases items.len(),
{
    if items.len() == 0 {
        let list = Seq::<A>::empty();
        assert(list.to_set() =~= items);
        list
    } else {
        let x = items.choose();
        let rest = listing(items.remove(x));
        let list = rest.push(x);
        assert(!rest.contains(x)) by {
            assert(rest.contains(x) ==> rest.to_set().contains(x));
        }
        assert forall|y: A| #[trigger] list.to_set().contains(y) <==> items.contains(y) by {
            vstd::seq_lib::lemma_seq_contains_after_push(rest, x, y);
            assert(rest.contains(y) <==> rest.to_set().contains(y));
        }
        assert(list.to_set() =~= items);
        list
    }
}

/// A finite set can be arranged.
pub proof fn arranged_holds<T: Ranked>(items: Set<T::V>)
    requires
        total_rank::<T>(),
        items.finite(),
    ensures
        is_arranged::<T>(items, arranged::<T>(items)),
{
    let list = listing(items);
    ranked_arranges::<T>(list);
    ranked_in_order::<T>(list);
    assert forall|x: T::V| items.contains(x) <==> #[trigger] ranked::<T>(list).contains(x) by {
        ranked_same_items::<T>(list, x);
        assert(list.to_set().contains(x) <==> list.contains(x));
    }
    assert(is_arranged::<T>(items, ranked::<T>(list)));
}

/// Puts an item in its place among sorted items.
pub fn insert_sorted<T: Ranked>(items: &mut Vec<T>, item: T)
    ensures
        views(final(items)@) == insert_ranked::<T>(views(old(items)@), item@),
{
    let ghost all = views(items@);
    let ghost start = items@;
    let mut at: usize = items.len();
    proof {
        assert(all.take(at as int) =~= all);
        assert(all.skip(at as int) =~= Seq::empty());
        assert(insert_ranked::<T>(all, item@) =~= insert_ranked::<T>(all, item@) + Seq::empty());
    }
    while at > 0 && item.is_before(&items[at - 1])
        invariant
            items@ == start,
            all == views(start),
            at <= start.len(),
            insert_ranked::<T>(all, item@) == insert_ranked::<T>(all.take(at as int), item@)
                + all.skip(at as int),
        decreases at,
    {
        proof {
            let head = all.take(at as int);
            assert(head.drop_last() =~= all.take(at - 1));
            assert(head.last() == all[at - 1]);
            assert(insert_ranked::<T>(all.take(at - 1), item@).push(all[at - 1]) + all.skip(
                at as int,
            ) =~= insert_ranked::<T>(all.take(at - 1), item@) + all.skip(at - 1));
        }
        at = at - 1;
    }
    proof {
        let head = all.take(at as int);
        assert(head.len() > 0 ==> head.last() == all[at - 1]);
        assert(insert_ranked::<T>(head, item@) == head.push(item@));
        assert(views(start.insert(at as int, item)) =~= head.push(item@) + all.skip(at as int));
    }
    items.insert(at, item);
}

/// Sorts the items; items of equal rank keep their relative order.
pub fn sort_ranked<T: Ranked>(items: Vec<T>) -> (sorted: Vec<T>)
    ensures
        views(sorted@) == ranked::<T>(views(items@)),
{
    let ghost all = views(items@);
    let mut out: Vec<T> = Vec::new();
    assert(views(out@) =~= all.take(0));
    for item in it: items
        invariant
            all == views(it.seq()),
            views(out@) == ranked::<T>(all.take(it.index() as int)),
    {
        proof {
            let next = all.take(it.index() + 1);
            assert(next.drop_last() =~= all.take(it.index() as int));
            assert(next.last() == item@);
        }
        insert_sorted(&mut out, item);
    }
    assert(all.take(all.len() as int) =~= all);
    out
}

impl Ranked for String {
    open spec fn before(a: Seq<char>, b: Seq<char>) -> bool {
        text_less(a, b)
    }

    proof fn before_irreflexive(a: Seq<char>) {
        text_less_irreflexive(a);
    }

    proof fn before_transitive(a: Seq<char>, b: Seq<char>, c: Seq<char>) {
        text_less_transitive(a, b, c);
    }

    proof fn before_total(a: Seq<char>, b: Seq<char>, c: Seq<char>) {
        text_less_total(a, c);
        if text_less(c, a) {
            text_less_transitive(c, a, b);
        }
    }

    fn is_before(&self, other: &Self) -> bool {
        text_before(self.as_str(), other.as_str())
    }
}

} // verus!
