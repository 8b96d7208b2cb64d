//! Which projects and tasks of which source roots are affected by changed files.

use crate::graph::{
    graph_edges, graph_nodes, grown, has_edge, leads_to, neighbors, neighbors_are_edges, neighbors_of,
    nodes_from, Direction,
};
use crate::keyset::KeySet;
use crate::table::{value_views, Duplicate, Key, Table};
use vstd::prelude::*;
use vstd::seq_lib::lemma_seq_contains_after_push;

verus! {

broadcast use {crate::order::group_views, crate::table::value_views_insert};

/// How far the relations of a task or project are followed.
#[derive(Clone, Copy, PartialEq, Eq, Structural, Debug, Hash)]
pub enum RelationScope {
    /// Not at all.
    Nothing,
    /// To direct relations.
    Direct,
    /// As far as they go.
    Deep,
}

/// How far dependencies are followed.
pub type UpstreamScope = RelationScope;

/// How far dependents are followed.
pub type DownstreamScope = RelationScope;

impl RelationScope {
    /// Relations are followed at this depth.
    pub open spec fn in_scope_spec(self, depth: int) -> bool {
        match self {
            RelationScope::Nothing => false,
            RelationScope::Direct => depth == 0,
            RelationScope::Deep => true,
        }
    }

    /// Whether relations are followed at this depth.
    pub fn is_in_scope(&self, depth: u8) -> (r: bool)
        ensures
            r == self.in_scope_spec(depth as int),
    {
        match self {
            RelationScope::Nothing => false,
            RelationScope::Direct => depth == 0,
            RelationScope::Deep => true,
        }
    }
}

/// Why a project or task is affected by itself.
pub trait Causes: View + Sized {
    /// No cause.
    spec fn none() -> Self::V;

    /// No cause.
    fn empty() -> (causes: Self)
        ensures
            causes@ == Self::none(),
    ;
}

/// Why something is affected: by itself, and by what it is related to.
#[verifier::reject_recursive_types(K)]
pub struct StateView<K, C> {
    pub causes: C,
    pub upstream: Set<K>,
    pub downstream: Set<K>,
}

/// Why something is affected: by itself, and by what it is related to.
#[derive(Debug)]
pub struct AffectedState<K: Key, C> {
    pub causes: C,
    pub upstream: KeySet<K>,
    pub downstream: KeySet<K>,
}

impl<K: Key, C: Causes> View for AffectedState<K, C> {
    type V = StateView<K::V, C::V>;

    open spec fn view(&self) -> StateView<K::V, C::V> {
        StateView {
            causes: self.causes@,
            upstream: self.upstream@,
            downstream: self.downstream@,
        }
    }
}

/// The state of what is not affected yet.
pub open spec fn no_state<K: Key, C: Causes>() -> StateView<K::V, C::V> {
    StateView { causes: C::none(), upstream: Set::empty(), downstream: Set::empty() }
}

/// The state of something, affected or not.
pub open spec fn state_of<K: Key, C: Causes>(
    states: Map<K::V, StateView<K::V, C::V>>,
    key: K::V,
) -> StateView<K::V, C::V> {
    if states.dom().contains(key) {
        states[key]
    } else {
        no_state::<K, C>()
    }
}

/// A state with one more relation.
pub open spec fn related_state<K, C>(
    state: StateView<K, C>,
    upstream: bool,
    from: K,
) -> StateView<K, C> {
    if upstream {
        StateView { downstream: state.downstream.insert(from), ..state }
    } else {
        StateView { upstream: state.upstream.insert(from), ..state }
    }
}

/// Something is related to an item.
pub open spec fn has_link<V>(linked: spec_fn(V, V) -> bool, key: V) -> bool {
    exists|from: V| #[trigger] linked(from, key)
}

/// The states once what is related to something knows of it. Following dependencies,
/// they learn what depends on them, and following dependents the other way round.
pub open spec fn relate_all<K: Key, C: Causes>(
    states: Map<K::V, StateView<K::V, C::V>>,
    upstream: bool,
    linked: spec_fn(K::V, K::V) -> bool,
) -> Map<K::V, StateView<K::V, C::V>> {
    Map::new(
        |key: K::V| states.dom().contains(key) || has_link(linked, key),
        |key: K::V|
            {
                let state = state_of::<K, C>(states, key);
                let added = Set::new(|from: K::V| linked(from, key));
                if upstream {
                    StateView { downstream: state.downstream.union(added), ..state }
                } else {
                    StateView { upstream: state.upstream.union(added), ..state }
                }
            },
    )
}

/// The state of something, with room for one that is not affected yet.
pub(crate) fn take_state<K: Key, C: Causes + Duplicate>(
    states: &Table<K, AffectedState<K, C>>,
    key: &K,
) -> (state: AffectedState<K, C>)
    ensures
        state@ == state_of::<K, C>(value_views(states@), key@),
{
    match states.get(key) {
        Some(state) => AffectedState {
            causes: state.causes.duplicate(),
            upstream: state.upstream.duplicate(),
            downstream: state.downstream.duplicate(),
        },
        None => AffectedState {
            causes: C::empty(),
            upstream: KeySet::new(),
            downstream: KeySet::new(),
        },
    }
}

/// Pairs of related items.
pub open spec fn pair_views<K: Key>(pairs: Seq<(K, K)>) -> Seq<(K::V, K::V)> {
    pairs.map_values(|pair: (K, K)| (pair.0@, pair.1@))
}

/// Two items are related by pairs.
pub open spec fn linked_by<V>(pairs: Seq<(V, V)>) -> spec_fn(V, V) -> bool {
    |from: V, to: V| pairs.contains((from, to))
}

/// Tells related items of each other.
pub(crate) fn relate_pairs<K: Key, C: Causes + Duplicate>(
    states: &mut Table<K, AffectedState<K, C>>,
    upstream: bool,
    pairs: &Vec<(K, K)>,
)
    ensures
        value_views(final(states)@) == relate_all::<K, C>(
            value_views(old(states)@),
            upstream,
            linked_by(pair_views(pairs@)),
        ),
{
    let ghost before = value_views(states@);
    let ghost all = pair_views(pairs@);
    let mut i: usize = 0;
    proof {
        let none = linked_by(all.take(0));
        assert forall|key: K::V| !#[trigger] has_link(none, key) by {
            assert forall|from: K::V| !#[trigger] none(from, key) by {}
        }
        let start = relate_all::<K, C>(before, upstream, none);
        assert forall|key: K::V| before.dom().contains(key) implies #[trigger] start[key]
            == before[key] by {
            let added = Set::new(|from: K::V| none(from, key));
            assert(added =~= Set::empty());
            assert(before[key].downstream.union(added) =~= before[key].downstream);
            assert(before[key].upstream.union(added) =~= before[key].upstream);
        }
        assert(start =~= before);
    }
    while i < pairs.len()
        invariant
            i <= pairs@.len(),
            all == pair_views(pairs@),
            value_views(states@) == relate_all::<K, C>(
                before,
                upstream,
                linked_by(all.take(i as int)),
            ),
        decreases pairs.len() - i,
    {
        let pair = &pairs[i];
        let ghost from = pair.0@;
        let ghost to = pair.1@;
        let ghost taken = all.take(i as int);
        let ghost next = all.take(i + 1);
        let ghost known = value_views(states@);
        let mut state = take_state(states, &pair.1);
        let ghost old_state = state@;
        if upstream {
            state.downstream.insert(pair.0.copy_key());
        } else {
            state.upstream.insert(pair.0.copy_key());
        }
        assert(state@ == related_state(old_state, upstream, from));
        states.insert(pair.1.copy_key(), state);
        proof {
            assert(all[i as int] == (from, to));
            assert(next =~= taken.push((from, to)));
            let less = linked_by(taken);
            let more = linked_by(next);
            assert forall|x: K::V, y: K::V| #[trigger] more(x, y) <==> less(x, y) || (x == from && y
                == to) by {
                lemma_seq_contains_after_push(taken, (from, to), (x, y));
            }
            let a = relate_all::<K, C>(before, upstream, less);
            let b = relate_all::<K, C>(before, upstream, more);
            assert(known == a);
            assert forall|key: K::V| b.dom().contains(key) <==> a.insert(
                to,
                related_state(old_state, upstream, from),
            ).dom().contains(key) by {
                if has_link(less, key) {
                    let x = choose|x: K::V| #[trigger] less(x, key);
                    assert(more(x, key));
                }
                if has_link(more, key) {
                    let x = choose|x: K::V| #[trigger] more(x, key);
                    assert(less(x, key) || key == to);
                }
                assert(more(from, to));
            }
            assert forall|key: K::V| b.dom().contains(key) implies #[trigger] b[key] == a.insert(
                to,
                related_state(old_state, upstream, from),
            )[key] by {
                let added_less = Set::new(|x: K::V| less(x, key));
                let added_more = Set::new(|x: K::V| more(x, key));
                let state = state_of::<K, C>(before, key);
                if key == to {
                    assert(added_more =~= added_less.insert(from));
                    assert(state.downstream.union(added_more) =~= state.downstream.union(
                        added_less,
                    ).insert(from));
                    assert(state.upstream.union(added_more) =~= state.upstream.union(
                        added_less,
                    ).insert(from));
                    if !a.dom().contains(to) {
                        assert(!has_link(less, to));
                        assert forall|x: K::V| !#[trigger] less(x, to) by {}
                        assert(added_less =~= Set::empty());
                        assert(state.downstream.union(added_less) =~= state.downstream);
                        assert(state.upstream.union(added_less) =~= state.upstream);
                    }
                } else {
                    assert(added_more =~= added_less);
                    if !before.dom().contains(key) {
                        let x = choose|x: K::V| #[trigger] more(x, key);
                        assert(less(x, key));
                    }
                    assert(a.dom().contains(key));
                }
            }
            assert(value_views(states@) =~= b);
        }
        i = i + 1;
    }
    assert(all.take(i as int) =~= all);
}

/// A node whose relations are followed.
pub open spec fn is_followed(
    edges: Seq<(usize, usize, u8)>,
    start: usize,
    direction: Direction,
    scope: RelationScope,
    node: usize,
) -> bool {
    match scope {
        RelationScope::Nothing => false,
        RelationScope::Direct => node == start,
        RelationScope::Deep => leads_to(edges, direction, start, node),
    }
}

/// Two nodes are related along a direction, where the relations of the first are
/// followed.
pub open spec fn is_related(
    edges: Seq<(usize, usize, u8)>,
    start: usize,
    direction: Direction,
    scope: RelationScope,
    from: usize,
    to: usize,
) -> bool {
    is_followed(edges, start, direction, scope, from) && match direction {
        Direction::Outgoing => has_edge(edges, from, to),
        Direction::Incoming => has_edge(edges, to, from),
    }
}

/// The pairs of nodes that are related along a direction from one node.
pub(crate) fn related_pairs(
    graph: &petgraph::Graph<usize, u8, petgraph::Directed, u32>,
    start: usize,
    direction: Direction,
    scope: RelationScope,
) -> (pairs: Vec<(usize, usize)>)
    requires
        start < graph_nodes(*graph),
        grown(*graph),
    ensures
        forall|from: usize, to: usize|
            #[trigger] pairs@.contains((from, to)) <==> is_related(
                graph_edges(*graph),
                start,
                direction,
                scope,
                from,
                to,
            ),
        forall|i: int|
            0 <= i < pairs@.len() ==> (#[trigger] pairs@[i]).0 < graph_nodes(*graph) && pairs@[i].1
                < graph_nodes(*graph),
{
    let _ = crate::graph::edge_list(graph);
    let ghost edges = graph_edges(*graph);
    let mut followed: Vec<usize> = Vec::new();
    match scope {
        RelationScope::Nothing => {},
        RelationScope::Direct => {
            followed.push(start);
            assert(followed@[0] == start);
        },
        RelationScope::Deep => {
            followed = nodes_from(graph, start, direction);
        },
    }
    assert forall|x: usize| #[trigger] followed@.contains(x) <==> is_followed(
        edges,
        start,
        direction,
        scope,
        x,
    ) by {
        if scope == RelationScope::Direct && x == start {
            assert(followed@.contains(start));
        }
    }
    let mut pairs: Vec<(usize, usize)> = Vec::new();
    let mut i: usize = 0;
    while i < followed.len()
        invariant
            i <= followed@.len(),
            edges == graph_edges(*graph),
            grown(*graph),
            crate::graph::edges_within(edges, graph_nodes(*graph)),
            forall|j: int| 0 <= j < followed@.len() ==> #[trigger] followed@[j] < graph_nodes(*graph),
            forall|from: usize, to: usize|
                #[trigger] pairs@.contains((from, to)) <==> followed@.take(i as int).contains(from)
                    && neighbors(edges, from, direction).contains(to),
            forall|j: int|
                0 <= j < pairs@.len() ==> (#[trigger] pairs@[j]).0 < graph_nodes(*graph)
                    && pairs@[j].1 < graph_nodes(*graph),
        decreases followed.len() - i,
    {
        let from = followed[i];
        let ghost taken = followed@.take(i as int);
        let ghost next_taken = followed@.take(i + 1);
        let ghost before = pairs@;
        assert(followed@[i as int] < graph_nodes(*graph));
        let nexts = neighbors_of(graph, from, direction);
        let mut j: usize = 0;
        proof {
            assert(next_taken =~= taken.push(from));
            assert forall|k: int| 0 <= k < nexts@.len() implies #[trigger] nexts@[k] < graph_nodes(
                *graph,
            ) by {
                assert(nexts@.contains(nexts@[k]));
                neighbors_are_edges(edges, from, direction, nexts@[k]);
            }
        }
        while j < nexts.len()
            invariant
                j <= nexts@.len(),
                from < graph_nodes(*graph),
                forall|k: int| 0 <= k < nexts@.len() ==> #[trigger] nexts@[k] < graph_nodes(*graph),
                forall|x: usize, y: usize|
                    #[trigger] pairs@.contains((x, y)) <==> before.contains((x, y)) || (x == from
                        && nexts@.take(j as int).contains(y)),
                forall|k: int|
                    0 <= k < pairs@.len() ==> (#[trigger] pairs@[k]).0 < graph_nodes(*graph)
                        && pairs@[k].1 < graph_nodes(*graph),
            decreases nexts.len() - j,
        {
            let to = nexts[j];
            let ghost inner = pairs@;
            let ghost seen = nexts@.take(j as int);
            assert(nexts@[j as int] < graph_nodes(*graph));
            pairs.push((from, to));
            proof {
                assert(nexts@.take(j + 1) =~= seen.push(to));
                assert forall|x: usize, y: usize| #[trigger] pairs@.contains((x, y))
                    <==> before.contains((x, y)) || (x == from && nexts@.take(j + 1).contains(y)) by {
                    lemma_seq_contains_after_push(inner, (from, to), (x, y));
                    lemma_seq_contains_after_push(seen, to, y);
                    assert(inner.contains((x, y)) <==> before.contains((x, y)) || (x == from
                        && seen.contains(y)));
                }
            }
            j = j + 1;
        }
        proof {
            assert(nexts@.take(j as int) =~= nexts@);
            assert forall|x: usize, y: usize| #[trigger] pairs@.contains((x, y))
                <==> next_taken.contains(x) && neighbors(edges, x, direction).contains(y) by {
                lemma_seq_contains_after_push(taken, from, x);
                assert(before.contains((x, y)) <==> taken.contains(x) && neighbors(
                    edges,
                    x,
                    direction,
                ).contains(y));
            }
        }
        i = i + 1;
    }
    proof {
        assert(followed@.take(i as int) =~= followed@);
        assert forall|from: usize, to: usize|
            #[trigger] pairs@.contains((from, to)) <==> is_related(
                edges,
                start,
                direction,
                scope,
                from,
                to,
            ) by {
            neighbors_are_edges(edges, from, direction, to);
            assert(followed@.contains(from) <==> is_followed(edges, start, direction, scope, from));
        }
    }
    pairs
}

} // verus!
