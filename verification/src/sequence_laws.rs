//! In which order actions, projects and setups come.

use crate::action_state::{
    link_one, link_serial, order_setup, serial_walk, try_link, ActionGraphFault, StateView,
};
use crate::fold::fold;
use crate::graph::{connected, connected_grows, has_edge};
use crate::keys::ProjectKeyView;
use crate::project_graph::ProjectGraphView;
use crate::project_queries::{dependency_first, graph_valid, keys_at};
use crate::runtime::SourceContextView;
use crate::scopes::{label_in, partition_edges, ScopePartition};
use crate::task_graph::link_task;
use vstd::prelude::*;

verus! {

/// An action that is to wait for another does so, unless it would wait for itself or there is
/// no room: then nothing changes. No other wait is added, and none is lost.
pub proof fn actions_wait_unless_for_themselves(
    state: StateView,
    index: usize,
    to: usize,
    label: u8,
)
    ensures
        ({
            let (after, done) = link_one(state, index, to, label);
            &&& done is Ok ==> has_edge(after.graph.edges, index, to)
            &&& done is Ok && !has_edge(state.graph.edges, index, to) ==> {
                &&& after.graph.edges.len() == state.graph.edges.len() + 1
                &&& after.graph.edges.last() == (index, to, label)
                &&& after.serial.last() == false
            }
            &&& done is Err ==> after == state && !has_edge(state.graph.edges, index, to)
            &&& done matches Err(ActionGraphFault::WouldCycle { .. }) ==> connected(
                state.graph.edges,
                to,
                index,
            )
            &&& forall|a: usize, b: usize| #[trigger]
                has_edge(after.graph.edges, a, b) ==> has_edge(state.graph.edges, a, b) || (a
                    == index && b == to)
            &&& forall|a: usize, b: usize| #[trigger]
                has_edge(state.graph.edges, a, b) ==> has_edge(after.graph.edges, a, b)
            &&& after.nodes == state.nodes
            &&& after.tails == state.tails
        }),
{
    let (after, done) = link_one(state, index, to, label);
    let edges = state.graph.edges;
    if after.graph.edges != edges {
        assert(after.graph.edges == edges.push((index, to, label)));
        assert(after.graph.edges[edges.len() as int] == (index, to, label));
        pushed_edges(edges, (index, to, label));
    }
}

proof fn pushed_edges(edges: Seq<(usize, usize, u8)>, edge: (usize, usize, u8))
    ensures
        forall|a: usize, b: usize| #[trigger]
            has_edge(edges.push(edge), a, b) <==> has_edge(edges, a, b) || (a == edge.0 && b
                == edge.1),
{
    let more = edges.push(edge);
    assert(more[edges.len() as int] == edge);
    assert forall|a: usize, b: usize| #[trigger] has_edge(more, a, b) <==> has_edge(edges, a, b)
        || (a == edge.0 && b == edge.1) by {
        if has_edge(edges, a, b) {
            let i = choose|i: int|
                0 <= i < edges.len() && (#[trigger] edges[i]).0 == a && edges[i].1 == b;
            assert(more[i].0 == a && more[i].1 == b);
        }
        if has_edge(more, a, b) && !(a == edge.0 && b == edge.1) {
            let i = choose|i: int|
                0 <= i < more.len() && (#[trigger] more[i]).0 == a && more[i].1 == b;
            assert(edges[i].0 == a && edges[i].1 == b);
        }
    }
}

/// A setup waits for the one before it in the same store where that belongs to another source
/// root, and for none otherwise. It is then the last one there, and other stores are as they
/// were.
pub proof fn setups_of_one_store_follow_each_other(
    state: StateView,
    index: usize,
    context: SourceContextView,
)
    requires
        order_setup(state, index, context).1 is Ok,
    ensures
        ({
            let after = order_setup(state, index, context).0;
            let store = context.store;
            &&& after.tails.dom().contains(store)
            &&& after.tails[store].index == index
            &&& after.tails[store].source == context.source_id
            &&& forall|other: Seq<char>|
                other != store ==> (after.tails.dom().contains(other)
                    <==> #[trigger] state.tails.dom().contains(other))
            &&& forall|other: Seq<char>|
                other != store && #[trigger] state.tails.dom().contains(other)
                    ==> after.tails[other] == state.tails[other]
            &&& if state.tails.dom().contains(store) && state.tails[store].source
                != context.source_id {
                has_edge(after.graph.edges, index, state.tails[store].index)
            } else {
                after.graph == state.graph
            }
        }),
{
    let after = StateView {
        tails: state.tails.insert(
            context.store,
            crate::action_state::TailView { source: context.source_id, index },
        ),
        ..state
    };
    if state.tails.dom().contains(context.store) && state.tails[context.store].source
        != context.source_id {
        actions_wait_unless_for_themselves(after, index, state.tails[context.store].index, 1);
    }
}

/// An action waits for another in time, or the other already waits for it.
pub open spec fn is_apart(state: StateView, index: usize, previous: usize) -> bool {
    ||| has_edge(state.graph.edges, index, previous)
    ||| connected(state.graph.edges, previous, index)
}

proof fn all_are_kept_apart(items: Seq<usize>, state: StateView, previous: usize)
    ensures
        ({
            let after = fold(items, state, try_link(previous));
            &&& after.nodes == state.nodes
            &&& state.graph.edges.len() <= after.graph.edges.len()
            &&& state.graph.edges.is_prefix_of(after.graph.edges)
            &&& forall|a: usize, b: usize| #[trigger]
                has_edge(after.graph.edges, a, b) ==> has_edge(state.graph.edges, a, b) || (b
                    == previous && items.contains(a))
            &&& after.graph.edges.len() < u32::MAX ==> forall|i: int|
                0 <= i < items.len() ==> is_apart(after, #[trigger] items[i], previous)
        }),
    decreases items.len(),
{
    if items.len() > 0 {
        let rest = items.drop_last();
        let last = items.len() - 1;
        all_are_kept_apart(rest, state, previous);
        let before = fold(rest, state, try_link(previous));
        let after = fold(items, state, try_link(previous));
        let item = items.last();
        assert(items[last] == item);
        assert(after == try_link(previous)(before, item));
        if after.graph.edges != before.graph.edges {
            pushed_edges(before.graph.edges, (item, previous, 1));
        }
        assert forall|a: usize, b: usize| #[trigger] has_edge(after.graph.edges, a, b) implies
            has_edge(state.graph.edges, a, b) || (b == previous && items.contains(a)) by {
            if has_edge(before.graph.edges, a, b) {
                if rest.contains(a) {
                    let i = choose|i: int| 0 <= i < rest.len() && rest[i] == a;
                    assert(items[i] == a);
                }
            }
        }
        if after.graph.edges.len() < u32::MAX {
            assert forall|i: int| 0 <= i < items.len() implies is_apart(
                after,
                #[trigger] items[i],
                previous,
            ) by {
                if i < last {
                    assert(rest[i] == items[i]);
                    assert(is_apart(before, rest[i], previous));
                    if connected(before.graph.edges, previous, items[i]) {
                        if after.graph.edges != before.graph.edges {
                            connected_grows(
                                before.graph.edges,
                                (item, previous, 1),
                                previous,
                                items[i],
                            );
                        }
                    }
                }
            }
        }
    }
}

/// Actions that come one after the other are kept apart in time: an action, and every task that
/// a walk from it comes by, waits for the one before, unless that already waits for it. Nothing
/// else waits for anything new.
pub proof fn actions_that_follow_are_kept_apart(state: StateView, index: usize, previous: usize)
    ensures
        ({
            let after = link_serial(state, index, previous);
            let walked = serial_walk(state, seq![index], Seq::empty());
            &&& after.nodes == state.nodes
            &&& forall|a: usize, b: usize| #[trigger]
                has_edge(after.graph.edges, a, b) ==> has_edge(state.graph.edges, a, b) || (b
                    == previous && walked.contains(a))
            &&& after.graph.edges.len() < u32::MAX ==> forall|i: int|
                0 <= i < walked.len() ==> is_apart(after, #[trigger] walked[i], previous)
        }),
{
    all_are_kept_apart(serial_walk(state, seq![index], Seq::empty()), state, previous);
}

/// A task needs another, and not only where that is there.
pub open spec fn is_required(edges: Seq<(usize, usize, u8)>, from: usize, to: usize) -> bool {
    exists|i: int|
        0 <= i < edges.len() && (#[trigger] edges[i]).0 == from && edges[i].1 == to && edges[i].2
            == 1
}

/// A dependency that is declared twice is required where either declaration requires it, and
/// no other dependency changes.
pub proof fn required_dependencies_stay_required(
    edges: Seq<(usize, usize, u8)>,
    from: usize,
    to: usize,
    label: u8,
)
    requires
        label <= 1,
        forall|i: int| 0 <= i < edges.len() ==> (#[trigger] edges[i]).2 <= 1,
        link_task(edges, from, to, label) is Some,
    ensures
        ({
            let after = link_task(edges, from, to, label)->0;
            &&& has_edge(after, from, to)
            &&& is_required(after, from, to) <==> is_required(edges, from, to) || label == 1
            &&& forall|a: usize, b: usize|
                a != from || b != to ==> (#[trigger] has_edge(after, a, b) <==> has_edge(
                    edges,
                    a,
                    b,
                ))
            &&& forall|a: usize, b: usize|
                a != from || b != to ==> (#[trigger] is_required(after, a, b) <==> is_required(
                    edges,
                    a,
                    b,
                ))
        }),
{
    let after = link_task(edges, from, to, label)->0;
    if has_edge(edges, from, to) {
        crate::focus::last_edge_exists(edges, from, to);
        let at = choose|i: int| crate::graph::is_last_edge(edges, from, to, i);
        assert(edges[at].0 == from && edges[at].1 == to);
        assert(after[at].0 == from && after[at].1 == to);
        same_elsewhere(edges, after, at, from, to);
        if label == 1 {
            assert(after[at].2 == 1);
        }
        if is_required(edges, from, to) {
            let i = choose|i: int|
                0 <= i < edges.len() && (#[trigger] edges[i]).0 == from && edges[i].1 == to
                    && edges[i].2 == 1;
            assert(after[i].0 == from && after[i].1 == to && after[i].2 == 1);
        }
        if is_required(after, from, to) && label == 0 {
            let i = choose|i: int|
                0 <= i < after.len() && (#[trigger] after[i]).0 == from && after[i].1 == to
                    && after[i].2 == 1;
            assert(edges[i].2 == 1);
        }
    } else {
        let edge = (from, to, label);
        assert(after == edges.push(edge));
        assert(after[edges.len() as int] == edge);
        pushed_edges(edges, edge);
        assert forall|a: usize, b: usize| #[trigger] is_required(after, a, b) <==> is_required(
            edges,
            a,
            b,
        ) || (a == from && b == to && label == 1) by {
            if is_required(edges, a, b) {
                let i = choose|i: int|
                    0 <= i < edges.len() && (#[trigger] edges[i]).0 == a && edges[i].1 == b
                        && edges[i].2 == 1;
                assert(after[i] == edges[i]);
            }
            if is_required(after, a, b) {
                let i = choose|i: int|
                    0 <= i < after.len() && (#[trigger] after[i]).0 == a && after[i].1 == b
                        && after[i].2 == 1;
                if i < edges.len() {
                    assert(edges[i] == after[i]);
                }
            }
        }
    }
}

proof fn same_elsewhere(
    edges: Seq<(usize, usize, u8)>,
    after: Seq<(usize, usize, u8)>,
    at: int,
    from: usize,
    to: usize,
)
    requires
        0 <= at < edges.len(),
        after.len() == edges.len(),
        edges[at].0 == from && edges[at].1 == to,
        after[at].0 == from && after[at].1 == to,
        forall|i: int| 0 <= i < edges.len() && i != at ==> #[trigger] after[i] == edges[i],
    ensures
        forall|a: usize, b: usize|
            a != from || b != to ==> (#[trigger] has_edge(after, a, b) <==> has_edge(edges, a, b)),
        forall|a: usize, b: usize|
            a != from || b != to ==> (#[trigger] is_required(after, a, b) <==> is_required(
                edges,
                a,
                b,
            )),
{
    assert forall|a: usize, b: usize| a != from || b != to implies (#[trigger] has_edge(
        after,
        a,
        b,
    ) <==> has_edge(edges, a, b)) by {
        if has_edge(after, a, b) {
            let i = choose|i: int|
                0 <= i < after.len() && (#[trigger] after[i]).0 == a && after[i].1 == b;
            assert(edges[i] == after[i]);
        }
        if has_edge(edges, a, b) {
            let i = choose|i: int|
                0 <= i < edges.len() && (#[trigger] edges[i]).0 == a && edges[i].1 == b;
            assert(after[i] == edges[i]);
        }
    }
    assert forall|a: usize, b: usize| a != from || b != to implies (#[trigger] is_required(
        after,
        a,
        b,
    ) <==> is_required(edges, a, b)) by {
        if is_required(after, a, b) {
            let i = choose|i: int|
                0 <= i < after.len() && (#[trigger] after[i]).0 == a && after[i].1 == b
                    && after[i].2 == 1;
            assert(edges[i] == after[i]);
        }
        if is_required(edges, a, b) {
            let i = choose|i: int|
                0 <= i < edges.len() && (#[trigger] edges[i]).0 == a && edges[i].1 == b
                    && edges[i].2 == 1;
            assert(after[i] == edges[i]);
        }
    }
}

/// What is needed in production are peer and production dependencies, and all others belong to
/// development.
pub proof fn production_needs_peers(label: u8)
    ensures
        label_in(label, ScopePartition::Production) <==> label == 2 || label == 3,
        label_in(label, ScopePartition::Development) <==> label != 2 && label != 3,
{
}

/// Projects come after all that they depend on.
pub proof fn projects_come_after_their_dependencies(
    graph: ProjectGraphView,
    partition: ScopePartition,
    keys: Seq<ProjectKeyView>,
    project: int,
    dependency: int,
)
    requires
        graph_valid(graph),
        crate::composition_laws::projects_numbered(graph),
        graph.indexes.len() <= usize::MAX,
        dependency_first(graph, partition, keys),
        0 <= project < keys.len(),
        0 <= dependency < keys.len(),
        has_edge(
            partition_edges(graph.graph.edges, partition),
            graph.nodes[keys[project]].index,
            graph.nodes[keys[dependency]].index,
        ),
    ensures
        keys.len() == graph.indexes.len(),
        dependency < project,
{
    let edges = partition_edges(graph.graph.edges, partition);
    let order = choose|order: Seq<usize>|
        #[trigger] crate::graph::topological(edges, graph.graph.nodes, order) && keys == keys_at(
            graph,
            order.reverse(),
        );
    let back = order.reverse();
    let n = order.len() as int;
    assert(keys.len() == n);
    assert(back[project] == order[n - 1 - project]);
    assert(back[dependency] == order[n - 1 - dependency]);
    assert(keys[project] == graph.indexes[back[project] as int]);
    assert(keys[dependency] == graph.indexes[back[dependency] as int]);
    assert(graph.nodes[graph.indexes[back[project] as int]].index == back[project]);
    assert(graph.nodes[graph.indexes[back[dependency] as int]].index == back[dependency]);
    assert(has_edge(edges, order[n - 1 - project], order[n - 1 - dependency]));
}

} // verus!
