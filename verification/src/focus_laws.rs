//! What a graph that is limited to the surroundings of a project or a task holds.

use crate::focus::{focus_edges, focus_nodes, focus_nodes_are, last_edge_exists, merge_edge};
use crate::graph::{connected, connected_reflexive, has_edge, is_last_edge};
use crate::keys::{ProjectKeyView, TaskKeyView};
use crate::project_graph::{AliasView, ProjectGraphView};
use crate::project_queries::{focused_graph, focused_projects, graph_valid};
use crate::task_graph::{task_graph_valid, TaskGraphView};
use crate::task_queries::{focused_task_graph, focused_tasks};
use vstd::prelude::*;

verus! {

proof fn merging_keeps_edges(
    edges: Seq<(usize, usize, u8)>,
    edge: (usize, usize, u8),
    from: usize,
    to: usize,
)
    ensures
        has_edge(merge_edge(edges, edge), from, to) <==> has_edge(edges, from, to) || (edge.0
            == from && edge.1 == to),
{
    let more = merge_edge(edges, edge);
    if has_edge(edges, edge.0, edge.1) {
        last_edge_exists(edges, edge.0, edge.1);
        let at = choose|i: int| is_last_edge(edges, edge.0, edge.1, i);
        assert(edges[at].0 == edge.0 && edges[at].1 == edge.1);
        if has_edge(edges, from, to) {
            let i = choose|i: int|
                0 <= i < edges.len() && (#[trigger] edges[i]).0 == from && edges[i].1 == to;
            assert(more[i].0 == from && more[i].1 == to);
        }
        if has_edge(more, from, to) {
            let i = choose|i: int|
                0 <= i < more.len() && (#[trigger] more[i]).0 == from && more[i].1 == to;
            assert(edges[i].0 == from && edges[i].1 == to);
        }
    } else {
        if has_edge(edges, from, to) {
            let i = choose|i: int|
                0 <= i < edges.len() && (#[trigger] edges[i]).0 == from && edges[i].1 == to;
            assert(more[i].0 == from && more[i].1 == to);
        }
        if edge.0 == from && edge.1 == to {
            assert(more[edges.len() as int] == edge);
        }
        if has_edge(more, from, to) && !(edge.0 == from && edge.1 == to) {
            let i = choose|i: int|
                0 <= i < more.len() && (#[trigger] more[i]).0 == from && more[i].1 == to;
            assert(edges[i].0 == from && edges[i].1 == to);
        }
    }
}

/// What is kept depends on each other exactly as it did before.
proof fn kept_edges_are_the_same(
    edges: Seq<(usize, usize, u8)>,
    kept: Seq<usize>,
    a: int,
    b: int,
)
    requires
        kept.no_duplicates(),
        kept.len() <= usize::MAX,
        0 <= a < kept.len(),
        0 <= b < kept.len(),
    ensures
        has_edge(focus_edges(edges, kept), a as usize, b as usize) <==> has_edge(
            edges,
            kept[a],
            kept[b],
        ),
    decreases edges.len(),
{
    if edges.len() > 0 {
        let rest = edges.drop_last();
        let edge = edges.last();
        kept_edges_are_the_same(rest, kept, a, b);
        let before = focus_edges(rest, kept);
        if has_edge(edges, kept[a], kept[b]) && !(edge.0 == kept[a] && edge.1 == kept[b]) {
            let i = choose|i: int|
                0 <= i < edges.len() && (#[trigger] edges[i]).0 == kept[a] && edges[i].1
                    == kept[b];
            assert(rest[i].0 == kept[a] && rest[i].1 == kept[b]);
        }
        if has_edge(rest, kept[a], kept[b]) {
            let i = choose|i: int|
                0 <= i < rest.len() && (#[trigger] rest[i]).0 == kept[a] && rest[i].1 == kept[b];
            assert(edges[i].0 == kept[a] && edges[i].1 == kept[b]);
        }
        assert(edges[edges.len() - 1] == edge);
        if kept.contains(edge.0) && kept.contains(edge.1) {
            let x = kept.index_of(edge.0);
            let y = kept.index_of(edge.1);
            assert(0 <= x < kept.len() && kept[x] == edge.0);
            assert(0 <= y < kept.len() && kept[y] == edge.1);
            merging_keeps_edges(
                before,
                (x as usize, y as usize, edge.2),
                a as usize,
                b as usize,
            );
            assert(edge.0 == kept[a] <==> x == a);
            assert(edge.1 == kept[b] <==> y == b);
        } else {
            assert(kept.contains(kept[a]) && kept.contains(kept[b]));
        }
    }
}

/// A node belongs to the surroundings of another: it is that, it is reached from that, or,
/// where asked for, it has an edge to that.
pub open spec fn is_around(
    edges: Seq<(usize, usize, u8)>,
    start: usize,
    with_dependents: bool,
    node: usize,
) -> bool {
    ||| node == start
    ||| connected(edges, start, node)
    ||| with_dependents && has_edge(edges, node, start)
}

proof fn kept_are_around(
    edges: Seq<(usize, usize, u8)>,
    start: usize,
    with_dependents: bool,
    bound: nat,
)
    requires
        bound <= usize::MAX,
    ensures
        ({
            let kept = focus_nodes(edges, start, with_dependents, bound);
            &&& kept.no_duplicates()
            &&& kept.len() <= bound
            &&& forall|i: int| 0 <= i < kept.len() ==> #[trigger] kept[i] < bound
            &&& forall|x: usize| #[trigger]
                kept.contains(x) <==> x < bound && is_around(edges, start, with_dependents, x)
        }),
{
    focus_nodes_are(edges, start, with_dependents, bound);
    connected_reflexive(edges, start);
}

proof fn projects_that_are_kept(graph: ProjectGraphView, kept: Seq<usize>)
    requires
        kept.no_duplicates(),
        kept.len() <= usize::MAX,
        forall|i: int| 0 <= i < kept.len() ==> #[trigger] kept[i] < graph.indexes.len(),
        forall|i: int, j: int|
            0 <= i < j < graph.indexes.len() ==> #[trigger] graph.indexes[i]
                != #[trigger] graph.indexes[j],
    ensures
        ({
            let nodes = focused_projects(graph, kept);
            &&& forall|i: int|
                0 <= i < kept.len() ==> nodes.dom().contains(
                    graph.indexes[#[trigger] kept[i] as int],
                ) && nodes[graph.indexes[kept[i] as int]].index == i
                    && nodes[graph.indexes[kept[i] as int]].project
                    == graph.nodes[graph.indexes[kept[i] as int]].project
            &&& forall|key: ProjectKeyView| #[trigger]
                nodes.dom().contains(key) ==> exists|i: int|
                    0 <= i < kept.len() && graph.indexes[#[trigger] kept[i] as int] == key
        }),
    decreases kept.len(),
{
    if kept.len() > 0 {
        let rest = kept.drop_last();
        let last = kept.len() - 1;
        assert forall|i: int| 0 <= i < rest.len() implies #[trigger] rest[i]
            < graph.indexes.len() by {
            assert(rest[i] == kept[i]);
        }
        projects_that_are_kept(graph, rest);
        let nodes = focused_projects(graph, kept);
        assert forall|i: int| 0 <= i < kept.len() implies nodes.dom().contains(
            graph.indexes[#[trigger] kept[i] as int],
        ) && nodes[graph.indexes[kept[i] as int]].index == i
            && nodes[graph.indexes[kept[i] as int]].project
            == graph.nodes[graph.indexes[kept[i] as int]].project by {
            if i < last {
                assert(rest[i] == kept[i]);
                assert(kept[i] != kept[last]);
                if kept[i] < kept[last] {
                    assert(graph.indexes[kept[i] as int] != graph.indexes[kept[last] as int]);
                } else {
                    assert(graph.indexes[kept[last] as int] != graph.indexes[kept[i] as int]);
                }
            }
        }
        assert forall|key: ProjectKeyView| #[trigger] nodes.dom().contains(key) implies exists|
            i: int,
        |
            0 <= i < kept.len() && graph.indexes[#[trigger] kept[i] as int] == key by {
            if key == graph.indexes[kept.last() as int] {
                assert(graph.indexes[kept[last] as int] == key);
            } else {
                assert(focused_projects(graph, rest).dom().contains(key));
                let i = choose|i: int|
                    0 <= i < rest.len() && graph.indexes[#[trigger] rest[i] as int] == key;
                assert(kept[i] == rest[i]);
            }
        }
    }
}

/// A graph that is limited to a project holds that project, all that it leads to, and where
/// asked for the projects that depend on it, as they were. They depend on each other as they
/// did, and the names that stand for them stay.
pub proof fn limited_graphs_hold_the_surroundings_of_a_project(
    graph: ProjectGraphView,
    start: ProjectKeyView,
    with_dependents: bool,
)
    requires
        graph_valid(graph),
        crate::composition_laws::projects_numbered(graph),
        graph.indexes.len() <= usize::MAX,
        graph.nodes.dom().contains(start),
    ensures
        ({
            let limited = focused_graph(graph, graph.nodes[start].index, with_dependents);
            let around = |key: ProjectKeyView|
                is_around(
                    graph.graph.edges,
                    graph.nodes[start].index,
                    with_dependents,
                    graph.nodes[key].index,
                );
            &&& forall|key: ProjectKeyView| #[trigger]
                limited.nodes.dom().contains(key) <==> graph.nodes.dom().contains(key) && around(
                    key,
                )
            &&& forall|key: ProjectKeyView| #[trigger]
                limited.nodes.dom().contains(key) ==> limited.nodes[key].project
                    == graph.nodes[key].project
            &&& forall|from: ProjectKeyView, to: ProjectKeyView| #[trigger]
                limited.nodes.dom().contains(from) && #[trigger] limited.nodes.dom().contains(to)
                    ==> (has_edge(
                    limited.graph.edges,
                    limited.nodes[from].index,
                    limited.nodes[to].index,
                ) <==> has_edge(graph.graph.edges, graph.nodes[from].index, graph.nodes[to].index))
            &&& forall|alias: AliasView| #[trigger]
                limited.aliases.dom().contains(alias) <==> graph.aliases.dom().contains(alias)
                    && limited.nodes.dom().contains(graph.aliases[alias])
            &&& forall|alias: AliasView| #[trigger]
                limited.aliases.dom().contains(alias) ==> limited.aliases[alias]
                    == graph.aliases[alias]
        }),
{
    let at = graph.nodes[start].index;
    let edges = graph.graph.edges;
    let kept = focus_nodes(edges, at, with_dependents, graph.graph.nodes);
    let limited = focused_graph(graph, at, with_dependents);
    kept_are_around(edges, at, with_dependents, graph.graph.nodes);
    assert forall|i: int, j: int| 0 <= i < j < graph.indexes.len() implies #[trigger] graph.indexes[
        i] != #[trigger] graph.indexes[j] by {
        assert(graph.nodes[graph.indexes[i]].index == i);
        assert(graph.nodes[graph.indexes[j]].index == j);
    }
    projects_that_are_kept(graph, kept);
    assert forall|key: ProjectKeyView| #[trigger] limited.nodes.dom().contains(key)
        <==> graph.nodes.dom().contains(key) && is_around(
        edges,
        at,
        with_dependents,
        graph.nodes[key].index,
    ) by {
        if limited.nodes.dom().contains(key) {
            let i = choose|i: int|
                0 <= i < kept.len() && graph.indexes[#[trigger] kept[i] as int] == key;
            assert(kept.contains(kept[i]));
            assert(graph.nodes.dom().contains(graph.indexes[kept[i] as int]));
            assert(graph.nodes[graph.indexes[kept[i] as int]].index == kept[i]);
        }
        if graph.nodes.dom().contains(key) && is_around(
            edges,
            at,
            with_dependents,
            graph.nodes[key].index,
        ) {
            assert(kept.contains(graph.nodes[key].index));
            let i = choose|i: int| 0 <= i < kept.len() && kept[i] == graph.nodes[key].index;
            assert(graph.indexes[kept[i] as int] == key);
        }
    }
    assert forall|key: ProjectKeyView| #[trigger] limited.nodes.dom().contains(key) implies exists|
        i: int,
    |
        0 <= i < kept.len() && #[trigger] kept[i] == graph.nodes[key].index
            && limited.nodes[key].index == i && limited.nodes[key].project
            == graph.nodes[key].project by {
        let i = choose|i: int|
            0 <= i < kept.len() && graph.indexes[#[trigger] kept[i] as int] == key;
        assert(graph.nodes[graph.indexes[kept[i] as int]].index == kept[i]);
    }
    assert forall|from: ProjectKeyView, to: ProjectKeyView| #[trigger]
        limited.nodes.dom().contains(from) && #[trigger] limited.nodes.dom().contains(to) implies (
    has_edge(limited.graph.edges, limited.nodes[from].index, limited.nodes[to].index) <==> has_edge(
        edges,
        graph.nodes[from].index,
        graph.nodes[to].index,
    )) by {
        let a = choose|i: int|
            0 <= i < kept.len() && #[trigger] kept[i] == graph.nodes[from].index
                && limited.nodes[from].index == i && limited.nodes[from].project
                == graph.nodes[from].project;
        let b = choose|i: int|
            0 <= i < kept.len() && #[trigger] kept[i] == graph.nodes[to].index
                && limited.nodes[to].index == i && limited.nodes[to].project
                == graph.nodes[to].project;
        kept_edges_are_the_same(edges, kept, a, b);
    }
}

proof fn tasks_that_are_kept(graph: TaskGraphView, kept: Seq<usize>)
    requires
        kept.no_duplicates(),
        kept.len() <= usize::MAX,
        forall|i: int| 0 <= i < kept.len() ==> #[trigger] kept[i] < graph.indexes.len(),
        forall|i: int, j: int|
            0 <= i < j < graph.indexes.len() ==> #[trigger] graph.indexes[i]
                != #[trigger] graph.indexes[j],
    ensures
        ({
            let nodes = focused_tasks(graph, kept);
            &&& forall|i: int|
                0 <= i < kept.len() ==> nodes.dom().contains(
                    graph.indexes[#[trigger] kept[i] as int],
                ) && nodes[graph.indexes[kept[i] as int]].index == i
                    && nodes[graph.indexes[kept[i] as int]].task
                    == graph.nodes[graph.indexes[kept[i] as int]].task
            &&& forall|key: TaskKeyView| #[trigger]
                nodes.dom().contains(key) ==> exists|i: int|
                    0 <= i < kept.len() && graph.indexes[#[trigger] kept[i] as int] == key
        }),
    decreases kept.len(),
{
    if kept.len() > 0 {
        let rest = kept.drop_last();
        let last = kept.len() - 1;
        assert forall|i: int| 0 <= i < rest.len() implies #[trigger] rest[i]
            < graph.indexes.len() by {
            assert(rest[i] == kept[i]);
        }
        tasks_that_are_kept(graph, rest);
        let nodes = focused_tasks(graph, kept);
        assert forall|i: int| 0 <= i < kept.len() implies nodes.dom().contains(
            graph.indexes[#[trigger] kept[i] as int],
        ) && nodes[graph.indexes[kept[i] as int]].index == i
            && nodes[graph.indexes[kept[i] as int]].task
            == graph.nodes[graph.indexes[kept[i] as int]].task by {
            if i < last {
                assert(rest[i] == kept[i]);
                assert(kept[i] != kept[last]);
                if kept[i] < kept[last] {
                    assert(graph.indexes[kept[i] as int] != graph.indexes[kept[last] as int]);
                } else {
                    assert(graph.indexes[kept[last] as int] != graph.indexes[kept[i] as int]);
                }
            }
        }
        assert forall|key: TaskKeyView| #[trigger] nodes.dom().contains(key) implies exists|
            i: int,
        |
            0 <= i < kept.len() && graph.indexes[#[trigger] kept[i] as int] == key by {
            if key == graph.indexes[kept.last() as int] {
                assert(graph.indexes[kept[last] as int] == key);
            } else {
                assert(focused_tasks(graph, rest).dom().contains(key));
                let i = choose|i: int|
                    0 <= i < rest.len() && graph.indexes[#[trigger] rest[i] as int] == key;
                assert(kept[i] == rest[i]);
            }
        }
    }
}

/// A graph that is limited to a task holds that task, all that it leads to, and where asked for
/// the tasks that depend on it, as they were. They depend on each other as they did.
pub proof fn limited_graphs_hold_the_surroundings_of_a_task(
    graph: TaskGraphView,
    start: TaskKeyView,
    with_dependents: bool,
)
    requires
        task_graph_valid(graph),
        crate::relation_laws::tasks_are_numbered(graph),
        graph.indexes.len() <= usize::MAX,
        graph.nodes.dom().contains(start),
    ensures
        ({
            let limited = focused_task_graph(graph, graph.nodes[start].index, with_dependents);
            let around = |key: TaskKeyView|
                is_around(
                    graph.graph.edges,
                    graph.nodes[start].index,
                    with_dependents,
                    graph.nodes[key].index,
                );
            &&& forall|key: TaskKeyView| #[trigger]
                limited.nodes.dom().contains(key) <==> graph.nodes.dom().contains(key) && around(
                    key,
                )
            &&& forall|key: TaskKeyView| #[trigger]
                limited.nodes.dom().contains(key) ==> limited.nodes[key].task
                    == graph.nodes[key].task
            &&& forall|from: TaskKeyView, to: TaskKeyView| #[trigger]
                limited.nodes.dom().contains(from) && #[trigger] limited.nodes.dom().contains(to)
                    ==> (has_edge(
                    limited.graph.edges,
                    limited.nodes[from].index,
                    limited.nodes[to].index,
                ) <==> has_edge(graph.graph.edges, graph.nodes[from].index, graph.nodes[to].index))
        }),
{
    let at = graph.nodes[start].index;
    let edges = graph.graph.edges;
    let kept = focus_nodes(edges, at, with_dependents, graph.graph.nodes);
    let limited = focused_task_graph(graph, at, with_dependents);
    kept_are_around(edges, at, with_dependents, graph.graph.nodes);
    assert forall|i: int, j: int| 0 <= i < j < graph.indexes.len() implies #[trigger] graph.indexes[
        i] != #[trigger] graph.indexes[j] by {
        assert(graph.nodes[graph.indexes[i]].index == i);
        assert(graph.nodes[graph.indexes[j]].index == j);
    }
    tasks_that_are_kept(graph, kept);
    assert forall|key: TaskKeyView| #[trigger] limited.nodes.dom().contains(key)
        <==> graph.nodes.dom().contains(key) && is_around(
        edges,
        at,
        with_dependents,
        graph.nodes[key].index,
    ) by {
        if limited.nodes.dom().contains(key) {
            let i = choose|i: int|
                0 <= i < kept.len() && graph.indexes[#[trigger] kept[i] as int] == key;
            assert(kept.contains(kept[i]));
            assert(graph.nodes.dom().contains(graph.indexes[kept[i] as int]));
            assert(graph.nodes[graph.indexes[kept[i] as int]].index == kept[i]);
        }
        if graph.nodes.dom().contains(key) && is_around(
            edges,
            at,
            with_dependents,
            graph.nodes[key].index,
        ) {
            assert(kept.contains(graph.nodes[key].index));
            let i = choose|i: int| 0 <= i < kept.len() && kept[i] == graph.nodes[key].index;
            assert(graph.indexes[kept[i] as int] == key);
        }
    }
    assert forall|key: TaskKeyView| #[trigger] limited.nodes.dom().contains(key) implies exists|
        i: int,
    |
        0 <= i < kept.len() && #[trigger] kept[i] == graph.nodes[key].index
            && limited.nodes[key].index == i && limited.nodes[key].task
            == graph.nodes[key].task by {
        let i = choose|i: int|
            0 <= i < kept.len() && graph.indexes[#[trigger] kept[i] as int] == key;
        assert(graph.nodes[graph.indexes[kept[i] as int]].index == kept[i]);
    }
    assert forall|from: TaskKeyView, to: TaskKeyView| #[trigger]
        limited.nodes.dom().contains(from) && #[trigger] limited.nodes.dom().contains(to) implies (
    has_edge(limited.graph.edges, limited.nodes[from].index, limited.nodes[to].index) <==> has_edge(
        edges,
        graph.nodes[from].index,
        graph.nodes[to].index,
    )) by {
        let a = choose|i: int|
            0 <= i < kept.len() && #[trigger] kept[i] == graph.nodes[from].index
                && limited.nodes[from].index == i && limited.nodes[from].task
                == graph.nodes[from].task;
        let b = choose|i: int|
            0 <= i < kept.len() && #[trigger] kept[i] == graph.nodes[to].index
                && limited.nodes[to].index == i && limited.nodes[to].task
                == graph.nodes[to].task;
        kept_edges_are_the_same(edges, kept, a, b);
    }
}

} // verus!
