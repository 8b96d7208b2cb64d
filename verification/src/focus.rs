//! The part of a graph around one node.

use crate::graph::{
    acyclic, add_node, connected, contains_number, edge_list, edges_within, graph_edges,
    graph_nodes, grown, has_edge, is_last_edge, leads_to, neighbors, neighbors_are_edges, neighbors_of,
    new_graph, node_count, nodes_from, update_edge, updated_edges, walk, Direction,
};
use vstd::prelude::*;

verus! {

/// A node that is in focus: the node itself, what it leads to, and where asked for
/// the nodes with an edge to it.
pub open spec fn in_focus(
    edges: Seq<(usize, usize, u8)>,
    start: usize,
    with_dependents: bool,
    node: usize,
) -> bool {
    connected(edges, start, node) || (with_dependents && has_edge(edges, node, start))
}

/// The nodes below a bound that are in focus, in ascending order.
pub open spec fn focus_nodes(
    edges: Seq<(usize, usize, u8)>,
    start: usize,
    with_dependents: bool,
    bound: nat,
) -> Seq<usize>
    decreases bound,
{
    if bound == 0 {
        Seq::empty()
    } else {
        let rest = focus_nodes(edges, start, with_dependents, (bound - 1) as nat);
        let node = (bound - 1) as usize;
        if in_focus(edges, start, with_dependents, node) {
            rest.push(node)
        } else {
            rest
        }
    }
}

/// The edges with one more; of edges between the same nodes only one is kept, with
/// the label of the last.
pub open spec fn merge_edge(
    edges: Seq<(usize, usize, u8)>,
    edge: (usize, usize, u8),
) -> Seq<(usize, usize, u8)> {
    if has_edge(edges, edge.0, edge.1) {
        edges.update(choose|i: int| is_last_edge(edges, edge.0, edge.1, i), edge)
    } else {
        edges.push(edge)
    }
}

/// The edges between nodes that are kept, renumbered by the places of the nodes.
pub open spec fn focus_edges(
    edges: Seq<(usize, usize, u8)>,
    kept: Seq<usize>,
) -> Seq<(usize, usize, u8)>
    decreases edges.len(),
{
    if edges.len() == 0 {
        Seq::empty()
    } else {
        let rest = focus_edges(edges.drop_last(), kept);
        let edge = edges.last();
        if kept.contains(edge.0) && kept.contains(edge.1) {
            merge_edge(
                rest,
                (kept.index_of(edge.0) as usize, kept.index_of(edge.1) as usize, edge.2),
            )
        } else {
            rest
        }
    }
}

/// What is kept is in focus, ascending and below the bound.
pub proof fn focus_nodes_are(
    edges: Seq<(usize, usize, u8)>,
    start: usize,
    with_dependents: bool,
    bound: nat,
)
    requires
        bound <= usize::MAX,
    ensures
        ({
            let kept = focus_nodes(edges, start, with_dependents, bound);
            &&& kept.len() <= bound
            &&& kept.no_duplicates()
            &&& forall|i: int| 0 <= i < kept.len() ==> #[trigger] kept[i] < bound
            &&& forall|x: usize| #[trigger]
                kept.contains(x) <==> x < bound && in_focus(edges, start, with_dependents, x)
        }),
    decreases bound,
{
    if bound > 0 {
        let less = (bound - 1) as nat;
        focus_nodes_are(edges, start, with_dependents, less);
        let rest = focus_nodes(edges, start, with_dependents, less);
        let kept = focus_nodes(edges, start, with_dependents, bound);
        let node = less as usize;
        assert forall|x: usize| #[trigger] kept.contains(x) <==> x < bound && in_focus(
            edges,
            start,
            with_dependents,
            x,
        ) by {
            assert(rest.contains(x) <==> x < less && in_focus(edges, start, with_dependents, x));
            if rest.contains(x) {
                let j = choose|j: int| 0 <= j < rest.len() && rest[j] == x;
                assert(kept[j] == x);
            }
            if kept.contains(x) && !rest.contains(x) {
                let j = choose|j: int| 0 <= j < kept.len() && kept[j] == x;
                if j < rest.len() {
                    assert(rest[j] == x);
                }
            }
            if x == node && in_focus(edges, start, with_dependents, node) {
                assert(kept[rest.len() as int] == x);
            }
        }
    }
}

/// Every edge that is kept was there, between the nodes at its places.
pub proof fn focus_edges_were(edges: Seq<(usize, usize, u8)>, kept: Seq<usize>)
    ensures
        focus_edges(edges, kept).len() <= edges.len(),
        edges_within(focus_edges(edges, kept), kept.len()),
        kept.len() <= usize::MAX ==> forall|i: int|
            0 <= i < focus_edges(edges, kept).len() ==> edges.contains(
                original_edge(kept, #[trigger] focus_edges(edges, kept)[i]),
            ),
    decreases edges.len(),
{
    if edges.len() > 0 {
        let front = edges.drop_last();
        let rest = focus_edges(front, kept);
        let all = focus_edges(edges, kept);
        let edge = edges.last();
        focus_edges_were(front, kept);
        if kept.contains(edge.0) && kept.contains(edge.1) {
            let a = kept.index_of(edge.0);
            let b = kept.index_of(edge.1);
            let new = (a as usize, b as usize, edge.2);
            if has_edge(rest, new.0, new.1) {
                last_edge_exists(rest, new.0, new.1);
            }
        }
        if kept.len() <= usize::MAX {
            assert forall|i: int| 0 <= i < all.len() implies edges.contains(
                original_edge(kept, #[trigger] all[i]),
            ) by {
                if i < rest.len() && all[i] == rest[i] {
                    let x = original_edge(kept, rest[i]);
                    let j = choose|j: int| 0 <= j < front.len() && front[j] == x;
                    assert(edges[j] == x);
                } else {
                    assert(original_edge(kept, all[i]) == edge);
                    assert(edges[edges.len() - 1] == edge);
                }
            }
        }
    }
}

/// The edge between the nodes at the places that an edge connects.
pub open spec fn original_edge(kept: Seq<usize>, edge: (usize, usize, u8)) -> (usize, usize, u8) {
    (kept[edge.0 as int], kept[edge.1 as int], edge.2)
}

/// Where nodes are connected by an edge, one of the edges came last.
pub proof fn last_edge_exists(edges: Seq<(usize, usize, u8)>, from: usize, to: usize)
    requires
        has_edge(edges, from, to),
    ensures
        exists|i: int| is_last_edge(edges, from, to, i),
    decreases edges.len(),
{
    let last = edges.len() - 1;
    if edges[last].0 == from && edges[last].1 == to {
        assert(is_last_edge(edges, from, to, last));
    } else {
        let rest = edges.drop_last();
        let j = choose|j: int|
            0 <= j < edges.len() && (#[trigger] edges[j]).0 == from && edges[j].1 == to;
        assert(rest[j] == edges[j]);
        assert(has_edge(rest, from, to));
        last_edge_exists(rest, from, to);
        let i = choose|i: int| is_last_edge(rest, from, to, i);
        assert(rest[i] == edges[i]);
        assert forall|k: int| i < k < edges.len() implies !((#[trigger] edges[k]).0 == from
            && edges[k].1 == to) by {
            if k < rest.len() {
                assert(rest[k] == edges[k]);
            }
        }
        assert(is_last_edge(edges, from, to, i));
    }
}

/// What replaces or adds an edge merges it.
proof fn update_merges(
    before: Seq<(usize, usize, u8)>,
    edge: (usize, usize, u8),
    after: Seq<(usize, usize, u8)>,
)
    requires
        updated_edges(before, edge.0, edge.1, edge.2, after),
    ensures
        after == merge_edge(before, edge),
{
    if has_edge(before, edge.0, edge.1) {
        let i = choose|i: int|
            #[trigger] is_last_edge(before, edge.0, edge.1, i) && after == before.update(
                i,
                (edge.0, edge.1, edge.2),
            );
        let j = choose|j: int| is_last_edge(before, edge.0, edge.1, j);
        assert(is_last_edge(before, edge.0, edge.1, j));
        assert(i == j) by {
            if i < j {
                assert(before[j].0 == edge.0);
            }
            if j < i {
                assert(before[i].0 == edge.0);
            }
        }
    }
}

/// A walk between places is a walk between the nodes at those places.
pub proof fn walk_of_places(
    edges: Seq<(usize, usize, u8)>,
    kept: Seq<usize>,
    others: Seq<(usize, usize, u8)>,
    from: usize,
    to: usize,
    steps: nat,
)
    requires
        walk(edges, from, to, steps),
        forall|a: usize, b: usize| #[trigger]
            has_edge(edges, a, b) ==> has_edge(others, kept[a as int], kept[b as int]),
    ensures
        walk(others, kept[from as int], kept[to as int], steps),
    decreases steps,
{
    if steps > 0 {
        let middle = choose|middle: usize|
            #[trigger] has_edge(edges, from, middle) && walk(edges, middle, to, (steps - 1) as nat);
        walk_of_places(edges, kept, others, middle, to, (steps - 1) as nat);
        assert(has_edge(others, kept[from as int], kept[middle as int]));
    }
}

/// A graph whose edges are edges between the nodes at their places has no cycle
/// where there is none between those nodes.
pub proof fn acyclic_of_places(
    edges: Seq<(usize, usize, u8)>,
    kept: Seq<usize>,
    others: Seq<(usize, usize, u8)>,
)
    requires
        acyclic(others),
        forall|a: usize, b: usize| #[trigger]
            has_edge(edges, a, b) ==> has_edge(others, kept[a as int], kept[b as int]),
    ensures
        acyclic(edges),
{
    assert forall|from: usize, to: usize| #[trigger]
        has_edge(edges, from, to) implies !connected(edges, to, from) by {
        if connected(edges, to, from) {
            let steps = choose|steps: nat| walk(edges, to, from, steps);
            walk_of_places(edges, kept, others, to, from, steps);
            assert(connected(others, kept[to as int], kept[from as int]));
        }
    }
}

/// The place of a number among others.
fn place_of(items: &Vec<usize>, item: usize) -> (place: Option<usize>)
    requires
        items@.no_duplicates(),
    ensures
        match place {
            Some(i) => i < items@.len() && items@.contains(item) && items@.index_of(item) == i,
            None => !items@.contains(item),
        },
{
    let mut i: usize = 0;
    while i < items.len()
        invariant
            i <= items@.len(),
            items@.no_duplicates(),
            forall|j: int| 0 <= j < i ==> items@[j] != item,
        decreases items.len() - i,
    {
        if items[i] == item {
            assert(items@.contains(item));
            let ghost k = items@.index_of(item);
            assert(items@[k] == item && 0 <= k < items@.len());
            return Some(i);
        }
        i = i + 1;
    }
    None
}

/// The part of a graph around a node: the nodes that are kept, and their edges,
/// renumbered by the places of the nodes.
pub(crate) fn focus(
    graph: &petgraph::Graph<usize, u8, petgraph::Directed, u32>,
    start: usize,
    with_dependents: bool,
) -> (focused: (Vec<usize>, petgraph::Graph<usize, u8, petgraph::Directed, u32>))
    requires
        start < graph_nodes(*graph),
        grown(*graph),
    ensures
        ({
            let edges = graph_edges(*graph);
            let kept = focused.0@;
            &&& kept == focus_nodes(edges, start, with_dependents, graph_nodes(*graph))
            &&& graph_nodes(focused.1) == kept.len()
            &&& graph_edges(focused.1) == focus_edges(edges, kept)
            &&& forall|i: int| 0 <= i < kept.len() ==> #[trigger] kept[i] < graph_nodes(*graph)
        }),
{
    let edges = edge_list(graph);
    let reached = nodes_from(graph, start, Direction::Outgoing);
    let dependents = neighbors_of(graph, start, Direction::Incoming);
    let n: usize = node_count(graph);
    let ghost all = graph_edges(*graph);
    let mut kept: Vec<usize> = Vec::new();
    let mut focused = new_graph();
    let mut i: usize = 0;
    while i < n
        invariant
            i <= n <= u32::MAX,
            all == graph_edges(*graph),
            forall|x: usize|
                #[trigger] reached@.contains(x) <==> leads_to(all, Direction::Outgoing, start, x),
            dependents@ == neighbors(all, start, Direction::Incoming),
            kept@ == focus_nodes(all, start, with_dependents, i as nat),
            kept@.len() <= i,
            grown(focused),
            graph_nodes(focused) == kept@.len(),
            graph_edges(focused) == Seq::<(usize, usize, u8)>::empty(),
        decreases n - i,
    {
        proof {
            neighbors_are_edges(all, start, Direction::Incoming, i);
            assert(reached@.contains(i) <==> leads_to(all, Direction::Outgoing, start, i));
        }
        if contains_number(&reached, i) || (with_dependents && contains_number(&dependents, i)) {
            kept.push(i);
            let _ = add_node(&mut focused);
        }
        i = i + 1;
    }
    proof {
        focus_nodes_are(all, start, with_dependents, n as nat);
    }
    let mut j: usize = 0;
    assert(all.take(0) =~= Seq::empty());
    while j < edges.len()
        invariant
            j <= edges@.len(),
            edges@ == all,
            all.len() <= u32::MAX,
            kept@.no_duplicates(),
            grown(focused),
            graph_nodes(focused) == kept@.len(),
            graph_edges(focused) == focus_edges(all.take(j as int), kept@),
        decreases edges.len() - j,
    {
        let edge = edges[j];
        proof {
            let next = all.take(j + 1);
            assert(next.drop_last() =~= all.take(j as int));
            assert(next.last() == edge);
            focus_edges_were(all.take(j as int), kept@);
        }
        match (place_of(&kept, edge.0), place_of(&kept, edge.1)) {
            (Some(from), Some(to)) => {
                let ghost before = graph_edges(focused);
                update_edge(&mut focused, from, to, edge.2);
                proof {
                    update_merges(before, (from, to, edge.2), graph_edges(focused));
                }
            },
            _ => {},
        }
        j = j + 1;
    }
    assert(all.take(j as int) =~= all);
    (kept, focused)
}

} // verus!
