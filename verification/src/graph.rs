//! Directed graphs with numbered nodes, and directed graphs without cycles.

use crate::walks::breadth_first_meets;
use vstd::prelude::*;

verus! {

/// `petgraph::Graph`, whose nodes and edges are numbered from zero.
#[verifier::external_type_specification]
#[verifier::external_body]
#[verifier::reject_recursive_types(N)]
#[verifier::reject_recursive_types(E)]
#[verifier::reject_recursive_types(Ty)]
#[verifier::reject_recursive_types(Ix)]
pub struct ExGraph<N, E, Ty, Ix>(petgraph::Graph<N, E, Ty, Ix>);

/// `petgraph::Directed`, the kind of a graph whose edges have a direction.
#[verifier::external_type_specification]
#[verifier::external_body]
pub struct ExDirected(petgraph::Directed);

/// A graph that refuses edges that would close a cycle: a `daggy::Dag`.
#[verifier::external_body]
pub struct AcyclicGraph {
    dag: daggy::Dag<usize, u8>,
}

/// Which ends of the edges at a node are asked for.
#[derive(Clone, Copy, PartialEq, Eq, Structural, Debug)]
pub enum Direction {
    /// The nodes that edges lead to.
    Outgoing,
    /// The nodes that edges come from.
    Incoming,
}

/// The number of nodes of a graph.
pub uninterp spec fn graph_nodes(graph: petgraph::Graph<usize, u8, petgraph::Directed, u32>) -> nat;

/// The edges of a graph by their numbers: the node that each leaves, the node that
/// it enters, and its label.
pub uninterp spec fn graph_edges(graph: petgraph::Graph<usize, u8, petgraph::Directed, u32>) -> Seq<
    (usize, usize, u8),
>;

/// The values that the nodes of a graph hold, by their numbers.
pub uninterp spec fn graph_weights(
    graph: petgraph::Graph<usize, u8, petgraph::Directed, u32>,
) -> Seq<usize>;

/// At every node of a graph, the edges that leave it and the edges that enter it are
/// listed by falling numbers. So they are while edges are only added: an edge gets the
/// next number and comes first in the lists of its ends. Where an edge was taken out, the
/// last edge has its number and keeps its place in the lists.
pub uninterp spec fn grown(graph: petgraph::Graph<usize, u8, petgraph::Directed, u32>) -> bool;

/// The numbers below a bound.
pub open spec fn numbers_below(bound: nat) -> Seq<usize> {
    Seq::new(bound, |i: int| i as usize)
}

/// The number of nodes of a graph without cycles.
pub uninterp spec fn dag_nodes(dag: AcyclicGraph) -> nat;

/// The edges of a graph without cycles, in the order in which they were added.
pub uninterp spec fn dag_edges(dag: AcyclicGraph) -> Seq<(usize, usize, u8)>;

/// An edge leads from one node to the other.
pub open spec fn has_edge(edges: Seq<(usize, usize, u8)>, from: usize, to: usize) -> bool {
    exists|i: int| 0 <= i < edges.len() && (#[trigger] edges[i]).0 == from && edges[i].1 == to
}

/// A walk over as many edges leads from one node to the other.
pub open spec fn walk(edges: Seq<(usize, usize, u8)>, from: usize, to: usize, steps: nat) -> bool
    decreases steps,
{
    if steps == 0 {
        from == to
    } else {
        exists|middle: usize|
            #[trigger] has_edge(edges, from, middle) && walk(edges, middle, to, (steps - 1) as nat)
    }
}

/// Some walk leads from one node to the other. Every node leads to itself.
pub open spec fn connected(edges: Seq<(usize, usize, u8)>, from: usize, to: usize) -> bool {
    exists|steps: nat| walk(edges, from, to, steps)
}

/// No edge closes a cycle.
pub open spec fn acyclic(edges: Seq<(usize, usize, u8)>) -> bool {
    forall|from: usize, to: usize| #[trigger]
        has_edge(edges, from, to) ==> !connected(edges, to, from)
}

/// The nodes at the other ends of the edges at a node; the edge with the largest
/// number comes first.
pub open spec fn neighbors(
    edges: Seq<(usize, usize, u8)>,
    node: usize,
    direction: Direction,
) -> Seq<usize>
    decreases edges.len(),
{
    if edges.len() == 0 {
        Seq::empty()
    } else {
        let edge = edges.last();
        let rest = neighbors(edges.drop_last(), node, direction);
        match direction {
            Direction::Outgoing => if edge.0 == node {
                seq![edge.1] + rest
            } else {
                rest
            },
            Direction::Incoming => if edge.1 == node {
                seq![edge.0] + rest
            } else {
                rest
            },
        }
    }
}

/// All edges connect nodes of the graph.
pub open spec fn edges_within(edges: Seq<(usize, usize, u8)>, nodes: nat) -> bool {
    forall|i: int| 0 <= i < edges.len() ==> (#[trigger] edges[i]).0 < nodes && edges[i].1 < nodes
}

/// Every node once, and no node behind one that it leads to.
pub open spec fn topological(
    edges: Seq<(usize, usize, u8)>,
    nodes: nat,
    order: Seq<usize>,
) -> bool {
    &&& order.len() == nodes
    &&& order.no_duplicates()
    &&& forall|i: int| 0 <= i < order.len() ==> #[trigger] order[i] < nodes
    &&& forall|i: int, j: int|
        0 <= i < order.len() && 0 <= j < order.len() && #[trigger] has_edge(
            edges,
            order[i],
            order[j],
        ) ==> i < j
}

/// `petgraph::Graph::new` gives a graph without nodes and edges.
#[verifier::external_body]
pub(crate) fn new_graph() -> (graph: petgraph::Graph<usize, u8, petgraph::Directed, u32>)
    ensures
        graph_nodes(graph) == 0,
        graph_edges(graph) == Seq::<(usize, usize, u8)>::empty(),
        graph_weights(graph) == Seq::<usize>::empty(),
        grown(graph),
{
    petgraph::Graph::new()
}

/// `petgraph::Graph::node_count` counts the nodes. There are never more than the
/// index type can number.
#[verifier::external_body]
pub(crate) fn node_count(graph: &petgraph::Graph<usize, u8, petgraph::Directed, u32>) -> (n: usize)
    ensures
        n == graph_nodes(*graph),
        n <= u32::MAX,
{
    graph.node_count()
}

/// `petgraph::Graph::edge_count` counts the edges. There are never more than the
/// index type can number.
#[verifier::external_body]
pub(crate) fn edge_count(graph: &petgraph::Graph<usize, u8, petgraph::Directed, u32>) -> (n: usize)
    ensures
        n == graph_edges(*graph).len(),
        n <= u32::MAX,
{
    graph.edge_count()
}

/// `petgraph::Graph::add_node` adds a node, whose number is the count of the
/// nodes before, and leaves the edges as they are. The node holds its own number.
/// It panics when the count has reached the largest index.
#[verifier::external_body]
pub(crate) fn add_node(graph: &mut petgraph::Graph<usize, u8, petgraph::Directed, u32>) -> (index:
    usize)
    requires
        graph_nodes(*old(graph)) < u32::MAX,
    ensures
        index == graph_nodes(*old(graph)),
        graph_nodes(*final(graph)) == graph_nodes(*old(graph)) + 1,
        graph_edges(*final(graph)) == graph_edges(*old(graph)),
        graph_weights(*final(graph)) == graph_weights(*old(graph)).push(index),
        grown(*final(graph)) == grown(*old(graph)),
{
    graph.add_node(graph.node_count()).index()
}

/// `petgraph::Graph::add_edge` adds an edge with the next number, which comes first in
/// the lists of its ends. It panics when an end does not exist or when the count of the
/// edges has reached the largest index.
#[verifier::external_body]
pub(crate) fn add_edge(
    graph: &mut petgraph::Graph<usize, u8, petgraph::Directed, u32>,
    from: usize,
    to: usize,
    label: u8,
)
    requires
        from < graph_nodes(*old(graph)),
        to < graph_nodes(*old(graph)),
        graph_edges(*old(graph)).len() < u32::MAX,
    ensures
        graph_nodes(*final(graph)) == graph_nodes(*old(graph)),
        graph_edges(*final(graph)) == graph_edges(*old(graph)).push((from, to, label)),
        graph_weights(*final(graph)) == graph_weights(*old(graph)),
        grown(*final(graph)) == grown(*old(graph)),
{
    graph.add_edge(petgraph::graph::NodeIndex::new(from), petgraph::graph::NodeIndex::new(to), label);
}

/// `petgraph::Graph::raw_edges` holds the edges by their numbers. The ends of every
/// edge are nodes of the graph.
#[verifier::external_body]
pub(crate) fn edge_list(graph: &petgraph::Graph<usize, u8, petgraph::Directed, u32>) -> (edges: Vec<
    (usize, usize, u8),
>)
    ensures
        edges@ == graph_edges(*graph),
        edges_within(edges@, graph_nodes(*graph)),
        edges@.len() <= u32::MAX,
{
    graph
        .raw_edges()
        .iter()
        .map(|edge| (edge.source().index(), edge.target().index(), edge.weight))
        .collect()
}

/// `petgraph::Graph::neighbors_directed` walks over the other ends of the edges
/// at a node, in the order of the list of the node.
#[verifier::external_body]
pub(crate) fn neighbors_of(
    graph: &petgraph::Graph<usize, u8, petgraph::Directed, u32>,
    node: usize,
    direction: Direction,
) -> (nodes: Vec<usize>)
    requires
        node < graph_nodes(*graph),
        grown(*graph),
    ensures
        nodes@ == neighbors(graph_edges(*graph), node, direction),
{
    let direction = match direction {
        Direction::Outgoing => petgraph::Direction::Outgoing,
        Direction::Incoming => petgraph::Direction::Incoming,
    };
    let node = petgraph::graph::NodeIndex::new(node);
    graph.neighbors_directed(node, direction).map(|other| other.index()).collect()
}

/// `petgraph::Graph::find_edge` gives the number of the edge to the other node that
/// comes first in the list of the node, if there is one.
#[verifier::external_body]
pub(crate) fn find_edge(
    graph: &petgraph::Graph<usize, u8, petgraph::Directed, u32>,
    from: usize,
    to: usize,
) -> (found: Option<usize>)
    requires
        from < graph_nodes(*graph),
        to < graph_nodes(*graph),
        grown(*graph),
    ensures
        match found {
            Some(i) => is_last_edge(graph_edges(*graph), from, to, i as int),
            None => !has_edge(graph_edges(*graph), from, to),
        },
{
    graph
        .find_edge(petgraph::graph::NodeIndex::new(from), petgraph::graph::NodeIndex::new(to))
        .map(|edge| edge.index())
}

/// The edge from one node to the other with the largest number.
pub open spec fn is_last_edge(
    edges: Seq<(usize, usize, u8)>,
    from: usize,
    to: usize,
    i: int,
) -> bool {
    &&& 0 <= i < edges.len()
    &&& edges[i].0 == from
    &&& edges[i].1 == to
    &&& forall|j: int|
        i < j < edges.len() ==> !((#[trigger] edges[j]).0 == from && edges[j].1 == to)
}

/// The edges after one was added, or after the label of the last edge between
/// the same nodes was replaced.
pub open spec fn updated_edges(
    before: Seq<(usize, usize, u8)>,
    from: usize,
    to: usize,
    label: u8,
    after: Seq<(usize, usize, u8)>,
) -> bool {
    if has_edge(before, from, to) {
        exists|i: int|
            #[trigger] is_last_edge(before, from, to, i) && after == before.update(
                i,
                (from, to, label),
            )
    } else {
        after == before.push((from, to, label))
    }
}

/// `petgraph::Graph::update_edge` gives the last edge between two nodes another
/// label, or adds an edge where there is none. It panics as `add_edge` does.
#[verifier::external_body]
pub(crate) fn update_edge(
    graph: &mut petgraph::Graph<usize, u8, petgraph::Directed, u32>,
    from: usize,
    to: usize,
    label: u8,
)
    requires
        from < graph_nodes(*old(graph)),
        to < graph_nodes(*old(graph)),
        graph_edges(*old(graph)).len() < u32::MAX,
        grown(*old(graph)),
    ensures
        graph_nodes(*final(graph)) == graph_nodes(*old(graph)),
        graph_weights(*final(graph)) == graph_weights(*old(graph)),
        grown(*final(graph)),
        updated_edges(graph_edges(*old(graph)), from, to, label, graph_edges(*final(graph))),
{
    graph.update_edge(
        petgraph::graph::NodeIndex::new(from),
        petgraph::graph::NodeIndex::new(to),
        label,
    );
}

/// `petgraph::algo::toposort` gives the nodes of a graph without cycles in
/// topological order, and an error for a graph with a cycle.
#[verifier::external_body]
pub(crate) fn toposort(graph: &petgraph::Graph<usize, u8, petgraph::Directed, u32>) -> (order: Option<
    Vec<usize>,
>)
    ensures
        match order {
            Some(order) => acyclic(graph_edges(*graph)) && topological(
                graph_edges(*graph),
                graph_nodes(*graph),
                order@,
            ),
            None => !acyclic(graph_edges(*graph)),
        },
{
    petgraph::algo::toposort(graph, None)
        .map(|order| order.into_iter().map(|node| node.index()).collect())
        .ok()
}

/// `daggy::Dag::new` gives a graph without nodes and edges.
#[verifier::external_body]
pub(crate) fn new_dag() -> (dag: AcyclicGraph)
    ensures
        dag_nodes(dag) == 0,
        dag_edges(dag) == Seq::<(usize, usize, u8)>::empty(),
{
    AcyclicGraph { dag: daggy::Dag::new() }
}

/// `daggy::Dag::add_node` adds a node, whose number is the count of the nodes
/// before, and leaves the edges as they are. It panics when the count has reached
/// the largest index.
#[verifier::external_body]
pub(crate) fn add_dag_node(dag: &mut AcyclicGraph) -> (index: usize)
    requires
        dag_nodes(*old(dag)) < u32::MAX,
    ensures
        index == dag_nodes(*old(dag)),
        dag_nodes(*final(dag)) == dag_nodes(*old(dag)) + 1,
        dag_edges(*final(dag)) == dag_edges(*old(dag)),
{
    let next = dag.dag.node_count();
    dag.dag.add_node(next).index()
}

/// `daggy::Dag::add_edge` adds an edge behind the others, unless the node that it
/// enters leads to the node that it leaves: then it changes nothing and fails. It
/// panics when an end does not exist or when the count of the edges has reached the
/// largest index.
#[verifier::external_body]
pub(crate) fn add_dag_edge(dag: &mut AcyclicGraph, from: usize, to: usize, label: u8) -> (added: bool)
    requires
        from < dag_nodes(*old(dag)),
        to < dag_nodes(*old(dag)),
        dag_edges(*old(dag)).len() < u32::MAX,
        acyclic(dag_edges(*old(dag))),
    ensures
        dag_nodes(*final(dag)) == dag_nodes(*old(dag)),
        added == !connected(dag_edges(*old(dag)), to, from),
        dag_edges(*final(dag)) == if added {
            dag_edges(*old(dag)).push((from, to, label))
        } else {
            dag_edges(*old(dag))
        },
{
    dag.dag.add_edge(daggy::NodeIndex::new(from), daggy::NodeIndex::new(to), label).is_ok()
}

/// `daggy::Dag::edge_weight_mut` gives access to the label of an edge, which is
/// replaced here. Nothing else changes.
#[verifier::external_body]
pub(crate) fn set_dag_label(dag: &mut AcyclicGraph, edge: usize, label: u8)
    requires
        edge < dag_edges(*old(dag)).len(),
    ensures
        dag_nodes(*final(dag)) == dag_nodes(*old(dag)),
        dag_edges(*final(dag)) == dag_edges(*old(dag)).update(
            edge as int,
            (dag_edges(*old(dag))[edge as int].0, dag_edges(*old(dag))[edge as int].1, label),
        ),
{
    *dag.dag.edge_weight_mut(daggy::EdgeIndex::new(edge)).unwrap() = label;
}

/// `daggy::Dag::transitive_reduce` takes out edges that repeat what longer walks from a
/// root say. From a root that no edge leaves there are no walks, and it changes nothing.
/// What it leaves of the walks from another root is left unsaid: it collects the numbers of
/// edges before it takes them out one by one, and each that is taken out gives its number to
/// the last edge.
#[verifier::external_body]
pub(crate) fn reduce_dag(dag: &mut AcyclicGraph, root: usize)
    requires
        root < dag_nodes(*old(dag)),
        forall|i: int|
            0 <= i < dag_edges(*old(dag)).len() ==> (#[trigger] dag_edges(*old(dag))[i]).0 != root,
    ensures
        dag_nodes(*final(dag)) == dag_nodes(*old(dag)),
        dag_edges(*final(dag)) == dag_edges(*old(dag)),
{
    dag.dag.transitive_reduce(vec![daggy::NodeIndex::new(root)]);
}

/// `daggy::Dag::graph` gives the graph that holds the nodes and edges. Every node holds
/// its own number, as it was added. No edge was ever taken out (`daggy::Dag::add_edge` looks
/// for a cycle before it adds an edge).
#[verifier::external_body]
pub(crate) fn dag_graph(dag: &AcyclicGraph) -> (graph: &petgraph::Graph<
    usize,
    u8,
    petgraph::Directed,
    u32,
>)
    ensures
        graph_nodes(*graph) == dag_nodes(*dag),
        graph_edges(*graph) == dag_edges(*dag),
        graph_weights(*graph) == numbers_below(dag_nodes(*dag)),
        grown(*graph),
{
    dag.dag.graph()
}

/// Walks in a row make a walk.
pub proof fn walk_joins(edges: Seq<(usize, usize, u8)>, a: usize, b: usize, c: usize, m: nat, n: nat)
    requires
        walk(edges, a, b, m),
        walk(edges, b, c, n),
    ensures
        walk(edges, a, c, m + n),
    decreases m,
{
    if m > 0 {
        let middle = choose|middle: usize|
            #[trigger] has_edge(edges, a, middle) && walk(edges, middle, b, (m - 1) as nat);
        walk_joins(edges, middle, b, c, (m - 1) as nat, n);
        assert((m - 1) as nat + n == (m + n - 1) as nat);
    }
}

/// Every node leads to itself.
pub proof fn connected_reflexive(edges: Seq<(usize, usize, u8)>, a: usize)
    ensures
        connected(edges, a, a),
{
    assert(walk(edges, a, a, 0));
}

/// What a node leads to leads on.
pub proof fn connected_transitive(edges: Seq<(usize, usize, u8)>, a: usize, b: usize, c: usize)
    requires
        connected(edges, a, b),
        connected(edges, b, c),
    ensures
        connected(edges, a, c),
{
    let m = choose|m: nat| walk(edges, a, b, m);
    let n = choose|n: nat| walk(edges, b, c, n);
    walk_joins(edges, a, b, c, m, n);
}

/// An edge connects its ends.
pub proof fn edge_connects(edges: Seq<(usize, usize, u8)>, a: usize, b: usize)
    requires
        has_edge(edges, a, b),
    ensures
        connected(edges, a, b),
{
    assert(walk(edges, b, b, 0));
    assert(walk(edges, a, b, 1));
}

/// A walk over edges and one more edge either avoids that edge or passes it.
proof fn walk_through_new_edge(
    edges: Seq<(usize, usize, u8)>,
    edge: (usize, usize, u8),
    from: usize,
    to: usize,
    steps: nat,
)
    requires
        walk(edges.push(edge), from, to, steps),
    ensures
        connected(edges, from, to) || (connected(edges, from, edge.0) && connected(edges, edge.1, to)),
    decreases steps,
{
    let more = edges.push(edge);
    if steps == 0 {
        connected_reflexive(edges, from);
    } else {
        let middle = choose|middle: usize|
            #[trigger] has_edge(more, from, middle) && walk(more, middle, to, (steps - 1) as nat);
        walk_through_new_edge(edges, edge, middle, to, (steps - 1) as nat);
        let i = choose|i: int| 0 <= i < more.len() && (#[trigger] more[i]).0 == from && more[i].1 == middle;
        if i < edges.len() {
            assert(edges[i].0 == from && edges[i].1 == middle);
            edge_connects(edges, from, middle);
            if connected(edges, middle, to) {
                connected_transitive(edges, from, middle, to);
            } else {
                connected_transitive(edges, from, middle, edge.0);
            }
        } else {
            connected_reflexive(edges, from);
        }
    }
}

/// An edge whose end does not lead back to its start closes no cycle.
pub proof fn acyclic_push(edges: Seq<(usize, usize, u8)>, edge: (usize, usize, u8))
    requires
        acyclic(edges),
        !connected(edges, edge.1, edge.0),
    ensures
        acyclic(edges.push(edge)),
{
    let more = edges.push(edge);
    assert forall|from: usize, to: usize| #[trigger] has_edge(more, from, to) implies !connected(
        more,
        to,
        from,
    ) by {
        if connected(more, to, from) {
            let steps = choose|steps: nat| walk(more, to, from, steps);
            walk_through_new_edge(edges, edge, to, from, steps);
            let i = choose|i: int| 0 <= i < more.len() && (#[trigger] more[i]).0 == from && more[i].1 == to;
            if i < edges.len() {
                assert(edges[i].0 == from && edges[i].1 == to);
                assert(has_edge(edges, from, to));
                edge_connects(edges, from, to);
                if !connected(edges, to, from) {
                    connected_transitive(edges, edge.1, from, to);
                    connected_transitive(edges, edge.1, to, edge.0);
                }
            }
        }
    }
}

/// An edge whose end leads back to its start closes a cycle.
pub proof fn cycle_push(edges: Seq<(usize, usize, u8)>, edge: (usize, usize, u8))
    requires
        connected(edges, edge.1, edge.0),
    ensures
        !acyclic(edges.push(edge)),
{
    let more = edges.push(edge);
    assert(more[edges.len() as int] == edge);
    assert(has_edge(more, edge.0, edge.1));
    connected_grows(edges, edge, edge.1, edge.0);
}

/// Edges connect no less when one is added.
pub proof fn connected_grows(
    edges: Seq<(usize, usize, u8)>,
    edge: (usize, usize, u8),
    from: usize,
    to: usize,
)
    requires
        connected(edges, from, to),
    ensures
        connected(edges.push(edge), from, to),
{
    let steps = choose|steps: nat| walk(edges, from, to, steps);
    walk_in_more(edges, edges.push(edge), from, to, steps);
}

/// A walk stays a walk where all its edges stay.
pub proof fn walk_in_more(
    edges: Seq<(usize, usize, u8)>,
    more: Seq<(usize, usize, u8)>,
    from: usize,
    to: usize,
    steps: nat,
)
    requires
        walk(edges, from, to, steps),
        edges.is_prefix_of(more),
    ensures
        walk(more, from, to, steps),
    decreases steps,
{
    if steps > 0 {
        let middle = choose|middle: usize|
            #[trigger] has_edge(edges, from, middle) && walk(edges, middle, to, (steps - 1) as nat);
        let i = choose|i: int| 0 <= i < edges.len() && (#[trigger] edges[i]).0 == from && edges[i].1 == middle;
        assert(more[i] == edges[i]);
        assert(has_edge(more, from, middle));
        walk_in_more(edges, more, middle, to, (steps - 1) as nat);
    }
}

/// A graph without edges has no cycle.
pub proof fn acyclic_empty()
    ensures
        acyclic(Seq::<(usize, usize, u8)>::empty()),
{
}

/// Edges that go the same ways connect the same nodes, whatever their labels.
pub proof fn walk_ignores_labels(
    edges: Seq<(usize, usize, u8)>,
    others: Seq<(usize, usize, u8)>,
    from: usize,
    to: usize,
    steps: nat,
)
    requires
        walk(edges, from, to, steps),
        forall|a: usize, b: usize| #[trigger] has_edge(edges, a, b) ==> has_edge(others, a, b),
    ensures
        walk(others, from, to, steps),
    decreases steps,
{
    if steps > 0 {
        let middle = choose|middle: usize|
            #[trigger] has_edge(edges, from, middle) && walk(edges, middle, to, (steps - 1) as nat);
        assert(has_edge(others, from, middle));
        walk_ignores_labels(edges, others, middle, to, (steps - 1) as nat);
    }
}

/// A graph whose edges all stand in a graph without cycles has no cycle.
pub proof fn acyclic_within(edges: Seq<(usize, usize, u8)>, others: Seq<(usize, usize, u8)>)
    requires
        acyclic(others),
        forall|a: usize, b: usize| #[trigger] has_edge(edges, a, b) ==> has_edge(others, a, b),
    ensures
        acyclic(edges),
{
    assert forall|from: usize, to: usize| #[trigger] has_edge(edges, from, to) implies !connected(
        edges,
        to,
        from,
    ) by {
        if connected(edges, to, from) {
            let steps = choose|steps: nat| walk(edges, to, from, steps);
            walk_ignores_labels(edges, others, to, from, steps);
            assert(has_edge(others, from, to));
            assert(connected(others, to, from));
        }
    }
}

/// A node is a neighbor exactly where an edge leads there.
pub proof fn neighbors_are_edges(
    edges: Seq<(usize, usize, u8)>,
    node: usize,
    direction: Direction,
    other: usize,
)
    ensures
        neighbors(edges, node, direction).contains(other) == (match direction {
            Direction::Outgoing => has_edge(edges, node, other),
            Direction::Incoming => has_edge(edges, other, node),
        }),
    decreases edges.len(),
{
    if edges.len() > 0 {
        let rest = edges.drop_last();
        let edge = edges.last();
        neighbors_are_edges(rest, node, direction, other);
        let tail = neighbors(rest, node, direction);
        let (a, b) = match direction {
            Direction::Outgoing => (node, other),
            Direction::Incoming => (other, node),
        };
        if has_edge(rest, a, b) {
            let i = choose|i: int| 0 <= i < rest.len() && (#[trigger] rest[i]).0 == a && rest[i].1 == b;
            assert(edges[i].0 == a && edges[i].1 == b);
        }
        if has_edge(edges, a, b) && !(edge.0 == a && edge.1 == b) {
            let i = choose|i: int| 0 <= i < edges.len() && (#[trigger] edges[i]).0 == a && edges[i].1 == b;
            assert(rest[i].0 == a && rest[i].1 == b);
        }
        if edge.0 == a && edge.1 == b {
            assert(edges[edges.len() - 1] == edge);
            assert(has_edge(edges, a, b));
            assert((seq![other] + tail)[0] == other);
        }
        assert forall|x: usize| (seq![x] + tail).contains(other) == (x == other || tail.contains(
            other,
        )) by {
            let all = seq![x] + tail;
            if tail.contains(other) {
                let i = choose|i: int| 0 <= i < tail.len() && tail[i] == other;
                assert(all[i + 1] == other);
            }
            if x == other {
                assert(all[0] == other);
            }
            if all.contains(other) && x != other {
                let i = choose|i: int| 0 <= i < all.len() && all[i] == other;
                assert(tail[i - 1] == other);
            }
        }
    }
}

/// The nodes that were seen, with those of the next nodes that were not.
pub open spec fn discover(seen: Seq<usize>, nexts: Seq<usize>) -> Seq<usize>
    decreases nexts.len(),
{
    if nexts.len() == 0 {
        seen
    } else {
        let before = discover(seen, nexts.drop_last());
        if before.contains(nexts.last()) {
            before
        } else {
            before.push(nexts.last())
        }
    }
}

/// The nodes that are seen from the nodes at one place and behind it, nearest first.
pub open spec fn spread(
    edges: Seq<(usize, usize, u8)>,
    direction: Direction,
    seen: Seq<usize>,
    at: nat,
    fuel: nat,
) -> Seq<usize>
    decreases fuel,
{
    if fuel == 0 || at >= seen.len() {
        seen
    } else {
        spread(
            edges,
            direction,
            discover(seen, neighbors(edges, seen[at as int], direction)),
            at + 1,
            (fuel - 1) as nat,
        )
    }
}

/// The node itself, then the nodes that it leads to, in breadth-first order.
pub open spec fn breadth_first(
    edges: Seq<(usize, usize, u8)>,
    nodes: nat,
    start: usize,
    direction: Direction,
) -> Seq<usize> {
    spread(edges, direction, seq![start], 0, nodes)
}

/// A walk in a direction.
pub open spec fn leads_to(
    edges: Seq<(usize, usize, u8)>,
    direction: Direction,
    from: usize,
    to: usize,
) -> bool {
    match direction {
        Direction::Outgoing => connected(edges, from, to),
        Direction::Incoming => connected(edges, to, from),
    }
}

/// Numbers below a bound that all differ are no more than the bound.
pub proof fn distinct_below(items: Seq<usize>, bound: nat)
    requires
        items.no_duplicates(),
        forall|i: int| 0 <= i < items.len() ==> #[trigger] items[i] < bound,
    ensures
        items.len() <= bound,
{
    let ints = items.map_values(|x: usize| x as int);
    assert(ints.no_duplicates()) by {
        assert forall|i: int, j: int| 0 <= i < ints.len() && 0 <= j < ints.len() && i != j implies ints[i]
            != ints[j] by {
            assert(items[i] != items[j]);
        }
    }
    ints.unique_seq_to_set();
    vstd::set_lib::lemma_int_range(0, bound as int);
    assert(ints.to_set().subset_of(vstd::set_lib::set_int_range(0, bound as int))) by {
        assert forall|x: int| ints.to_set().contains(x) implies vstd::set_lib::set_int_range(
            0,
            bound as int,
        ).contains(x) by {
            let i = choose|i: int| 0 <= i < ints.len() && ints[i] == x;
            assert(items[i] < bound);
        }
    }
    vstd::set_lib::lemma_len_subset(
        ints.to_set(),
        vstd::set_lib::set_int_range(0, bound as int),
    );
}

/// Whether a number is among others.
pub fn contains_number(items: &Vec<usize>, item: usize) -> (found: bool)
    ensures
        found == items@.contains(item),
{
    let mut i: usize = 0;
    while i < items.len()
        invariant
            i <= items@.len(),
            forall|j: int| 0 <= j < i ==> items@[j] != item,
        decreases items.len() - i,
    {
        if items[i] == item {
            assert(items@[i as int] == item);
            return true;
        }
        i = i + 1;
    }
    false
}

/// The node itself, then the nodes that it leads to, in breadth-first order, each
/// node once.
pub(crate) fn nodes_from(
    graph: &petgraph::Graph<usize, u8, petgraph::Directed, u32>,
    start: usize,
    direction: Direction,
) -> (seen: Vec<usize>)
    requires
        start < graph_nodes(*graph),
        edges_within(graph_edges(*graph), graph_nodes(*graph)),
        grown(*graph),
    ensures
        seen@ == breadth_first(graph_edges(*graph), graph_nodes(*graph), start, direction),
        seen@.len() > 0,
        seen@[0] == start,
        seen@.no_duplicates(),
        forall|i: int| 0 <= i < seen@.len() ==> #[trigger] seen@[i] < graph_nodes(*graph),
        forall|x: usize|
            #[trigger] seen@.contains(x) <==> leads_to(graph_edges(*graph), direction, start, x),
{
    let ghost edges = graph_edges(*graph);
    let ghost nodes = graph_nodes(*graph);
    let mut seen: Vec<usize> = Vec::new();
    seen.push(start);
    let mut at: usize = 0;
    assert(seen@ =~= seq![start]);
    while at < seen.len()
        invariant
            edges == graph_edges(*graph),
            nodes == graph_nodes(*graph),
            edges_within(edges, nodes),
            grown(*graph),
            at <= seen@.len() <= nodes,
            seen@.no_duplicates(),
            forall|i: int| 0 <= i < seen@.len() ==> #[trigger] seen@[i] < nodes,
            breadth_first(edges, nodes, start, direction) == spread(
                edges,
                direction,
                seen@,
                at as nat,
                (nodes - at) as nat,
            ),
        decreases nodes - at,
    {
        let node: usize = seen[at];
        assert(seen@[at as int] < nodes);
        let nexts = neighbors_of(graph, node, direction);
        let ghost before = seen@;
        let mut k: usize = 0;
        assert(nexts@.take(0) =~= Seq::empty());
        while k < nexts.len()
            invariant
                edges_within(edges, nodes),
                nexts@ == neighbors(edges, node, direction),
                k <= nexts@.len(),
                before.len() <= seen@.len(),
                seen@ == discover(before, nexts@.take(k as int)),
                seen@.len() <= nodes,
                seen@.no_duplicates(),
                forall|i: int| 0 <= i < seen@.len() ==> #[trigger] seen@[i] < nodes,
            decreases nexts.len() - k,
        {
            let next: usize = nexts[k];
            proof {
                let taken = nexts@.take(k + 1);
                assert(taken.drop_last() =~= nexts@.take(k as int));
                assert(taken.last() == next);
                assert(nexts@.contains(next));
                neighbors_are_edges(edges, node, direction, next);
                let (a, b) = match direction {
                    Direction::Outgoing => (node, next),
                    Direction::Incoming => (next, node),
                };
                let e = choose|e: int|
                    0 <= e < edges.len() && (#[trigger] edges[e]).0 == a && edges[e].1 == b;
                assert(edges[e].0 < nodes && edges[e].1 < nodes);
            }
            if !contains_number(&seen, next) {
                seen.push(next);
                proof {
                    distinct_below(seen@, nodes);
                }
            }
            k = k + 1;
        }
        assert(nexts@.take(k as int) =~= nexts@);
        at = at + 1;
    }
    proof {
        breadth_first_meets(edges, nodes, start, direction);
    }
    seen
}

} // verus!
