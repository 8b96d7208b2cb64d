//! Dependency graphs whose edges are split by scope into two graphs without cycles.

use crate::config::{scope_of_label, DependencyScope};
use crate::graph::{
    acyclic, acyclic_empty, acyclic_push, acyclic_within, add_dag_edge, add_dag_node, add_edge,
    add_node, connected, cycle_push, dag_edges, dag_graph, dag_nodes, edge_list, edges_within,
    graph_edges, graph_nodes, graph_weights, grown, has_edge, new_dag, new_graph, node_count,
    numbers_below, topological, toposort, AcyclicGraph,
};
use vstd::prelude::*;

verus! {

/// The part of a dependency graph that a scope belongs to. Each part is free of
/// cycles, while both together may hold cycles that cross the boundary.
#[derive(Clone, Copy, PartialEq, Eq, Structural, Debug)]
pub enum ScopePartition {
    /// Production and peer scoped dependencies.
    Production,
    /// Development, build, and root scoped dependencies.
    Development,
}

impl ScopePartition {
    /// The part that a scope belongs to.
    pub open spec fn of_spec(scope: DependencyScope) -> ScopePartition {
        if scope.production_spec() {
            ScopePartition::Production
        } else {
            ScopePartition::Development
        }
    }

    /// The part that a scope belongs to.
    pub fn of(scope: &DependencyScope) -> (partition: ScopePartition)
        ensures
            partition == Self::of_spec(*scope),
    {
        if scope.is_production_group() {
            ScopePartition::Production
        } else {
            ScopePartition::Development
        }
    }
}

/// A label belongs to a part.
pub open spec fn label_in(label: u8, partition: ScopePartition) -> bool {
    ScopePartition::of_spec(scope_of_label(label)) == partition
}

/// Whether a label belongs to a part.
pub fn is_label_in(label: u8, partition: ScopePartition) -> (r: bool)
    ensures
        r == label_in(label, partition),
{
    ScopePartition::of(&DependencyScope::from_label(label)) == partition
}

/// The edges of one part.
pub open spec fn partition_edges(
    edges: Seq<(usize, usize, u8)>,
    partition: ScopePartition,
) -> Seq<(usize, usize, u8)> {
    edges.filter(|edge: (usize, usize, u8)| label_in(edge.2, partition))
}

/// `petgraph::algo::has_path_connecting` tells whether a walk leads from one node to
/// the other, and is true where they are the same. On `petgraph::visit::EdgeFiltered`
/// it sees only the edges that the filter accepts. It panics for a node that does
/// not exist.
#[verifier::external_body]
pub(crate) fn has_path(
    graph: &petgraph::Graph<usize, u8, petgraph::Directed, u32>,
    partition: ScopePartition,
    from: usize,
    to: usize,
) -> (found: bool)
    requires
        from < graph_nodes(*graph),
        to < graph_nodes(*graph),
    ensures
        found == connected(partition_edges(graph_edges(*graph), partition), from, to),
{
    let filtered = petgraph::visit::EdgeFiltered::from_fn(graph, |edge| {
        is_label_in(*petgraph::visit::EdgeRef::weight(&edge), partition)
    });
    let from = petgraph::graph::NodeIndex::new(from);
    petgraph::algo::has_path_connecting(&filtered, from, petgraph::graph::NodeIndex::new(to), None)
}

/// Whether an edge with a scope would close a cycle in the part that the scope
/// belongs to. Edges of the other part do not count.
pub fn would_cycle_in_scope(
    graph: &petgraph::Graph<usize, u8, petgraph::Directed, u32>,
    source: usize,
    target: usize,
    scope: &DependencyScope,
) -> (cycles: bool)
    requires
        source < graph_nodes(*graph),
        target < graph_nodes(*graph),
    ensures
        cycles == connected(
            partition_edges(graph_edges(*graph), ScopePartition::of_spec(*scope)),
            target,
            source,
        ),
{
    has_path(graph, ScopePartition::of(scope), target, source)
}

/// The edges of a part with one more edge behind them.
pub proof fn partition_edges_push(
    edges: Seq<(usize, usize, u8)>,
    edge: (usize, usize, u8),
    partition: ScopePartition,
)
    ensures
        partition_edges(edges.push(edge), partition) == if label_in(edge.2, partition) {
            partition_edges(edges, partition).push(edge)
        } else {
            partition_edges(edges, partition)
        },
{
    reveal(Seq::filter);
    assert(edges.push(edge).drop_last() =~= edges);
}

/// No edges have no edges of a part.
pub proof fn partition_edges_empty(partition: ScopePartition)
    ensures
        partition_edges(Seq::empty(), partition) == Seq::<(usize, usize, u8)>::empty(),
{
    reveal(Seq::filter);
}

/// The edges of a part are edges, and there are no more of them.
pub proof fn partition_edges_within(
    edges: Seq<(usize, usize, u8)>,
    partition: ScopePartition,
    nodes: nat,
)
    requires
        edges_within(edges, nodes),
    ensures
        edges_within(partition_edges(edges, partition), nodes),
        partition_edges(edges, partition).len() <= edges.len(),
    decreases edges.len(),
{
    if edges.len() == 0 {
        partition_edges_empty(partition);
        assert(edges =~= Seq::empty());
    } else {
        let rest = edges.drop_last();
        assert(edges_within(rest, nodes)) by {
            assert forall|i: int| 0 <= i < rest.len() implies (#[trigger] rest[i]).0 < nodes
                && rest[i].1 < nodes by {
                assert(edges[i].0 < nodes);
            }
        }
        partition_edges_within(rest, partition, nodes);
        partition_edges_push(rest, edges.last(), partition);
        assert(edges =~= rest.push(edges.last()));
        assert(edges[edges.len() - 1].0 < nodes);
    }
}

/// The edge at one place closes a cycle in its part.
pub open spec fn closes_cycle(edges: Seq<(usize, usize, u8)>, i: int) -> bool {
    let edge = edges[i];
    exists|partition: ScopePartition| #[trigger] label_in(edge.2, partition) && connected(
        partition_edges(edges.take(i), partition),
        edge.1,
        edge.0,
    )
}

/// The first edge that closes a cycle in its part.
pub open spec fn first_cycle(edges: Seq<(usize, usize, u8)>, i: int) -> bool {
    0 <= i < edges.len() && closes_cycle(edges, i) && forall|j: int|
        0 <= j < i ==> !#[trigger] closes_cycle(edges, j)
}

/// Both parts are free of cycles.
pub open spec fn parts_acyclic(edges: Seq<(usize, usize, u8)>) -> bool {
    acyclic(partition_edges(edges, ScopePartition::Production)) && acyclic(
        partition_edges(edges, ScopePartition::Development),
    )
}

/// A cycle in the front of the edges is a cycle of all edges.
proof fn cycle_stays(edges: Seq<(usize, usize, u8)>, i: int, partition: ScopePartition)
    requires
        0 <= i <= edges.len(),
        !acyclic(partition_edges(edges.take(i), partition)),
    ensures
        !acyclic(partition_edges(edges, partition)),
    decreases edges.len() - i,
{
    if i == edges.len() {
        assert(edges.take(i) =~= edges);
    } else {
        let front = edges.take(i);
        let next = edges.take(i + 1);
        assert(next =~= front.push(edges[i]));
        partition_edges_push(front, edges[i], partition);
        let a = partition_edges(front, partition);
        let b = partition_edges(next, partition);
        if acyclic(b) {
            assert forall|x: usize, y: usize| #[trigger] has_edge(a, x, y) implies has_edge(
                b,
                x,
                y,
            ) by {
                let k = choose|k: int| 0 <= k < a.len() && (#[trigger] a[k]).0 == x && a[k].1 == y;
                assert(b[k] == a[k]);
            }
            acyclic_within(a, b);
        }
        cycle_stays(edges, i + 1, partition);
    }
}

/// An edge that closes a cycle in its part leaves that part with a cycle.
pub proof fn closing_makes_cycle(edges: Seq<(usize, usize, u8)>, i: int)
    requires
        0 <= i < edges.len(),
        closes_cycle(edges, i),
    ensures
        !parts_acyclic(edges),
{
    let edge = edges[i];
    let partition = choose|partition: ScopePartition| #[trigger] label_in(edge.2, partition)
        && connected(partition_edges(edges.take(i), partition), edge.1, edge.0);
    cycle_push(partition_edges(edges.take(i), partition), edge);
    partition_edges_push(edges.take(i), edge, partition);
    assert(edges.take(i + 1) =~= edges.take(i).push(edge));
    cycle_stays(edges, i + 1, partition);
}

/// A dependency graph: all edges, and those of each part.
pub struct ScopedView {
    pub nodes: nat,
    pub edges: Seq<(usize, usize, u8)>,
}

/// A dependency graph: all edges, and those of each part. The parts are free of
/// cycles.
pub struct ScopedGraph {
    union: petgraph::Graph<usize, u8, petgraph::Directed, u32>,
    production: AcyclicGraph,
    development: AcyclicGraph,
}

impl View for ScopedGraph {
    type V = ScopedView;

    closed spec fn view(&self) -> ScopedView {
        ScopedView { nodes: graph_nodes(self.union), edges: graph_edges(self.union) }
    }
}

/// What holds of every dependency graph.
pub open spec fn scoped_valid(graph: ScopedView) -> bool {
    edges_within(graph.edges, graph.nodes) && parts_acyclic(graph.edges)
}

impl ScopedGraph {
    #[verifier::type_invariant]
    spec fn valid(self) -> bool {
        &&& grown(self.union)
        &&& graph_weights(self.union) == numbers_below(graph_nodes(self.union))
        &&& dag_nodes(self.production) == graph_nodes(self.union)
        &&& dag_nodes(self.development) == graph_nodes(self.union)
        &&& dag_edges(self.production) == partition_edges(
            graph_edges(self.union),
            ScopePartition::Production,
        )
        &&& dag_edges(self.development) == partition_edges(
            graph_edges(self.union),
            ScopePartition::Development,
        )
        &&& scoped_valid(self@)
    }

    /// The graph without nodes.
    pub fn empty() -> (graph: Self)
        ensures
            graph@ == (ScopedView { nodes: 0, edges: Seq::empty() }),
    {
        proof {
            acyclic_empty();
            partition_edges_empty(ScopePartition::Production);
            partition_edges_empty(ScopePartition::Development);
            assert(numbers_below(0) =~= Seq::empty());
        }
        ScopedGraph { union: new_graph(), production: new_dag(), development: new_dag() }
    }

    /// Splits a graph into its parts. Every node then holds its own number, whatever it
    /// held before. Where an edge closes a cycle in its part, the ends of the first such
    /// edge are reported.
    pub fn split(graph: petgraph::Graph<usize, u8, petgraph::Directed, u32>) -> (split: Result<
        Self,
        (usize, usize),
    >)
        ensures
            match split {
                Ok(split) => {
                    &&& split@ == (ScopedView {
                        nodes: graph_nodes(graph),
                        edges: graph_edges(graph),
                    })
                    &&& parts_acyclic(graph_edges(graph))
                },
                Err(ends) => exists|i: int|
                    #[trigger] first_cycle(graph_edges(graph), i) && ends.0 == graph_edges(graph)[i].0
                        && ends.1 == graph_edges(graph)[i].1,
            },
    {
        let n: usize = node_count(&graph);
        let edges = edge_list(&graph);
        let ghost all = graph_edges(graph);
        let mut union = new_graph();
        let mut production = new_dag();
        let mut development = new_dag();
        assert(numbers_below(0) =~= Seq::empty());
        let mut k: usize = 0;
        while k < n
            invariant
                k <= n,
                n <= u32::MAX,
                grown(union),
                graph_nodes(union) == k,
                graph_edges(union) == Seq::<(usize, usize, u8)>::empty(),
                graph_weights(union) == numbers_below(k as nat),
                dag_nodes(production) == k,
                dag_nodes(development) == k,
                dag_edges(production) == Seq::<(usize, usize, u8)>::empty(),
                dag_edges(development) == Seq::<(usize, usize, u8)>::empty(),
            decreases n - k,
        {
            add_node(&mut union);
            add_dag_node(&mut production);
            add_dag_node(&mut development);
            assert(graph_weights(union) =~= numbers_below((k + 1) as nat));
            k = k + 1;
        }
        let mut i: usize = 0;
        proof {
            acyclic_empty();
            partition_edges_empty(ScopePartition::Production);
            partition_edges_empty(ScopePartition::Development);
            assert(all.take(0) =~= Seq::empty());
        }
        while i < edges.len()
            invariant
                i <= edges@.len(),
                n == graph_nodes(graph),
                all == graph_edges(graph),
                edges@ == all,
                edges_within(all, n as nat),
                all.len() <= u32::MAX,
                grown(union),
                graph_nodes(union) == n,
                graph_edges(union) == all.take(i as int),
                graph_weights(union) == numbers_below(n as nat),
                dag_nodes(production) == n,
                dag_nodes(development) == n,
                dag_edges(production) == partition_edges(
                    all.take(i as int),
                    ScopePartition::Production,
                ),
                dag_edges(development) == partition_edges(
                    all.take(i as int),
                    ScopePartition::Development,
                ),
                parts_acyclic(all.take(i as int)),
                forall|j: int| 0 <= j < i ==> !#[trigger] closes_cycle(all, j),
            decreases edges.len() - i,
        {
            let edge = edges[i];
            let ghost front = all.take(i as int);
            proof {
                assert(edge == all[i as int]);
                assert(edge.0 < n && edge.1 < n);
                assert(all.take(i + 1) =~= front.push(edge));
                partition_edges_push(front, edge, ScopePartition::Production);
                partition_edges_push(front, edge, ScopePartition::Development);
                assert(edges_within(front, n as nat)) by {
                    assert forall|x: int| 0 <= x < front.len() implies (#[trigger] front[x]).0 < n
                        && front[x].1 < n by {
                        assert(all[x].0 < n);
                    }
                }
                partition_edges_within(front, ScopePartition::Production, n as nat);
                partition_edges_within(front, ScopePartition::Development, n as nat);
            }
            let in_production = is_label_in(edge.2, ScopePartition::Production);
            let added = if in_production {
                add_dag_edge(&mut production, edge.0, edge.1, edge.2)
            } else {
                add_dag_edge(&mut development, edge.0, edge.1, edge.2)
            };
            proof {
                let partition = if in_production {
                    ScopePartition::Production
                } else {
                    ScopePartition::Development
                };
                assert(label_in(edge.2, partition));
                assert forall|other: ScopePartition| #[trigger] label_in(
                    edge.2,
                    other,
                ) implies other == partition by {}
                if added {
                    acyclic_push(partition_edges(front, partition), edge);
                    assert(!closes_cycle(all, i as int));
                } else {
                    assert(closes_cycle(all, i as int));
                    assert(first_cycle(all, i as int));
                }
            }
            if !added {
                return Err((edge.0, edge.1));
            }
            add_edge(&mut union, edge.0, edge.1, edge.2);
            i = i + 1;
        }
        assert(all.take(i as int) =~= all);
        Ok(ScopedGraph { union, production, development })
    }

    /// The graph of all edges. Every node holds its own number.
    pub fn union(&self) -> (graph: &petgraph::Graph<usize, u8, petgraph::Directed, u32>)
        ensures
            graph_nodes(*graph) == self@.nodes,
            graph_edges(*graph) == self@.edges,
            graph_weights(*graph) == numbers_below(self@.nodes),
            grown(*graph),
            scoped_valid(self@),
    {
        proof {
            use_type_invariant(self);
        }
        &self.union
    }

    /// The graph of the edges of one part. Every node holds its own number.
    pub fn partition(&self, partition: ScopePartition) -> (graph: &petgraph::Graph<
        usize,
        u8,
        petgraph::Directed,
        u32,
    >)
        ensures
            graph_nodes(*graph) == self@.nodes,
            graph_edges(*graph) == partition_edges(self@.edges, partition),
            graph_weights(*graph) == numbers_below(self@.nodes),
            grown(*graph),
            acyclic(graph_edges(*graph)),
            edges_within(graph_edges(*graph), self@.nodes),
            scoped_valid(self@),
    {
        proof {
            use_type_invariant(self);
            partition_edges_within(self@.edges, partition, self@.nodes);
        }
        match partition {
            ScopePartition::Production => dag_graph(&self.production),
            ScopePartition::Development => dag_graph(&self.development),
        }
    }

    /// The nodes in topological order of one part.
    pub fn partition_order(&self, partition: ScopePartition) -> (order: Vec<usize>)
        ensures
            topological(partition_edges(self@.edges, partition), self@.nodes, order@),
    {
        match toposort(self.partition(partition)) {
            Some(order) => order,
            None => {
                assert(false);
                Vec::new()
            },
        }
    }
}

} // verus!
