//! Directed graphs that stay free of cycles.

use crate::graph::{
    acyclic, acyclic_empty, acyclic_push, acyclic_within, add_dag_edge, add_dag_node, connected,
    dag_edges, dag_graph, dag_nodes, edge_count, edge_list, edges_within, find_edge, graph_edges, graph_nodes, grown,
    has_edge, is_last_edge, neighbors, neighbors_of, new_dag, node_count, reduce_dag, set_dag_label,
    AcyclicGraph, Direction,
};
use vstd::prelude::*;

verus! {

/// A graph without cycles: the number of its nodes, and its edges in the order in
/// which they were added.
pub struct DagView {
    pub nodes: nat,
    pub edges: Seq<(usize, usize, u8)>,
}

/// What holds of every such graph.
pub open spec fn dag_valid(dag: DagView) -> bool {
    acyclic(dag.edges) && edges_within(dag.edges, dag.nodes)
}

/// A graph that stays free of cycles.
pub struct DependencyDag {
    dag: AcyclicGraph,
}

impl View for DependencyDag {
    type V = DagView;

    closed spec fn view(&self) -> DagView {
        DagView { nodes: dag_nodes(self.dag), edges: dag_edges(self.dag) }
    }
}

impl DependencyDag {
    #[verifier::type_invariant]
    spec fn valid(self) -> bool {
        acyclic(dag_edges(self.dag)) && edges_within(dag_edges(self.dag), dag_nodes(self.dag))
    }

    /// The graph without nodes.
    pub fn empty() -> (graph: Self)
        ensures
            graph@ == (DagView { nodes: 0, edges: Seq::empty() }),
    {
        proof {
            acyclic_empty();
        }
        DependencyDag { dag: new_dag() }
    }

    /// The graph that holds the nodes and edges.
    pub fn graph(&self) -> (graph: &petgraph::Graph<usize, u8, petgraph::Directed, u32>)
        ensures
            graph_nodes(*graph) == self@.nodes,
            graph_edges(*graph) == self@.edges,
            grown(*graph),
            dag_valid(self@),
    {
        proof {
            use_type_invariant(self);
        }
        dag_graph(&self.dag)
    }

    /// The number of nodes.
    pub fn node_count(&self) -> (n: usize)
        ensures
            n == self@.nodes,
            n <= u32::MAX,
            dag_valid(self@),
    {
        node_count(self.graph())
    }

    /// The number of edges.
    pub fn edge_count(&self) -> (n: usize)
        ensures
            n == self@.edges.len(),
            n <= u32::MAX,
            dag_valid(self@),
    {
        edge_count(self.graph())
    }

    /// Adds a node, whose number is the count of the nodes before.
    pub fn add_node(&mut self) -> (index: usize)
        requires
            old(self)@.nodes < u32::MAX,
        ensures
            index == old(self)@.nodes,
            final(self)@ == (DagView { nodes: old(self)@.nodes + 1, ..old(self)@ }),
    {
        proof {
            use_type_invariant(&*self);
        }
        let mut dag = new_dag();
        proof {
            acyclic_empty();
        }
        std::mem::swap(&mut dag, &mut self.dag);
        let index: usize = add_dag_node(&mut dag);
        self.dag = dag;
        index
    }

    /// Adds an edge, unless it would close a cycle.
    pub fn add_edge(&mut self, from: usize, to: usize, label: u8) -> (added: bool)
        requires
            from < old(self)@.nodes,
            to < old(self)@.nodes,
            old(self)@.edges.len() < u32::MAX,
        ensures
            added == !connected(old(self)@.edges, to, from),
            final(self)@ == if added {
                DagView { edges: old(self)@.edges.push((from, to, label)), ..old(self)@ }
            } else {
                old(self)@
            },
    {
        proof {
            use_type_invariant(&*self);
        }
        let ghost before = dag_edges(self.dag);
        let mut dag = new_dag();
        proof {
            acyclic_empty();
        }
        std::mem::swap(&mut dag, &mut self.dag);
        let added = add_dag_edge(&mut dag, from, to, label);
        proof {
            if added {
                acyclic_push(before, (from, to, label));
            }
        }
        self.dag = dag;
        added
    }

    /// The number of the last edge from one node to another.
    pub fn find_edge(&self, from: usize, to: usize) -> (found: Option<usize>)
        requires
            from < self@.nodes,
            to < self@.nodes,
        ensures
            match found {
                Some(i) => is_last_edge(self@.edges, from, to, i as int) && has_edge(
                    self@.edges,
                    from,
                    to,
                ),
                None => !has_edge(self@.edges, from, to),
            },
    {
        let found = find_edge(self.graph(), from, to);
        proof {
            if found is Some {
                let i = found->0 as int;
                assert(self@.edges[i].0 == from && self@.edges[i].1 == to);
            }
        }
        found
    }

    /// All edges, in the order in which they were added.
    pub fn edges(&self) -> (edges: Vec<(usize, usize, u8)>)
        ensures
            edges@ == self@.edges,
            edges@.len() <= u32::MAX,
            dag_valid(self@),
    {
        edge_list(self.graph())
    }

    /// The neighbors of a node.
    pub fn neighbors(&self, node: usize, direction: Direction) -> (nodes: Vec<usize>)
        requires
            node < self@.nodes,
        ensures
            nodes@ == neighbors(self@.edges, node, direction),
    {
        neighbors_of(self.graph(), node, direction)
    }

    /// Takes out what longer walks from a root repeat. No edge leaves the root, so there is
    /// nothing to take out.
    pub fn reduce_from(&mut self, root: usize)
        requires
            root < old(self)@.nodes,
            forall|i: int|
                0 <= i < old(self)@.edges.len() ==> (#[trigger] old(self)@.edges[i]).0 != root,
        ensures
            final(self)@ == old(self)@,
    {
        proof {
            use_type_invariant(&*self);
        }
        let ghost before = dag_edges(self.dag);
        let mut dag = new_dag();
        proof {
            acyclic_empty();
            assert forall|i: int| 0 <= i < before.len() implies (#[trigger] before[i]).0 != root by {
                assert(old(self)@.edges[i].0 != root);
            }
        }
        std::mem::swap(&mut dag, &mut self.dag);
        reduce_dag(&mut dag, root);
        self.dag = dag;
    }

    /// Gives an edge another label.
    pub fn set_label(&mut self, edge: usize, label: u8)
        requires
            edge < old(self)@.edges.len(),
        ensures
            final(self)@ == (DagView {
                edges: old(self)@.edges.update(
                    edge as int,
                    (old(self)@.edges[edge as int].0, old(self)@.edges[edge as int].1, label),
                ),
                ..old(self)@
            }),
    {
        proof {
            use_type_invariant(&*self);
        }
        let ghost before = dag_edges(self.dag);
        let ghost nodes = dag_nodes(self.dag);
        let mut dag = new_dag();
        proof {
            acyclic_empty();
        }
        std::mem::swap(&mut dag, &mut self.dag);
        set_dag_label(&mut dag, edge, label);
        proof {
            let after = dag_edges(dag);
            assert forall|a: usize, b: usize| #[trigger] has_edge(after, a, b) implies has_edge(
                before,
                a,
                b,
            ) by {
                let i = choose|i: int|
                    0 <= i < after.len() && (#[trigger] after[i]).0 == a && after[i].1 == b;
                assert(before[i].0 == a && before[i].1 == b);
            }
            acyclic_within(after, before);
            assert forall|i: int| 0 <= i < after.len() implies (#[trigger] after[i]).0 < nodes
                && after[i].1 < nodes by {
                assert(before[i].0 < nodes);
            }
        }
        self.dag = dag;
    }
}

} // verus!
