//! Walks over the project graph, and the part of it around one project.

use crate::config::{key_of_project, scope_of_label, DependencyScope, Project, ProjectView};
use crate::focus::{
    acyclic_of_places, focus, focus_edges, focus_edges_were, focus_nodes, original_edge,
};
use crate::graph::{
    breadth_first, edge_list, edges_within, graph_edges, graph_nodes, graph_weights, grown,
    has_edge, neighbors, neighbors_are_edges, neighbors_of, nodes_from, numbers_below, topological,
    Direction,
};
use crate::id::{valid_id, Id};
use crate::keys::{project_key_text, ProjectKey, ProjectKeyView};
use crate::order::{outcome, views};
use crate::project_graph::{
    get_project, normal_key, unexpanded, AliasKey, AliasView, ProjectGraph, ProjectGraphError,
    ProjectGraphFault, ProjectGraphView, ProjectNode, ProjectNodeView,
};
use crate::scopes::{
    closing_makes_cycle, first_cycle, label_in, partition_edges, partition_edges_empty,
    partition_edges_push, parts_acyclic, ScopePartition, ScopedGraph, ScopedView,
};
use crate::table::{value_views, Key, Table};
use vstd::prelude::*;
use vstd::seq_lib::lemma_seq_contains_after_push;

verus! {

broadcast use {crate::order::group_views, crate::table::value_views_insert};

/// A graph whose numbers and projects belong together, with valid identifiers.
pub open spec fn graph_valid(graph: ProjectGraphView) -> bool {
    &&& graph.graph.nodes == graph.indexes.len()
    &&& forall|i: int|
        0 <= i < graph.indexes.len() ==> graph.nodes.dom().contains(#[trigger] graph.indexes[i])
    &&& forall|key: ProjectKeyView| #[trigger]
        graph.nodes.dom().contains(key) ==> graph.nodes[key].index < graph.indexes.len()
            && valid_id(graph.nodes[key].project.id)
}

/// A project that the graph has under its own key.
pub open spec fn has_project(graph: ProjectGraphView, project: ProjectView) -> bool {
    valid_id(project.id) && graph.nodes.dom().contains(key_of_project(project))
}

/// The number of a project.
pub open spec fn index_of_project(graph: ProjectGraphView, project: ProjectView) -> usize {
    graph.nodes[key_of_project(project)].index
}

/// The keys of the projects with these numbers.
pub open spec fn keys_at(graph: ProjectGraphView, numbers: Seq<usize>) -> Seq<ProjectKeyView> {
    numbers.map_values(|number: usize| graph.indexes[number as int])
}

/// The identifiers of the projects with these keys.
pub open spec fn ids_of(keys: Seq<ProjectKeyView>) -> Seq<Seq<char>> {
    keys.map_values(|key: ProjectKeyView| key.project)
}

/// The keys of the direct neighbors of a project in one part.
pub open spec fn partition_neighbor_keys(
    graph: ProjectGraphView,
    project: ProjectView,
    partition: ScopePartition,
    direction: Direction,
) -> Seq<ProjectKeyView> {
    keys_at(
        graph,
        neighbors(
            partition_edges(graph.graph.edges, partition),
            index_of_project(graph, project),
            direction,
        ),
    )
}

/// The keys of all projects that a project leads to in one part, nearest first,
/// without the project itself.
pub open spec fn partition_reached_keys(
    graph: ProjectGraphView,
    project: ProjectView,
    partition: ScopePartition,
    direction: Direction,
) -> Seq<ProjectKeyView> {
    keys_at(
        graph,
        breadth_first(
            partition_edges(graph.graph.edges, partition),
            graph.graph.nodes,
            index_of_project(graph, project),
            direction,
        ).skip(1),
    )
}

/// The keys of all projects, dependencies before the projects that depend on them.
pub open spec fn dependency_first(
    graph: ProjectGraphView,
    partition: ScopePartition,
    keys: Seq<ProjectKeyView>,
) -> bool {
    exists|order: Seq<usize>|
        #[trigger] topological(
            partition_edges(graph.graph.edges, partition),
            graph.graph.nodes,
            order,
        ) && keys == keys_at(graph, order.reverse())
}

/// The dependencies of a project with their scopes, in the order of the edges.
pub open spec fn scoped_dependencies(
    graph: ProjectGraphView,
    edges: Seq<(usize, usize, u8)>,
    index: usize,
) -> Seq<(ProjectKeyView, DependencyScope)>
    decreases edges.len(),
{
    if edges.len() == 0 {
        Seq::empty()
    } else {
        let rest = scoped_dependencies(graph, edges.drop_last(), index);
        let edge = edges.last();
        if edge.0 == index {
            rest.push((graph.indexes[edge.1 as int], scope_of_label(edge.2)))
        } else {
            rest
        }
    }
}

/// The projects that are kept, numbered by their places.
pub open spec fn focused_projects(graph: ProjectGraphView, kept: Seq<usize>) -> Map<
    ProjectKeyView,
    ProjectNodeView,
>
    decreases kept.len(),
{
    if kept.len() == 0 {
        Map::empty()
    } else {
        let key = graph.indexes[kept.last() as int];
        focused_projects(graph, kept.drop_last()).insert(
            key,
            ProjectNodeView {
                index: (kept.len() - 1) as usize,
                project: graph.nodes[key].project,
            },
        )
    }
}

/// The aliases of the projects that are kept.
pub open spec fn focused_aliases(
    graph: ProjectGraphView,
    nodes: Map<ProjectKeyView, ProjectNodeView>,
) -> Map<AliasView, ProjectKeyView> {
    graph.aliases.restrict(
        Set::new(
            |alias: AliasView|
                graph.aliases.dom().contains(alias) && nodes.dom().contains(graph.aliases[alias]),
        ),
    )
}

/// The part of the graph around the project with a number.
pub open spec fn focused_graph(
    graph: ProjectGraphView,
    start: usize,
    with_dependents: bool,
) -> ProjectGraphView {
    let kept = focus_nodes(graph.graph.edges, start, with_dependents, graph.graph.nodes);
    let nodes = focused_projects(graph, kept);
    ProjectGraphView {
        graph: ScopedView { nodes: kept.len(), edges: focus_edges(graph.graph.edges, kept) },
        indexes: keys_at(graph, kept),
        nodes,
        aliases: focused_aliases(graph, nodes),
        ..graph
    }
}

/// How often an identifier occurs among the projects with these keys.
pub open spec fn id_count(
    nodes: Map<ProjectKeyView, ProjectNodeView>,
    keys: Seq<ProjectKeyView>,
    id: Seq<char>,
) -> nat
    decreases keys.len(),
{
    if keys.len() == 0 {
        0
    } else {
        id_count(nodes, keys.drop_last(), id) + (if nodes[keys.last()].project.id == id {
            1nat
        } else {
            0
        })
    }
}

/// How a project is labeled: by its identifier, or by its key where other projects
/// have the same identifier.
pub open spec fn project_label(
    nodes: Map<ProjectKeyView, ProjectNodeView>,
    keys: Seq<ProjectKeyView>,
    project: ProjectView,
) -> Seq<char> {
    if id_count(nodes, keys, project.id) > 1 {
        project_key_text(key_of_project(project))
    } else {
        project.id
    }
}

/// A graph with a text on every node and every edge.
#[derive(Debug)]
pub struct LabeledGraph {
    pub nodes: Vec<String>,
    pub edges: Vec<(usize, usize, &'static str)>,
}

/// How often an identifier occurs among the projects.
pub fn count_id(nodes: &Table<ProjectKey, ProjectNode>, id: &Id) -> (count: usize)
    ensures
        count == id_count(value_views(nodes@), nodes.keys(), id@),
{
    let n: usize = nodes.len();
    let ghost all = nodes.keys();
    let mut count: usize = 0;
    let mut i: usize = 0;
    assert(all.take(0) =~= Seq::empty());
    while i < n
        invariant
            n == nodes.keys().len(),
            all == nodes.keys(),
            i <= n,
            count <= i,
            count == id_count(value_views(nodes@), all.take(i as int), id@),
        decreases n - i,
    {
        proof {
            let next = all.take(i + 1);
            assert(next.drop_last() =~= all.take(i as int));
            assert(next.last() == all[i as int]);
        }
        if nodes.value_at(i).project.id.same_key(id) {
            count = count + 1;
        }
        i = i + 1;
    }
    assert(all.take(i as int) =~= all);
    count
}

/// The identifiers of keys.
fn copy_key_ids(keys: &Vec<ProjectKey>) -> (ids: Vec<Id>)
    ensures
        views(ids@) == ids_of(views(keys@)),
{
    let mut ids: Vec<Id> = Vec::new();
    let mut i: usize = 0;
    assert(views(ids@) =~= ids_of(views(keys@)).take(0));
    while i < keys.len()
        invariant
            i <= keys@.len(),
            views(ids@) == ids_of(views(keys@)).take(i as int),
        decreases keys.len() - i,
    {
        ids.push(keys[i].project_id().clone());
        assert(views(ids@) =~= ids_of(views(keys@)).take(i + 1));
        i = i + 1;
    }
    assert(ids_of(views(keys@)).take(i as int) =~= ids_of(views(keys@)));
    ids
}

/// A graph whose edges are edges of a graph between the nodes at their places has
/// no cycle in its parts where that graph has none.
proof fn parts_acyclic_of_places(
    edges: Seq<(usize, usize, u8)>,
    kept: Seq<usize>,
    others: Seq<(usize, usize, u8)>,
)
    requires
        parts_acyclic(others),
        forall|i: int|
            0 <= i < edges.len() ==> others.contains(original_edge(kept, #[trigger] edges[i])),
    ensures
        parts_acyclic(edges),
{
    part_acyclic_of_places(edges, kept, others, ScopePartition::Production);
    part_acyclic_of_places(edges, kept, others, ScopePartition::Development);
}

/// An edge is in a part exactly where it is an edge whose label is in that part.
proof fn partition_holds(edges: Seq<(usize, usize, u8)>, partition: ScopePartition)
    ensures
        forall|edge: (usize, usize, u8)| #[trigger]
            partition_edges(edges, partition).contains(edge) <==> edges.contains(edge) && label_in(
                edge.2,
                partition,
            ),
    decreases edges.len(),
{
    if edges.len() == 0 {
        assert(edges =~= Seq::empty());
        partition_edges_empty(partition);
    } else {
        let rest = edges.drop_last();
        let last = edges.last();
        partition_holds(rest, partition);
        assert(edges =~= rest.push(last));
        partition_edges_push(rest, last, partition);
        assert forall|edge: (usize, usize, u8)| #[trigger]
            partition_edges(edges, partition).contains(edge) <==> edges.contains(edge) && label_in(
                edge.2,
                partition,
            ) by {
            lemma_seq_contains_after_push(rest, last, edge);
            lemma_seq_contains_after_push(partition_edges(rest, partition), last, edge);
        }
    }
}

/// What holds of all edges holds of those of one part.
proof fn part_acyclic_of_places(
    edges: Seq<(usize, usize, u8)>,
    kept: Seq<usize>,
    others: Seq<(usize, usize, u8)>,
    partition: ScopePartition,
)
    requires
        crate::graph::acyclic(partition_edges(others, partition)),
        forall|i: int|
            0 <= i < edges.len() ==> others.contains(original_edge(kept, #[trigger] edges[i])),
    ensures
        crate::graph::acyclic(partition_edges(edges, partition)),
{
    let part = partition_edges(edges, partition);
    let whole = partition_edges(others, partition);
    partition_holds(edges, partition);
    partition_holds(others, partition);
    assert forall|a: usize, b: usize| #[trigger] has_edge(part, a, b) implies has_edge(
        whole,
        kept[a as int],
        kept[b as int],
    ) by {
        let i = choose|i: int| 0 <= i < part.len() && (#[trigger] part[i]).0 == a && part[i].1 == b;
        assert(part.contains(part[i]));
        assert(edges.contains(part[i]));
        let j = choose|j: int| 0 <= j < edges.len() && edges[j] == part[i];
        let edge = original_edge(kept, edges[j]);
        assert(others.contains(edge));
        assert(whole.contains(edge));
        let k = choose|k: int| 0 <= k < whole.len() && whole[k] == edge;
        assert(whole[k].0 == kept[a as int] && whole[k].1 == kept[b as int]);
    }
    acyclic_of_places(part, kept, whole);
}

impl ProjectGraph {
    /// The keys of the projects with these numbers.
    fn keys_of(&self, numbers: &Vec<usize>) -> (keys: Vec<ProjectKey>)
        requires
            forall|i: int| 0 <= i < numbers@.len() ==> #[trigger] numbers@[i] < self@.indexes.len(),
        ensures
            views(keys@) == keys_at(self@, numbers@),
    {
        let mut keys: Vec<ProjectKey> = Vec::new();
        let mut i: usize = 0;
        assert(views(keys@) =~= keys_at(self@, numbers@).take(0));
        while i < numbers.len()
            invariant
                i <= numbers@.len(),
                forall|i: int|
                    0 <= i < numbers@.len() ==> #[trigger] numbers@[i] < self@.indexes.len(),
                views(keys@) == keys_at(self@, numbers@).take(i as int),
            decreases numbers.len() - i,
        {
            assert(numbers@[i as int] < self@.indexes.len());
            keys.push(self.indexes[numbers[i]].clone());
            assert(views(keys@) =~= keys_at(self@, numbers@).take(i + 1));
            i = i + 1;
        }
        assert(keys_at(self@, numbers@).take(i as int) =~= keys_at(self@, numbers@));
        keys
    }

    /// The number of a project.
    fn get_node_index(&self, project: &Project) -> (index: usize)
        requires
            has_project(self@, project@),
        ensures
            index == index_of_project(self@, project@),
    {
        match self.nodes.get(&project.key()) {
            Some(node) => node.index,
            None => {
                assert(false);
                0
            },
        }
    }

    /// The graph of all dependencies. Every node holds its own number.
    pub fn get_graph(&self) -> (graph: &petgraph::Graph<usize, u8, petgraph::Directed, u32>)
        ensures
            graph_nodes(*graph) == self@.graph.nodes,
            graph_edges(*graph) == self@.graph.edges,
            graph_weights(*graph) == numbers_below(self@.graph.nodes),
            grown(*graph),
    {
        self.graph.union()
    }

    /// The graph of production and peer dependencies.
    pub fn production_graph(&self) -> (graph: &petgraph::Graph<usize, u8, petgraph::Directed, u32>)
        ensures
            graph_nodes(*graph) == self@.graph.nodes,
            graph_edges(*graph) == partition_edges(self@.graph.edges, ScopePartition::Production),
            graph_weights(*graph) == numbers_below(self@.graph.nodes),
            grown(*graph),
            crate::graph::acyclic(graph_edges(*graph)),
    {
        self.partitioned_graph(ScopePartition::Production)
    }

    /// The graph of development, build and root dependencies.
    pub fn development_graph(&self) -> (graph: &petgraph::Graph<usize, u8, petgraph::Directed, u32>)
        ensures
            graph_nodes(*graph) == self@.graph.nodes,
            graph_edges(*graph) == partition_edges(self@.graph.edges, ScopePartition::Development),
            graph_weights(*graph) == numbers_below(self@.graph.nodes),
            grown(*graph),
            crate::graph::acyclic(graph_edges(*graph)),
    {
        self.partitioned_graph(ScopePartition::Development)
    }

    /// The graph of the dependencies of one part, which is free of cycles.
    pub fn partitioned_graph(&self, partition: ScopePartition) -> (graph: &petgraph::Graph<
        usize,
        u8,
        petgraph::Directed,
        u32,
    >)
        ensures
            graph_nodes(*graph) == self@.graph.nodes,
            graph_edges(*graph) == partition_edges(self@.graph.edges, partition),
            graph_weights(*graph) == numbers_below(self@.graph.nodes),
            grown(*graph),
            crate::graph::acyclic(graph_edges(*graph)),
    {
        self.graph.partition(partition)
    }

    /// The keys of the direct neighbors of a project in one part.
    fn partitioned_neighbors_of(
        &self,
        project: &Project,
        partition: ScopePartition,
        direction: Direction,
    ) -> (keys: Vec<ProjectKey>)
        requires
            graph_valid(self@),
            has_project(self@, project@),
        ensures
            views(keys@) == partition_neighbor_keys(self@, project@, partition, direction),
    {
        let index: usize = self.get_node_index(project);
        assert(self@.nodes.dom().contains(key_of_project(project@)));
        let graph = self.graph.partition(partition);
        let numbers = neighbors_of(graph, index, direction);
        proof {
            let edges = graph_edges(*graph);
            assert forall|i: int| 0 <= i < numbers@.len() implies #[trigger] numbers@[i]
                < self@.indexes.len() by {
                assert(numbers@.contains(numbers@[i]));
                neighbors_are_edges(edges, index, direction, numbers@[i]);
            }
        }
        self.keys_of(&numbers)
    }

    /// The keys of all projects that a project leads to in one part, nearest first.
    pub fn partitioned_traverse(
        &self,
        project: &Project,
        partition: ScopePartition,
        direction: Direction,
    ) -> (keys: Vec<ProjectKey>)
        requires
            graph_valid(self@),
            has_project(self@, project@),
        ensures
            views(keys@) == partition_reached_keys(self@, project@, partition, direction),
    {
        let index: usize = self.get_node_index(project);
        assert(self@.nodes.dom().contains(key_of_project(project@)));
        let graph = self.graph.partition(partition);
        let seen = nodes_from(graph, index, direction);
        let mut keys: Vec<ProjectKey> = Vec::new();
        let ghost all = seen@.skip(1);
        let mut i: usize = 1;
        assert(views(keys@) =~= keys_at(self@, all).take(0));
        while i < seen.len()
            invariant
                1 <= i <= seen@.len(),
                all == seen@.skip(1),
                forall|i: int| 0 <= i < seen@.len() ==> #[trigger] seen@[i] < self@.indexes.len(),
                views(keys@) == keys_at(self@, all).take(i - 1),
            decreases seen.len() - i,
        {
            assert(seen@[i as int] < self@.indexes.len());
            keys.push(self.indexes[seen[i]].clone());
            assert(all[i - 1] == seen@[i as int]);
            assert(views(keys@) =~= keys_at(self@, all).take(i as int));
            i = i + 1;
        }
        assert(keys_at(self@, all).take(i - 1) =~= keys_at(self@, all));
        keys
    }

    /// The projects that a project depends on directly in one part.
    pub fn partitioned_dependencies_of(&self, project: &Project, partition: ScopePartition) -> (ids:
        Vec<Id>)
        requires
            graph_valid(self@),
            has_project(self@, project@),
        ensures
            views(ids@) == ids_of(
                partition_neighbor_keys(self@, project@, partition, Direction::Outgoing),
            ),
    {
        copy_key_ids(&self.partitioned_dependency_keys_of(project, partition))
    }

    /// The keys of the projects that a project depends on directly in one part.
    pub fn partitioned_dependency_keys_of(
        &self,
        project: &Project,
        partition: ScopePartition,
    ) -> (keys: Vec<ProjectKey>)
        requires
            graph_valid(self@),
            has_project(self@, project@),
        ensures
            views(keys@) == partition_neighbor_keys(
                self@,
                project@,
                partition,
                Direction::Outgoing,
            ),
    {
        self.partitioned_neighbors_of(project, partition, Direction::Outgoing)
    }

    /// The projects that depend on a project directly in one part.
    pub fn partitioned_dependents_of(&self, project: &Project, partition: ScopePartition) -> (ids:
        Vec<Id>)
        requires
            graph_valid(self@),
            has_project(self@, project@),
        ensures
            views(ids@) == ids_of(
                partition_neighbor_keys(self@, project@, partition, Direction::Incoming),
            ),
    {
        copy_key_ids(&self.partitioned_dependent_keys_of(project, partition))
    }

    /// The keys of the projects that depend on a project directly in one part.
    pub fn partitioned_dependent_keys_of(
        &self,
        project: &Project,
        partition: ScopePartition,
    ) -> (keys: Vec<ProjectKey>)
        requires
            graph_valid(self@),
            has_project(self@, project@),
        ensures
            views(keys@) == partition_neighbor_keys(
                self@,
                project@,
                partition,
                Direction::Incoming,
            ),
    {
        self.partitioned_neighbors_of(project, partition, Direction::Incoming)
    }

    /// All projects that a project depends on in one part.
    pub fn partitioned_deep_dependencies_of(
        &self,
        project: &Project,
        partition: ScopePartition,
    ) -> (ids: Vec<Id>)
        requires
            graph_valid(self@),
            has_project(self@, project@),
        ensures
            views(ids@) == ids_of(
                partition_reached_keys(self@, project@, partition, Direction::Outgoing),
            ),
    {
        copy_key_ids(&self.partitioned_deep_dependency_keys_of(project, partition))
    }

    /// The keys of all projects that a project depends on in one part.
    pub fn partitioned_deep_dependency_keys_of(
        &self,
        project: &Project,
        partition: ScopePartition,
    ) -> (keys: Vec<ProjectKey>)
        requires
            graph_valid(self@),
            has_project(self@, project@),
        ensures
            views(keys@) == partition_reached_keys(
                self@,
                project@,
                partition,
                Direction::Outgoing,
            ),
    {
        self.partitioned_traverse(project, partition, Direction::Outgoing)
    }

    /// All projects that depend on a project in one part.
    pub fn partitioned_deep_dependents_of(
        &self,
        project: &Project,
        partition: ScopePartition,
    ) -> (ids: Vec<Id>)
        requires
            graph_valid(self@),
            has_project(self@, project@),
        ensures
            views(ids@) == ids_of(
                partition_reached_keys(self@, project@, partition, Direction::Incoming),
            ),
    {
        copy_key_ids(&self.partitioned_deep_dependent_keys_of(project, partition))
    }

    /// The keys of all projects that depend on a project in one part.
    pub fn partitioned_deep_dependent_keys_of(
        &self,
        project: &Project,
        partition: ScopePartition,
    ) -> (keys: Vec<ProjectKey>)
        requires
            graph_valid(self@),
            has_project(self@, project@),
        ensures
            views(keys@) == partition_reached_keys(
                self@,
                project@,
                partition,
                Direction::Incoming,
            ),
    {
        self.partitioned_traverse(project, partition, Direction::Incoming)
    }

    /// All projects, dependencies before the projects that depend on them, by the
    /// edges of one part.
    pub fn partitioned_toposort(&self, partition: ScopePartition) -> (ids: Vec<Id>)
        requires
            self@.graph.nodes <= self@.indexes.len(),
        ensures
            exists|keys: Seq<ProjectKeyView>|
                #[trigger] dependency_first(self@, partition, keys) && views(ids@) == ids_of(keys),
    {
        let keys = self.partitioned_toposort_keys(partition);
        assert(dependency_first(self@, partition, views(keys@)));
        copy_key_ids(&keys)
    }

    /// The keys of all projects, dependencies before the projects that depend on them,
    /// by the edges of one part.
    pub fn partitioned_toposort_keys(&self, partition: ScopePartition) -> (keys: Vec<ProjectKey>)
        requires
            self@.graph.nodes <= self@.indexes.len(),
        ensures
            dependency_first(self@, partition, views(keys@)),
    {
        let order = self.graph.partition_order(partition);
        let mut reversed: Vec<usize> = Vec::new();
        let mut i: usize = order.len();
        while i > 0
            invariant
                i <= order@.len(),
                reversed@ =~= order@.reverse().take(order@.len() - i),
            decreases i,
        {
            i = i - 1;
            reversed.push(order[i]);
        }
        proof {
            assert(reversed@ =~= order@.reverse());
            assert forall|j: int| 0 <= j < reversed@.len() implies #[trigger] reversed@[j]
                < self@.indexes.len() by {
                assert(reversed@[j] == order@[order@.len() - 1 - j]);
            }
        }
        self.keys_of(&reversed)
    }

    /// The keys of the projects that a project depends on, in any scope.
    pub fn dependencies_of(&self, project: &Project) -> (keys: Vec<ProjectKey>)
        requires
            graph_valid(self@),
            has_project(self@, project@),
        ensures
            views(keys@) == keys_at(
                self@,
                neighbors(
                    self@.graph.edges,
                    index_of_project(self@, project@),
                    Direction::Outgoing,
                ),
            ),
    {
        self.neighbor_keys(project, Direction::Outgoing)
    }

    /// The keys of the projects that depend on a project, in any scope.
    pub fn dependents_of(&self, project: &Project) -> (keys: Vec<ProjectKey>)
        requires
            graph_valid(self@),
            has_project(self@, project@),
        ensures
            views(keys@) == keys_at(
                self@,
                neighbors(
                    self@.graph.edges,
                    index_of_project(self@, project@),
                    Direction::Incoming,
                ),
            ),
    {
        self.neighbor_keys(project, Direction::Incoming)
    }

    /// The keys of the direct neighbors of a project, in any scope.
    fn neighbor_keys(&self, project: &Project, direction: Direction) -> (keys: Vec<ProjectKey>)
        requires
            graph_valid(self@),
            has_project(self@, project@),
        ensures
            views(keys@) == keys_at(
                self@,
                neighbors(self@.graph.edges, index_of_project(self@, project@), direction),
            ),
    {
        let index: usize = self.get_node_index(project);
        assert(self@.nodes.dom().contains(key_of_project(project@)));
        let graph = self.graph.union();
        let numbers = neighbors_of(graph, index, direction);
        proof {
            assert forall|i: int| 0 <= i < numbers@.len() implies #[trigger] numbers@[i]
                < self@.indexes.len() by {
                assert(numbers@.contains(numbers@[i]));
                neighbors_are_edges(self@.graph.edges, index, direction, numbers@[i]);
            }
        }
        self.keys_of(&numbers)
    }

    /// The projects that a project depends on directly, with the scopes of the
    /// dependencies.
    pub fn direct_dependencies_with_scopes(&self, key: &ProjectKey) -> (dependencies: Result<
        Vec<(ProjectKey, DependencyScope)>,
        ProjectGraphError,
    >)
        requires
            graph_valid(self@),
        ensures
            match dependencies {
                Ok(dependencies) => {
                    let known = normal_key(self@, key@);
                    &&& self@.nodes.dom().contains(known)
                    &&& scope_views(dependencies@) == scoped_dependencies(
                        self@,
                        self@.graph.edges,
                        self@.nodes[known].index,
                    )
                },
                Err(error) => unexpanded(self@, key@) == Err::<ProjectView, ProjectGraphFault>(
                    error@,
                ),
            },
    {
        let known = self.normalize_key(key);
        let index: usize = match self.nodes.get(&known) {
            Some(node) => node.index,
            None => {
                return Err(ProjectGraphError::UnconfiguredId { id: known.to_text() });
            },
        };
        let edges = edge_list(self.graph.union());
        let ghost all = self@.graph.edges;
        let mut out: Vec<(ProjectKey, DependencyScope)> = Vec::new();
        let mut i: usize = 0;
        assert(all.take(0) =~= Seq::empty());
        assert(scope_views(out@) =~= Seq::empty());
        while i < edges.len()
            invariant
                i <= edges@.len(),
                edges@ == all,
                edges_within(all, self@.indexes.len()),
                scope_views(out@) == scoped_dependencies(self@, all.take(i as int), index),
            decreases edges.len() - i,
        {
            let edge = edges[i];
            proof {
                let next = all.take(i + 1);
                assert(next.drop_last() =~= all.take(i as int));
                assert(next.last() == edge);
                assert(all[i as int].1 < self@.indexes.len());
            }
            if edge.0 == index {
                let ghost before = out@;
                let item = (self.indexes[edge.1].clone(), DependencyScope::from_label(edge.2));
                out.push(item);
                assert(scope_views(out@) =~= scope_views(before).push((item.0@, item.1)));
            }
            i = i + 1;
        }
        assert(all.take(i as int) =~= all);
        Ok(out)
    }

    /// The paths of the projects of the primary source root by identifier.
    pub fn sources(&self) -> (paths: Table<Id, String>)
        ensures
            forall|id: Seq<char>| #[trigger]
                paths@.dom().contains(id) <==> self@.nodes.dom().contains(primary_key(self@, id)),
            forall|id: Seq<char>| #[trigger]
                paths@.dom().contains(id) ==> paths@[id]@ == self@.nodes[primary_key(
                    self@,
                    id,
                )].project.source,
    {
        let mut paths: Table<Id, String> = Table::new();
        let primary = self.context.sources.primary_id();
        let n: usize = self.nodes.len();
        let ghost keys = self.nodes.keys();
        let mut i: usize = 0;
        while i < n
            invariant
                n == self.nodes.keys().len(),
                keys == self.nodes.keys(),
                keys.no_duplicates(),
                i <= n,
                primary@ == self@.context.registry.primary,
                forall|id: Seq<char>| #[trigger]
                    paths@.dom().contains(id) <==> keys.take(i as int).contains(
                        primary_key(self@, id),
                    ),
                forall|id: Seq<char>| #[trigger]
                    paths@.dom().contains(id) ==> paths@[id]@ == self@.nodes[primary_key(
                        self@,
                        id,
                    )].project.source,
            decreases n - i,
        {
            let key = self.nodes.key_at(i);
            let node = self.nodes.value_at(i);
            let ghost taken = keys.take(i as int);
            let ghost next = keys.take(i + 1);
            let ghost before = paths@;
            proof {
                assert(next =~= taken.push(key@));
                assert forall|x: ProjectKeyView| #[trigger] next.contains(x) <==> (taken.contains(x)
                    || x == key@) by {
                    lemma_seq_contains_after_push(taken, key@, x);
                }
            }
            if key.source_id().same_key(primary) {
                paths.insert(key.project_id().clone(), node.project.source.clone());
                assert(key@ == primary_key(self@, key@.project));
                assert(paths@[key@.project]@ == self@.nodes[key@].project.source);
            }
            proof {
                assert forall|id: Seq<char>| #[trigger] paths@.dom().contains(id) <==> next.contains(
                    primary_key(self@, id),
                ) by {
                    assert(before.dom().contains(id) <==> taken.contains(primary_key(self@, id)));
                }
            }
            i = i + 1;
        }
        proof {
            assert(keys.take(i as int) =~= keys);
            assert forall|id: Seq<char>| #[trigger] paths@.dom().contains(id)
                <==> self@.nodes.dom().contains(primary_key(self@, id)) by {
                assert(self.nodes@.dom().contains(primary_key(self@, id)) <==> keys.contains(
                    primary_key(self@, id),
                ));
            }
        }
        paths
    }
}

impl ProjectGraph {
    /// The path of every project by key.
    pub fn sources_by_key(&self) -> (paths: Table<ProjectKey, String>)
        ensures
            paths.keys() == self.nodes.keys(),
            forall|key: ProjectKeyView| #[trigger]
                paths@.dom().contains(key) <==> self@.nodes.dom().contains(key),
            forall|key: ProjectKeyView| #[trigger]
                paths@.dom().contains(key) ==> paths@[key]@ == self@.nodes[key].project.source,
    {
        let mut paths: Table<ProjectKey, String> = Table::new();
        let n: usize = self.nodes.len();
        let ghost keys = self.nodes.keys();
        let mut i: usize = 0;
        assert(keys.take(0) =~= Seq::empty());
        while i < n
            invariant
                n == self.nodes.keys().len(),
                keys == self.nodes.keys(),
                keys.no_duplicates(),
                i <= n,
                paths.keys() == keys.take(i as int),
                forall|key: ProjectKeyView| #[trigger]
                    paths@.dom().contains(key) <==> keys.take(i as int).contains(key),
                forall|key: ProjectKeyView| #[trigger]
                    paths@.dom().contains(key) ==> paths@[key]@ == self@.nodes[key].project.source,
            decreases n - i,
        {
            let key = self.nodes.key_at(i);
            let node = self.nodes.value_at(i);
            let ghost taken = keys.take(i as int);
            let ghost next = keys.take(i + 1);
            proof {
                assert(next =~= taken.push(key@));
                assert(!taken.contains(key@)) by {
                    if taken.contains(key@) {
                        let j = choose|j: int| 0 <= j < taken.len() && taken[j] == key@;
                        assert(keys[j] == keys[i as int]);
                    }
                }
                assert forall|x: ProjectKeyView| #[trigger] next.contains(x) <==> (taken.contains(x)
                    || x == key@) by {
                    lemma_seq_contains_after_push(taken, key@, x);
                }
            }
            paths.insert(key.clone(), node.project.source.clone());
            i = i + 1;
        }
        proof {
            assert(keys.take(i as int) =~= keys);
            assert forall|key: ProjectKeyView| #[trigger] paths@.dom().contains(key)
                <==> self@.nodes.dom().contains(key) by {
                assert(self.nodes@.dom().contains(key) <==> keys.contains(key));
            }
        }
        paths
    }

    /// The projects that are kept, numbered by their places.
    fn focused_nodes(&self, kept: &Vec<usize>) -> (nodes: Table<ProjectKey, ProjectNode>)
        requires
            graph_valid(self@),
            forall|i: int| 0 <= i < kept@.len() ==> #[trigger] kept@[i] < self@.indexes.len(),
        ensures
            value_views(nodes@) == focused_projects(self@, kept@),
    {
        let mut nodes: Table<ProjectKey, ProjectNode> = Table::new();
        let ghost all = kept@;
        let mut i: usize = 0;
        proof {
            crate::table::value_views_empty::<ProjectKeyView, ProjectNode>();
            assert(all.take(0) =~= Seq::empty());
        }
        while i < kept.len()
            invariant
                i <= kept@.len(),
                all == kept@,
                graph_valid(self@),
                forall|i: int| 0 <= i < kept@.len() ==> #[trigger] kept@[i] < self@.indexes.len(),
                value_views(nodes@) == focused_projects(self@, all.take(i as int)),
            decreases kept.len() - i,
        {
            proof {
                let next = all.take(i + 1);
                assert(next.drop_last() =~= all.take(i as int));
                assert(next.last() == all[i as int]);
                assert(kept@[i as int] < self@.indexes.len());
                assert(self@.nodes.dom().contains(self@.indexes[kept@[i as int] as int]));
            }
            let key = &self.indexes[kept[i]];
            match self.nodes.get(key) {
                Some(node) => {
                    nodes.insert(
                        key.clone(),
                        ProjectNode { index: i, project: node.project.clone() },
                    );
                },
                None => {
                    assert(false);
                },
            }
            i = i + 1;
        }
        assert(all.take(i as int) =~= all);
        nodes
    }

    /// The aliases of the projects that are kept.
    fn focused_alias_table(&self, nodes: &Table<ProjectKey, ProjectNode>) -> (aliases: Table<
        AliasKey,
        ProjectKey,
    >)
        ensures
            value_views(aliases@) == focused_aliases(self@, value_views(nodes@)),
    {
        let mut aliases: Table<AliasKey, ProjectKey> = Table::new();
        let n: usize = self.aliases.len();
        let ghost keys = self.aliases.keys();
        let ghost kept = value_views(nodes@);
        let mut i: usize = 0;
        while i < n
            invariant
                n == self.aliases.keys().len(),
                keys == self.aliases.keys(),
                kept == value_views(nodes@),
                i <= n,
                forall|alias: AliasView| #[trigger]
                    aliases@.dom().contains(alias) <==> keys.take(i as int).contains(alias)
                        && kept.dom().contains(self@.aliases[alias]),
                forall|alias: AliasView| #[trigger]
                    aliases@.dom().contains(alias) ==> aliases@[alias]@ == self@.aliases[alias],
            decreases n - i,
        {
            let alias = self.aliases.key_at(i);
            let key = self.aliases.value_at(i);
            let ghost taken = keys.take(i as int);
            let ghost next = keys.take(i + 1);
            proof {
                assert(next =~= taken.push(alias@));
                assert forall|x: AliasView| #[trigger] next.contains(x) <==> (taken.contains(x) || x
                    == alias@) by {
                    lemma_seq_contains_after_push(taken, alias@, x);
                }
                assert(self@.aliases[alias@] == key@);
            }
            if nodes.contains(key) {
                aliases.insert(alias.copy_key(), key.clone());
            }
            i = i + 1;
        }
        proof {
            assert(keys.take(i as int) =~= keys);
            let expected = focused_aliases(self@, kept);
            assert forall|alias: AliasView| value_views(aliases@).dom().contains(alias)
                <==> expected.dom().contains(alias) by {
                assert(self.aliases@.dom().contains(alias) <==> keys.contains(alias));
                assert(aliases@.dom().contains(alias) <==> keys.contains(alias)
                    && kept.dom().contains(self@.aliases[alias]));
            }
            assert(value_views(aliases@) =~= expected);
        }
        aliases
    }

    /// The part of the graph around a project of the primary source root: the project
    /// with its dependencies, and where asked for its dependents.
    pub fn focus_for(&self, id_or_alias: &str, with_dependents: bool) -> (focused: Result<
        ProjectGraph,
        ProjectGraphError,
    >)
        requires
            graph_valid(self@),
        ensures
            outcome(focused) == (match get_project(self@, id_or_alias@) {
                Err(fault) => Err::<ProjectGraphView, ProjectGraphFault>(fault),
                Ok(project) => focused_for_key(self@, key_of_project(project), with_dependents),
            }),
    {
        let project = match self.get(id_or_alias) {
            Ok(project) => project,
            Err(error) => {
                return Err(error);
            },
        };
        self.focus_for_key(&project.key(), with_dependents)
    }

    /// The part of the graph around the project with a key.
    pub fn focus_for_key(&self, key: &ProjectKey, with_dependents: bool) -> (focused: Result<
        ProjectGraph,
        ProjectGraphError,
    >)
        requires
            graph_valid(self@),
        ensures
            outcome(focused) == focused_for_key(self@, key@, with_dependents),
    {
        let known = self.normalize_key(key);
        let start: usize = match self.nodes.get(&known) {
            Some(node) => node.index,
            None => {
                return Err(ProjectGraphError::UnconfiguredId { id: known.to_text() });
            },
        };
        assert(self@.nodes.dom().contains(known@));
        let (kept, graph) = focus(self.graph.union(), start, with_dependents);
        let nodes = self.focused_nodes(&kept);
        let aliases = self.focused_alias_table(&nodes);
        let indexes = self.keys_of(&kept);
        let ghost edges = self@.graph.edges;
        proof {
            focus_edges_were(edges, kept@);
            parts_acyclic_of_places(graph_edges(graph), kept@, edges);
        }
        let scoped = match ScopedGraph::split(graph) {
            Ok(scoped) => scoped,
            Err(_) => {
                proof {
                    let all = focus_edges(edges, kept@);
                    let i = choose|i: int| #[trigger] first_cycle(all, i);
                    closing_makes_cycle(all, i);
                    assert(false);
                }
                ScopedGraph::empty()
            },
        };
        Ok(
            ProjectGraph {
                context: self.context.clone(),
                contexts: self.contexts.copy(),
                aliases,
                default_key: match &self.default_key {
                    Some(key) => Some(key.clone()),
                    None => None,
                },
                graph: scoped,
                indexes,
                nodes,
            },
        )
    }

    /// The graph with a text on every node and every edge.
    pub fn to_labeled_graph(&self) -> (labeled: LabeledGraph)
        requires
            graph_valid(self@),
        ensures
            labeled.nodes@.len() == self@.indexes.len(),
            forall|i: int|
                0 <= i < labeled.nodes@.len() ==> (#[trigger] labeled.nodes@[i])@ == project_label(
                    self@.nodes,
                    self.nodes.keys(),
                    self@.nodes[self@.indexes[i]].project,
                ),
            labeled.edges@.len() == self@.graph.edges.len(),
            forall|i: int|
                0 <= i < labeled.edges@.len() ==> is_labeled(
                    #[trigger] labeled.edges@[i],
                    self@.graph.edges[i],
                ),
    {
        let mut nodes: Vec<String> = Vec::new();
        let mut i: usize = 0;
        while i < self.indexes.len()
            invariant
                i <= self.indexes@.len(),
                nodes@.len() == i,
                graph_valid(self@),
                forall|j: int|
                    0 <= j < i ==> (#[trigger] nodes@[j])@ == project_label(
                        self@.nodes,
                        self.nodes.keys(),
                        self@.nodes[self@.indexes[j]].project,
                    ),
            decreases self.indexes.len() - i,
        {
            assert(self@.nodes.dom().contains(self@.indexes[i as int]));
            match self.nodes.get(&self.indexes[i]) {
                Some(node) => {
                    if count_id(&self.nodes, &node.project.id) > 1 {
                        nodes.push(node.project.key().to_text());
                    } else {
                        nodes.push(node.project.id.as_str().to_owned());
                    }
                },
                None => {
                    assert(false);
                },
            }
            i = i + 1;
        }
        let all = edge_list(self.graph.union());
        let mut edges: Vec<(usize, usize, &'static str)> = Vec::new();
        let mut j: usize = 0;
        while j < all.len()
            invariant
                j <= all@.len(),
                all@ == self@.graph.edges,
                edges@.len() == j,
                forall|k: int|
                    0 <= k < j ==> is_labeled(#[trigger] edges@[k], self@.graph.edges[k]),
            decreases all.len() - j,
        {
            let edge = all[j];
            edges.push((edge.0, edge.1, DependencyScope::from_label(edge.2).name()));
            j = j + 1;
        }
        LabeledGraph { nodes, edges }
    }
}

/// An edge with the name of its scope.
pub open spec fn is_labeled(
    labeled: (usize, usize, &'static str),
    edge: (usize, usize, u8),
) -> bool {
    labeled.0 == edge.0 && labeled.1 == edge.1 && labeled.2@ == scope_of_label(edge.2).name_spec()
}

/// The part of the graph around the project with a key.
pub open spec fn focused_for_key(
    graph: ProjectGraphView,
    key: ProjectKeyView,
    with_dependents: bool,
) -> Result<ProjectGraphView, ProjectGraphFault> {
    match unexpanded(graph, key) {
        Err(fault) => Err(fault),
        Ok(_) => Ok(
            focused_graph(graph, graph.nodes[normal_key(graph, key)].index, with_dependents),
        ),
    }
}

/// The key of a project of the primary source root.
pub open spec fn primary_key(graph: ProjectGraphView, id: Seq<char>) -> ProjectKeyView {
    ProjectKeyView { source: graph.context.registry.primary, project: id }
}

/// The views of dependencies and their scopes.
pub open spec fn scope_views(items: Seq<(ProjectKey, DependencyScope)>) -> Seq<
    (ProjectKeyView, DependencyScope),
> {
    items.map_values(|item: (ProjectKey, DependencyScope)| (item.0@, item.1))
}

} // verus!
