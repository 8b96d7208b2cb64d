//! Composition of the project graphs of several source roots into one.

use crate::config::{
    constraint_violation, ConstraintViolation, DependencyScope, DependencyView, Project,
    ProjectDependencyConfig, ProjectView, RefusalView,
};
use crate::graph::{
    add_edge, add_node, edge_list, edges_within, graph_edges, graph_nodes, new_graph,
};
use crate::id::valid_id;
use crate::keys::{
    project_key_less, project_key_less_total, project_key_less_transitive, project_key_text,
    ProjectKey, ProjectKeyView,
};
use crate::order::{
    arranged, outcome, ranked, ranked_arranges, ranked_is_permutation, ranked_same_items,
    sort_ranked, total_rank, view_of, views, Ranked,
};
use crate::project_graph::{
    index_label, AliasKey, AliasView, ContextView, GraphExpanderContext, ProjectGraph,
    ProjectGraphError, ProjectGraphFault, ProjectGraphView, ProjectNode, ProjectNodeView,
};
use crate::scopes::{
    closes_cycle, closing_makes_cycle, first_cycle, parts_acyclic, ScopedGraph, ScopedView,
};
use crate::source::{canonical, RegistryView, SourceAlias, SourceRegistry, SourceRootId};
use crate::table::{value_views, Duplicate, Key, Table};
use crate::text::{
    text_before, text_less, text_less_irreflexive, text_less_total, text_less_transitive,
};
use vstd::prelude::*;
use vstd::seq_lib::lemma_seq_contains_after_push;

verus! {

broadcast use {crate::order::group_views, crate::table::value_views_insert};

impl<'a> Ranked for &'a ProjectGraph {
    open spec fn before(a: ProjectGraphView, b: ProjectGraphView) -> bool {
        text_less(a.context.registry.primary, b.context.registry.primary)
    }

    proof fn before_irreflexive(a: ProjectGraphView) {
        text_less_irreflexive(a.context.registry.primary);
    }

    proof fn before_transitive(a: ProjectGraphView, b: ProjectGraphView, c: ProjectGraphView) {
        text_less_transitive(
            a.context.registry.primary,
            b.context.registry.primary,
            c.context.registry.primary,
        );
    }

    proof fn before_total(a: ProjectGraphView, b: ProjectGraphView, c: ProjectGraphView) {
        let x = a.context.registry.primary;
        let y = b.context.registry.primary;
        let z = c.context.registry.primary;
        text_less_total(x, z);
        if text_less(z, x) {
            text_less_transitive(z, x, y);
        }
    }

    fn is_before(&self, other: &Self) -> bool {
        text_before(
            self.context.sources.primary_id().as_str(),
            other.context.sources.primary_id().as_str(),
        )
    }
}

/// A dependency between two projects of one source root.
pub struct KeyEdgeView {
    pub source: ProjectKeyView,
    pub target: ProjectKeyView,
    pub label: u8,
}

/// A dependency between two projects of one source root.
pub struct KeyEdge {
    pub source: ProjectKey,
    pub target: ProjectKey,
    pub label: u8,
}

impl View for KeyEdge {
    type V = KeyEdgeView;

    open spec fn view(&self) -> KeyEdgeView {
        KeyEdgeView { source: self.source@, target: self.target@, label: self.label }
    }
}

/// Edges are ordered by their ends, then by their labels.
pub open spec fn key_edge_less(a: KeyEdgeView, b: KeyEdgeView) -> bool {
    ||| project_key_less(a.source, b.source)
    ||| a.source == b.source && project_key_less(a.target, b.target)
    ||| a.source == b.source && a.target == b.target && a.label < b.label
}

/// The order on edges is transitive.
proof fn key_edge_less_transitive(a: KeyEdgeView, b: KeyEdgeView, c: KeyEdgeView)
    requires
        key_edge_less(a, b),
        key_edge_less(b, c),
    ensures
        key_edge_less(a, c),
{
    if project_key_less(a.source, b.source) && project_key_less(b.source, c.source) {
        project_key_less_transitive(a.source, b.source, c.source);
    } else if a.source == b.source && b.source == c.source {
        if project_key_less(a.target, b.target) && project_key_less(b.target, c.target) {
            project_key_less_transitive(a.target, b.target, c.target);
        }
    }
}

/// Two edges are equal or one precedes the other.
proof fn key_edge_less_total(a: KeyEdgeView, b: KeyEdgeView)
    ensures
        key_edge_less(a, b) || a == b || key_edge_less(b, a),
{
    project_key_less_total(a.source, b.source);
    project_key_less_total(a.target, b.target);
}

impl Ranked for KeyEdge {
    open spec fn before(a: KeyEdgeView, b: KeyEdgeView) -> bool {
        key_edge_less(a, b)
    }

    proof fn before_irreflexive(a: KeyEdgeView) {
        <ProjectKey as Ranked>::before_irreflexive(a.source);
        <ProjectKey as Ranked>::before_irreflexive(a.target);
    }

    proof fn before_transitive(a: KeyEdgeView, b: KeyEdgeView, c: KeyEdgeView) {
        key_edge_less_transitive(a, b, c);
    }

    proof fn before_total(a: KeyEdgeView, b: KeyEdgeView, c: KeyEdgeView) {
        key_edge_less_total(a, c);
        if key_edge_less(c, a) {
            key_edge_less_transitive(c, a, b);
        }
    }

    fn is_before(&self, other: &Self) -> bool {
        if self.source.is_before(&other.source) {
            return true;
        }
        if !self.source.same_key(&other.source) {
            return false;
        }
        self.target.is_before(&other.target) || (self.target.same_key(&other.target) && self.label
            < other.label)
    }
}

/// A dependency on another source root that is not resolved yet.
pub struct CrossView {
    pub owner: ProjectKeyView,
    pub dependency: DependencyView,
}

/// A dependency on another source root that is not resolved yet.
pub struct CrossDependency {
    pub owner: ProjectKey,
    pub dependency: ProjectDependencyConfig,
}

impl View for CrossDependency {
    type V = CrossView;

    open spec fn view(&self) -> CrossView {
        CrossView { owner: self.owner@, dependency: self.dependency@ }
    }
}

/// A dependency on another source root, with the project that it leads to.
pub struct ResolvedView {
    pub owner: ProjectKeyView,
    pub target: ProjectKeyView,
    pub dependency: DependencyView,
}

/// A dependency on another source root, with the project that it leads to.
pub struct ResolvedDependency {
    pub owner: ProjectKey,
    pub target: ProjectKey,
    pub dependency: ProjectDependencyConfig,
}

impl View for ResolvedDependency {
    type V = ResolvedView;

    open spec fn view(&self) -> ResolvedView {
        ResolvedView { owner: self.owner@, target: self.target@, dependency: self.dependency@ }
    }
}

impl Ranked for ResolvedDependency {
    open spec fn before(a: ResolvedView, b: ResolvedView) -> bool {
        project_key_less(a.owner, b.owner)
    }

    proof fn before_irreflexive(a: ResolvedView) {
        <ProjectKey as Ranked>::before_irreflexive(a.owner);
    }

    proof fn before_transitive(a: ResolvedView, b: ResolvedView, c: ResolvedView) {
        project_key_less_transitive(a.owner, b.owner, c.owner);
    }

    proof fn before_total(a: ResolvedView, b: ResolvedView, c: ResolvedView) {
        project_key_less_total(a.owner, c.owner);
        if project_key_less(c.owner, a.owner) {
            project_key_less_transitive(c.owner, a.owner, b.owner);
        }
    }

    fn is_before(&self, other: &Self) -> bool {
        self.owner.is_before(&other.owner)
    }
}

/// What the graphs of the source roots hold together.
pub struct AssemblyView {
    pub indexes: Seq<ProjectKeyView>,
    pub nodes: Map<ProjectKeyView, ProjectNodeView>,
    pub aliases: Map<AliasView, ProjectKeyView>,
    pub contexts: Map<Seq<char>, ContextView>,
    pub cross: Seq<CrossView>,
    pub edges: Seq<KeyEdgeView>,
}

/// What the graphs of the source roots hold together.
pub struct Assembly {
    pub indexes: Vec<ProjectKey>,
    pub nodes: Table<ProjectKey, ProjectNode>,
    pub aliases: Table<AliasKey, ProjectKey>,
    pub contexts: Table<SourceRootId, GraphExpanderContext>,
    pub cross: Vec<CrossDependency>,
    pub edges: Vec<KeyEdge>,
}

impl View for Assembly {
    type V = AssemblyView;

    open spec fn view(&self) -> AssemblyView {
        AssemblyView {
            indexes: views(self.indexes@),
            nodes: value_views(self.nodes@),
            aliases: value_views(self.aliases@),
            contexts: value_views(self.contexts@),
            cross: views(self.cross@),
            edges: views(self.edges@),
        }
    }
}

/// The project without its dependencies on other source roots.
pub open spec fn without_cross(project: ProjectView) -> ProjectView {
    ProjectView { cross_source_dependencies: Seq::empty(), ..project }
}

/// The dependencies of a project on other source roots.
pub open spec fn owned_cross(owner: ProjectKeyView, project: ProjectView) -> Seq<CrossView> {
    project.cross_source_dependencies.map_values(
        |dependency: DependencyView| CrossView { owner, dependency },
    )
}

/// One more project behind the others.
pub open spec fn add_project(
    assembly: AssemblyView,
    key: ProjectKeyView,
    project: ProjectView,
) -> AssemblyView {
    AssemblyView {
        indexes: assembly.indexes.push(key),
        nodes: assembly.nodes.insert(
            key,
            ProjectNodeView {
                index: assembly.indexes.len() as usize,
                project: without_cross(project),
            },
        ),
        cross: assembly.cross + owned_cross(key, project),
        ..assembly
    }
}

/// More projects behind the others, in the order of their keys.
pub open spec fn add_projects(
    assembly: AssemblyView,
    keys: Seq<ProjectKeyView>,
    nodes: Map<ProjectKeyView, ProjectNodeView>,
) -> AssemblyView
    decreases keys.len(),
{
    if keys.len() == 0 {
        assembly
    } else {
        add_project(
            add_projects(assembly, keys.drop_last(), nodes),
            keys.last(),
            nodes[keys.last()].project,
        )
    }
}

/// An alias of a graph's own source root for one of its own projects.
pub open spec fn is_own_alias(local: ProjectGraphView, alias: AliasView) -> bool {
    let source = local.context.registry.primary;
    local.aliases.dom().contains(alias) && alias.source == source && local.aliases[alias].source
        == source
}

/// The aliases of a graph's own source root for its own projects.
pub open spec fn own_aliases(local: ProjectGraphView) -> Map<AliasView, ProjectKeyView> {
    Map::new(
        |alias: AliasView| is_own_alias(local, alias),
        |alias: AliasView| local.aliases[alias],
    )
}

/// An edge between numbers as an edge between keys.
pub open spec fn key_edge(indexes: Seq<ProjectKeyView>, edge: (usize, usize, u8)) -> KeyEdgeView {
    KeyEdgeView {
        source: indexes[edge.0 as int],
        target: indexes[edge.1 as int],
        label: edge.2,
    }
}

/// More edges behind the others. An edge that leads to another source root is refused.
pub open spec fn add_edges(
    before: Seq<KeyEdgeView>,
    indexes: Seq<ProjectKeyView>,
    edges: Seq<(usize, usize, u8)>,
) -> Result<Seq<KeyEdgeView>, ProjectGraphFault>
    decreases edges.len(),
{
    if edges.len() == 0 {
        Ok(before)
    } else {
        match add_edges(before, indexes, edges.drop_last()) {
            Err(fault) => Err(fault),
            Ok(all) => {
                let edge = key_edge(indexes, edges.last());
                if edge.source.source != edge.target.source {
                    Err(
                        ProjectGraphFault::UnsupportedCrossSourceEdge {
                            source_key: project_key_text(edge.source),
                            target_key: project_key_text(edge.target),
                        },
                    )
                } else {
                    Ok(all.push(edge))
                }
            },
        }
    }
}

/// All keys in order.
pub open spec fn keys_in_order(nodes: Map<ProjectKeyView, ProjectNodeView>) -> Seq<ProjectKeyView> {
    arranged::<ProjectKey>(nodes.dom())
}

/// The projects, aliases and edges of one source root behind the others.
pub open spec fn add_local(
    assembly: AssemblyView,
    local: ProjectGraphView,
) -> Result<AssemblyView, ProjectGraphFault> {
    let more = add_projects(assembly, keys_in_order(local.nodes), local.nodes);
    match add_edges(assembly.edges, local.indexes, local.graph.edges) {
        Err(fault) => Err(fault),
        Ok(edges) => Ok(
            AssemblyView {
                aliases: assembly.aliases.union_prefer_right(own_aliases(local)),
                contexts: assembly.contexts.insert(local.context.registry.primary, local.context),
                edges,
                ..more
            },
        ),
    }
}

/// Nothing.
pub open spec fn empty_assembly() -> AssemblyView {
    AssemblyView {
        indexes: Seq::empty(),
        nodes: Map::empty(),
        aliases: Map::empty(),
        contexts: Map::empty(),
        cross: Seq::empty(),
        edges: Seq::empty(),
    }
}

/// What the graphs of all source roots hold together.
pub open spec fn assemble(graphs: Seq<ProjectGraphView>) -> Result<AssemblyView, ProjectGraphFault>
    decreases graphs.len(),
{
    if graphs.len() == 0 {
        Ok(empty_assembly())
    } else {
        match assemble(graphs.drop_last()) {
            Err(fault) => Err(fault),
            Ok(assembly) => add_local(assembly, graphs.last()),
        }
    }
}

/// What a graph of one source root must hold to be composed: every number has a
/// project, and dependencies on other source roots name them.
pub open spec fn local_valid(local: ProjectGraphView) -> bool {
    &&& local.nodes.dom().finite()
    &&& local.graph.nodes <= local.indexes.len()
    &&& forall|i: int|
        0 <= i < local.indexes.len() ==> local.nodes.dom().contains(#[trigger] local.indexes[i])
    &&& forall|key: ProjectKeyView| #[trigger]
        local.nodes.dom().contains(key) ==> cross_valid(local, key)
}

/// What the dependencies of a project on other source roots must hold.
pub open spec fn cross_valid(local: ProjectGraphView, key: ProjectKeyView) -> bool {
    let cross = local.nodes[key].project.cross_source_dependencies;
    forall|i: int| 0 <= i < cross.len() ==> (#[trigger] cross[i]).source_root is Some
}

/// What holds of everything that was put together.
pub open spec fn assembly_valid(assembly: AssemblyView) -> bool {
    &&& forall|key: ProjectKeyView| #[trigger]
        assembly.nodes.dom().contains(key) ==> assembly.nodes[key].index < assembly.indexes.len()
    &&& forall|i: int|
        0 <= i < assembly.cross.len() ==> cross_known(assembly, #[trigger] assembly.cross[i])
    &&& forall|i: int|
        0 <= i < assembly.edges.len() ==> edge_known(assembly, #[trigger] assembly.edges[i])
}

/// The owner of a dependency is known, and the dependency names a source root.
pub open spec fn cross_known(assembly: AssemblyView, cross: CrossView) -> bool {
    &&& assembly.nodes.dom().contains(cross.owner)
    &&& cross.dependency.source_root is Some
}

/// Both ends of an edge are known.
pub open spec fn edge_known(assembly: AssemblyView, edge: KeyEdgeView) -> bool {
    assembly.nodes.dom().contains(edge.source) && assembly.nodes.dom().contains(edge.target)
}

/// Any two keys are ordered.
pub proof fn project_keys_rank()
    ensures
        total_rank::<ProjectKey>(),
{
    assert forall|a: ProjectKeyView, b: ProjectKeyView| a
        != b implies #[trigger] ProjectKey::before(a, b) || ProjectKey::before(b, a) by {
        project_key_less_total(a, b);
    }
}

/// The keys of a table in order.
pub fn ordered_keys<V>(nodes: &Table<ProjectKey, V>) -> (keys: Vec<ProjectKey>)
    ensures
        views(keys@) == arranged::<ProjectKey>(nodes@.dom()),
        views(keys@).no_duplicates(),
        forall|key: ProjectKeyView|
            nodes@.dom().contains(key) <==> #[trigger] views(keys@).contains(key),
{
    let n: usize = nodes.len();
    let mut keys: Vec<ProjectKey> = Vec::new();
    let mut i: usize = 0;
    while i < n
        invariant
            n == nodes.keys().len(),
            i <= n,
            views(keys@) == nodes.keys().take(i as int),
        decreases n - i,
    {
        keys.push(nodes.key_at(i).clone());
        assert(views(keys@) =~= nodes.keys().take(i + 1));
        i = i + 1;
    }
    let keys = sort_ranked(keys);
    proof {
        assert(nodes.keys().take(i as int) =~= nodes.keys());
        project_keys_rank();
        ranked_arranges::<ProjectKey>(nodes.keys());
        assert(nodes.keys().to_set() =~= nodes@.dom()) by {
            assert forall|key: ProjectKeyView| nodes.keys().to_set().contains(key)
                <==> nodes@.dom().contains(key) by {
                assert(nodes@.dom().contains(key) <==> nodes.keys().contains(key));
            }
        }
        assert forall|key: ProjectKeyView| nodes@.dom().contains(key) <==> #[trigger] views(
            keys@,
        ).contains(key) by {
            ranked_same_items::<ProjectKey>(nodes.keys(), key);
            assert(nodes@.dom().contains(key) <==> nodes.keys().contains(key));
        }
    }
    keys
}

impl Assembly {
    /// Nothing.
    fn new() -> (assembly: Self)
        ensures
            assembly@ == empty_assembly(),
            assembly_valid(assembly@),
    {
        proof {
            crate::table::value_views_empty::<ProjectKeyView, ProjectNode>();
            crate::table::value_views_empty::<AliasView, ProjectKey>();
            crate::table::value_views_empty::<Seq<char>, GraphExpanderContext>();
        }
        let assembly = Assembly {
            indexes: Vec::new(),
            nodes: Table::new(),
            aliases: Table::new(),
            contexts: Table::new(),
            cross: Vec::new(),
            edges: Vec::new(),
        };
        assert(assembly@.indexes =~= Seq::empty());
        assert(assembly@.cross =~= Seq::empty());
        assert(assembly@.edges =~= Seq::empty());
        assembly
    }

    /// Adds a project behind the others.
    fn push_project(&mut self, key: ProjectKey, project: &Project)
        ensures
            final(self)@ == add_project(old(self)@, key@, project@),
    {
        let ghost before = self@;
        let mut copy = project.clone();
        let mut cross: Vec<ProjectDependencyConfig> = Vec::new();
        std::mem::swap(&mut cross, &mut copy.cross_source_dependencies);
        assert(copy@.cross_source_dependencies =~= Seq::empty());
        let index: usize = self.indexes.len();
        self.indexes.push(key.clone());
        self.nodes.insert(key.clone(), ProjectNode { index, project: copy });
        let ghost all = views(cross@);
        let mut i: usize = 0;
        let ghost owned = owned_cross(key@, project@);
        assert(self@.cross =~= before.cross + owned.take(0));
        while i < cross.len()
            invariant
                i <= cross@.len(),
                all == views(cross@),
                all == project@.cross_source_dependencies,
                owned == owned_cross(key@, project@),
                self@.cross == before.cross + owned.take(i as int),
                self@.indexes == before.indexes.push(key@),
                self@.nodes == before.nodes.insert(
                    key@,
                    ProjectNodeView { index, project: without_cross(project@) },
                ),
                index == before.indexes.len(),
                self@.aliases == before.aliases,
                self@.contexts == before.contexts,
                self@.edges == before.edges,
            decreases cross.len() - i,
        {
            self.cross.push(
                CrossDependency { owner: key.clone(), dependency: cross[i].clone() },
            );
            assert(owned[i as int] == CrossView { owner: key@, dependency: all[i as int] });
            assert(self@.cross =~= before.cross + owned.take(i + 1));
            i = i + 1;
        }
        assert(owned.take(i as int) =~= owned);
    }

    /// Adds the projects of a source root behind the others.
    fn push_projects(&mut self, nodes: &Table<ProjectKey, ProjectNode>)
        ensures
            final(self)@ == add_projects(
                old(self)@,
                keys_in_order(value_views(nodes@)),
                value_views(nodes@),
            ),
    {
        let keys = ordered_keys(nodes);
        let ghost before = self@;
        let ghost all = value_views(nodes@);
        let ghost order = views(keys@);
        assert(nodes@.dom() =~= all.dom());
        let mut i: usize = 0;
        assert(order.take(0) =~= Seq::empty());
        while i < keys.len()
            invariant
                i <= keys@.len(),
                order == views(keys@),
                all == value_views(nodes@),
                forall|key: ProjectKeyView|
                    nodes@.dom().contains(key) <==> #[trigger] order.contains(key),
                self@ == add_projects(before, order.take(i as int), all),
            decreases keys.len() - i,
        {
            let key = &keys[i];
            proof {
                let next = order.take(i + 1);
                assert(next.drop_last() =~= order.take(i as int));
                assert(next.last() == key@);
                assert(order[i as int] == key@);
                assert(order.contains(key@));
            }
            match nodes.get(key) {
                Some(node) => {
                    self.push_project(key.clone(), &node.project);
                },
                None => {
                    assert(false);
                },
            }
            i = i + 1;
        }
        assert(order.take(i as int) =~= order);
    }

    /// Adds the aliases of a source root.
    fn push_aliases(&mut self, local: &ProjectGraph)
        ensures
            final(self)@ == (AssemblyView {
                aliases: old(self)@.aliases.union_prefer_right(own_aliases(local@)),
                ..old(self)@
            }),
    {
        let ghost before = self@;
        let source = local.context.sources.primary_id();
        let n: usize = local.aliases.len();
        let mut i: usize = 0;
        while i < n
            invariant
                n == local.aliases.keys().len(),
                i <= n,
                source@ == local@.context.registry.primary,
                self@.indexes == before.indexes,
                self@.nodes == before.nodes,
                self@.contexts == before.contexts,
                self@.cross == before.cross,
                self@.edges == before.edges,
                forall|alias: AliasView| #[trigger]
                    self@.aliases.dom().contains(alias) <==> (before.aliases.dom().contains(alias)
                        || (is_own_alias(local@, alias) && local.aliases.keys().take(
                        i as int,
                    ).contains(alias))),
                forall|alias: AliasView|
                    self@.aliases.dom().contains(alias) ==> #[trigger] self@.aliases[alias] == (if is_own_alias(
                        local@,
                        alias,
                    ) && local.aliases.keys().take(i as int).contains(alias) {
                        local@.aliases[alias]
                    } else {
                        before.aliases[alias]
                    }),
            decreases n - i,
        {
            let alias = local.aliases.key_at(i);
            let key = local.aliases.value_at(i);
            let ghost taken = local.aliases.keys().take(i as int);
            let ghost next = local.aliases.keys().take(i + 1);
            proof {
                assert(next =~= taken.push(alias@));
                assert forall|x: AliasView| #[trigger] next.contains(x) <==> (taken.contains(x) || x
                    == alias@) by {
                    if taken.contains(x) {
                        let j = choose|j: int| 0 <= j < taken.len() && taken[j] == x;
                        assert(next[j] == x);
                    }
                    if x == alias@ {
                        assert(next[i as int] == x);
                    }
                    if next.contains(x) && x != alias@ {
                        let j = choose|j: int| 0 <= j < next.len() && next[j] == x;
                        assert(taken[j] == x);
                    }
                }
                assert(local@.aliases[alias@] == key@);
            }
            let ghost known = self@.aliases;
            if alias.source.same_key(source) && key.source_id().same_key(source) {
                assert(is_own_alias(local@, alias@));
                self.aliases.insert(alias.copy_key(), key.clone());
                assert(self@.aliases == known.insert(alias@, key@));
            } else {
                assert(!is_own_alias(local@, alias@));
            }
            proof {
                assert forall|x: AliasView| #[trigger] self@.aliases.dom().contains(x) <==> (
                before.aliases.dom().contains(x) || (is_own_alias(local@, x) && next.contains(x))) by {
                    assert(known.dom().contains(x) <==> (before.aliases.dom().contains(x) || (
                    is_own_alias(local@, x) && taken.contains(x))));
                    assert(next.contains(x) <==> (taken.contains(x) || x == alias@));
                }
                assert forall|x: AliasView| self@.aliases.dom().contains(x) implies #[trigger] self@.aliases[x]
                    == (if is_own_alias(local@, x) && next.contains(x) {
                    local@.aliases[x]
                } else {
                    before.aliases[x]
                }) by {
                    assert(next.contains(x) <==> (taken.contains(x) || x == alias@));
                    if !(x == alias@ && is_own_alias(local@, alias@)) {
                        assert(known.dom().contains(x));
                        assert(known[x] == self@.aliases[x]);
                    }
                }
            }
            i = i + 1;
        }
        proof {
            assert(local.aliases.keys().take(i as int) =~= local.aliases.keys());
            assert forall|alias: AliasView| is_own_alias(local@, alias) implies local.aliases.keys().contains(
                alias,
            ) by {
                assert(local.aliases@.dom().contains(alias));
            }
            assert(self@.aliases =~= before.aliases.union_prefer_right(own_aliases(local@)));
        }
    }

    /// Adds the edges of a source root behind the others.
    fn push_edges(&mut self, local: &ProjectGraph) -> (done: Result<(), ProjectGraphError>)
        requires
            local@.graph.nodes <= local@.indexes.len(),
        ensures
            match done {
                Ok(()) => {
                    &&& add_edges(old(self)@.edges, local@.indexes, local@.graph.edges) == Ok::<
                        Seq<KeyEdgeView>,
                        ProjectGraphFault,
                    >(final(self)@.edges)
                    &&& final(self)@ == (AssemblyView { edges: final(self)@.edges, ..old(self)@ })
                },
                Err(error) => add_edges(old(self)@.edges, local@.indexes, local@.graph.edges)
                    == Err::<Seq<KeyEdgeView>, ProjectGraphFault>(error@),
            },
    {
        let ghost before = self@;
        let edges = edge_list(local.graph.union());
        let ghost all = local@.graph.edges;
        let ghost indexes = local@.indexes;
        let mut i: usize = 0;
        assert(all.take(0) =~= Seq::empty());
        while i < edges.len()
            invariant
                i <= edges@.len(),
                edges@ == all,
                all == local@.graph.edges,
                indexes == local@.indexes,
                edges_within(all, local@.graph.nodes),
                local@.graph.nodes <= indexes.len(),
                before == old(self)@,
                self@ == (AssemblyView { edges: self@.edges, ..before }),
                add_edges(before.edges, indexes, all.take(i as int)) == Ok::<
                    Seq<KeyEdgeView>,
                    ProjectGraphFault,
                >(self@.edges),
            decreases edges.len() - i,
        {
            let edge = edges[i];
            proof {
                let next = all.take(i + 1);
                assert(next.drop_last() =~= all.take(i as int));
                assert(next.last() == edge);
                assert(all[i as int].0 < local@.graph.nodes);
            }
            let source = local.indexes[edge.0].clone();
            let target = local.indexes[edge.1].clone();
            if !source.source_id().same_key(target.source_id()) {
                proof {
                    let fault = ProjectGraphFault::UnsupportedCrossSourceEdge {
                        source_key: project_key_text(source@),
                        target_key: project_key_text(target@),
                    };
                    assert(add_edges(before.edges, indexes, all.take(i + 1)) == Err::<
                        Seq<KeyEdgeView>,
                        ProjectGraphFault,
                    >(fault));
                    add_edges_fails(before.edges, indexes, all, i + 1, fault);
                }
                return Err(
                    ProjectGraphError::UnsupportedCrossSourceEdge {
                        source_key: source.to_text(),
                        target_key: target.to_text(),
                    },
                );
            }
            self.edges.push(KeyEdge { source, target, label: edge.2 });
            i = i + 1;
        }
        assert(all.take(i as int) =~= all);
        Ok(())
    }
}

/// An edge that is refused is refused whatever edges come behind it.
proof fn add_edges_fails(
    before: Seq<KeyEdgeView>,
    indexes: Seq<ProjectKeyView>,
    edges: Seq<(usize, usize, u8)>,
    n: int,
    fault: ProjectGraphFault,
)
    requires
        0 <= n <= edges.len(),
        add_edges(before, indexes, edges.take(n)) == Err::<Seq<KeyEdgeView>, ProjectGraphFault>(
            fault,
        ),
    ensures
        add_edges(before, indexes, edges) == Err::<Seq<KeyEdgeView>, ProjectGraphFault>(fault),
    decreases edges.len(),
{
    if n == edges.len() {
        assert(edges.take(n) =~= edges);
    } else {
        assert(edges.drop_last().take(n) =~= edges.take(n));
        add_edges_fails(before, indexes, edges.drop_last(), n, fault);
    }
}

/// Adding projects keeps what is known, and adds only what those projects hold.
pub proof fn add_projects_grows(
    assembly: AssemblyView,
    keys: Seq<ProjectKeyView>,
    nodes: Map<ProjectKeyView, ProjectNodeView>,
)
    ensures
        ({
            let more = add_projects(assembly, keys, nodes);
            &&& assembly.indexes.len() + keys.len() == more.indexes.len()
            &&& forall|key: ProjectKeyView| #[trigger]
                more.nodes.dom().contains(key) <==> (assembly.nodes.dom().contains(key)
                    || keys.contains(key))
            &&& more.aliases == assembly.aliases
            &&& more.contexts == assembly.contexts
            &&& more.edges == assembly.edges
            &&& forall|i: int|
                0 <= i < more.cross.len() ==> assembly.cross.contains(#[trigger] more.cross[i])
                    || cross_from(more.cross[i], keys, nodes)
        }),
    decreases keys.len(),
{
    let more = add_projects(assembly, keys, nodes);
    if keys.len() > 0 {
        let rest = keys.drop_last();
        let key = keys.last();
        add_projects_grows(assembly, rest, nodes);
        let before = add_projects(assembly, rest, nodes);
        assert forall|x: ProjectKeyView| #[trigger] more.nodes.dom().contains(x) <==> (
        assembly.nodes.dom().contains(x) || keys.contains(x)) by {
            assert(before.nodes.dom().contains(x) <==> (assembly.nodes.dom().contains(x)
                || rest.contains(x)));
            if rest.contains(x) {
                let j = choose|j: int| 0 <= j < rest.len() && rest[j] == x;
                assert(keys[j] == x);
            }
            if x == key {
                assert(keys[keys.len() - 1] == x);
            }
            if keys.contains(x) && x != key {
                let j = choose|j: int| 0 <= j < keys.len() && keys[j] == x;
                assert(rest[j] == x);
            }
        }
        assert forall|i: int| 0 <= i < more.cross.len() implies assembly.cross.contains(
            #[trigger] more.cross[i],
        ) || cross_from(more.cross[i], keys, nodes) by {
            if i < before.cross.len() {
                assert(more.cross[i] == before.cross[i]);
                if !assembly.cross.contains(before.cross[i]) {
                    assert(cross_from(before.cross[i], rest, nodes));
                    let j = choose|j: int|
                        0 <= j < rest.len() && rest[j] == before.cross[i].owner;
                    assert(keys[j] == before.cross[i].owner);
                    assert(keys.contains(before.cross[i].owner));
                }
            } else {
                let owned = owned_cross(key, nodes[key].project);
                assert(more.cross[i] == owned[i - before.cross.len()]);
                assert(keys[keys.len() - 1] == key);
                assert(keys.contains(key));
                let d = nodes[key].project.cross_source_dependencies;
                assert(more.cross[i].dependency == d[i - before.cross.len()]);
                assert(d.contains(more.cross[i].dependency));
            }
        }
    } else {
        assert forall|i: int| 0 <= i < more.cross.len() implies assembly.cross.contains(
            #[trigger] more.cross[i],
        ) || cross_from(more.cross[i], keys, nodes) by {
            assert(assembly.cross[i] == more.cross[i]);
        }
    }
}

/// A dependency that one of the projects declares.
pub open spec fn cross_from(
    cross: CrossView,
    keys: Seq<ProjectKeyView>,
    nodes: Map<ProjectKeyView, ProjectNodeView>,
) -> bool {
    keys.contains(cross.owner) && nodes[cross.owner].project.cross_source_dependencies.contains(
        cross.dependency,
    )
}

/// Every project that was added has a number.
proof fn add_projects_numbers(
    assembly: AssemblyView,
    keys: Seq<ProjectKeyView>,
    nodes: Map<ProjectKeyView, ProjectNodeView>,
)
    requires
        forall|key: ProjectKeyView| #[trigger]
            assembly.nodes.dom().contains(key) ==> assembly.nodes[key].index
                < assembly.indexes.len(),
        assembly.indexes.len() + keys.len() <= usize::MAX,
    ensures
        forall|key: ProjectKeyView| #[trigger]
            add_projects(assembly, keys, nodes).nodes.dom().contains(key) ==> add_projects(
                assembly,
                keys,
                nodes,
            ).nodes[key].index < add_projects(assembly, keys, nodes).indexes.len(),
    decreases keys.len(),
{
    if keys.len() > 0 {
        let rest = keys.drop_last();
        add_projects_numbers(assembly, rest, nodes);
        add_projects_grows(assembly, rest, nodes);
        let before = add_projects(assembly, rest, nodes);
        let more = add_projects(assembly, keys, nodes);
        assert forall|key: ProjectKeyView| #[trigger]
            more.nodes.dom().contains(key) implies more.nodes[key].index < more.indexes.len() by {
            if key != keys.last() {
                assert(before.nodes.dom().contains(key));
            }
        }
    }
}

/// The edges that were added are those of the graph.
proof fn add_edges_known(
    before: Seq<KeyEdgeView>,
    indexes: Seq<ProjectKeyView>,
    edges: Seq<(usize, usize, u8)>,
    all: Seq<KeyEdgeView>,
    i: int,
)
    requires
        add_edges(before, indexes, edges) == Ok::<Seq<KeyEdgeView>, ProjectGraphFault>(all),
        0 <= i < all.len(),
    ensures
        before.contains(all[i]) || exists|j: int|
            0 <= j < edges.len() && all[i] == key_edge(indexes, #[trigger] edges[j]),
    decreases edges.len(),
{
    if edges.len() == 0 {
        assert(before[i] == all[i]);
    } else {
        let rest = edges.drop_last();
        let front = add_edges(before, indexes, rest)->Ok_0;
        if i < front.len() {
            assert(all[i] == front[i]);
            add_edges_known(before, indexes, rest, front, i);
            if !before.contains(front[i]) {
                let j = choose|j: int|
                    0 <= j < rest.len() && front[i] == key_edge(indexes, #[trigger] rest[j]);
                assert(edges[j] == rest[j]);
            }
        } else {
            assert(all[i] == key_edge(indexes, edges[edges.len() - 1]));
        }
    }
}

/// What holds of everything still holds with the graph of one more source root.
pub proof fn add_local_valid(assembly: AssemblyView, local: ProjectGraphView, more: AssemblyView)
    requires
        assembly_valid(assembly),
        local_valid(local),
        edges_within(local.graph.edges, local.graph.nodes),
        add_local(assembly, local) == Ok::<AssemblyView, ProjectGraphFault>(more),
        forall|key: ProjectKeyView|
            local.nodes.dom().contains(key) <==> #[trigger] keys_in_order(local.nodes).contains(key),
        assembly.indexes.len() + keys_in_order(local.nodes).len() <= usize::MAX,
    ensures
        assembly_valid(more),
{
    let keys = keys_in_order(local.nodes);
    add_projects_grows(assembly, keys, local.nodes);
    add_projects_numbers(assembly, keys, local.nodes);
    assert forall|i: int| 0 <= i < more.cross.len() implies cross_known(
        more,
        #[trigger] more.cross[i],
    ) by {
        let cross = more.cross[i];
        if assembly.cross.contains(cross) {
            let j = choose|j: int| 0 <= j < assembly.cross.len() && assembly.cross[j] == cross;
            assert(cross_known(assembly, assembly.cross[j]));
        } else {
            assert(cross_from(cross, keys, local.nodes));
            assert(local.nodes.dom().contains(cross.owner));
            assert(cross_valid(local, cross.owner));
            let declared = local.nodes[cross.owner].project.cross_source_dependencies;
            let j = choose|j: int| 0 <= j < declared.len() && declared[j] == cross.dependency;
            assert(declared[j].source_root is Some);
        }
    }
    assert forall|i: int| 0 <= i < more.edges.len() implies edge_known(
        more,
        #[trigger] more.edges[i],
    ) by {
        add_edges_known(assembly.edges, local.indexes, local.graph.edges, more.edges, i);
        if assembly.edges.contains(more.edges[i]) {
            let j = choose|j: int| 0 <= j < assembly.edges.len() && assembly.edges[j] == more.edges[i];
            assert(edge_known(assembly, assembly.edges[j]));
        } else {
            let j = choose|j: int|
                0 <= j < local.graph.edges.len() && more.edges[i] == key_edge(
                    local.indexes,
                    #[trigger] local.graph.edges[j],
                );
            let edge = local.graph.edges[j];
            assert(edge.0 < local.graph.nodes && edge.1 < local.graph.nodes);
            assert(keys.contains(local.indexes[edge.0 as int]));
            assert(keys.contains(local.indexes[edge.1 as int]));
        }
    }
}

impl Assembly {
    /// Adds the graph of a source root.
    fn push_local(&mut self, local: &ProjectGraph) -> (done: Result<(), ProjectGraphError>)
        requires
            assembly_valid(old(self)@),
            local_valid(local@),
        ensures
            match done {
                Ok(()) => {
                    &&& add_local(old(self)@, local@) == Ok::<AssemblyView, ProjectGraphFault>(
                        final(self)@,
                    )
                    &&& assembly_valid(final(self)@)
                },
                Err(error) => add_local(old(self)@, local@) == Err::<
                    AssemblyView,
                    ProjectGraphFault,
                >(error@),
            },
    {
        let ghost before = self@;
        let keys = ordered_keys(&local.nodes);
        assert(local@.nodes.dom() =~= local.nodes@.dom());
        assert(views(keys@) == keys_in_order(local@.nodes));
        self.contexts.insert(local.context.sources.primary_id().clone(), local.context.clone());
        self.push_projects(&local.nodes);
        self.push_aliases(local);
        let _ = local.graph.union();
        proof {
            let keys = keys_in_order(local@.nodes);
            let inserted = AssemblyView {
                contexts: before.contexts.insert(local@.context.registry.primary, local@.context),
                ..before
            };
            add_projects_frame(before, inserted, keys, local@.nodes);
            add_projects_grows(before, keys, local@.nodes);
        }
        let n: usize = self.indexes.len();
        match self.push_edges(local) {
            Ok(()) => {
                proof {
                    let more = add_local(before, local@)->Ok_0;
                    assert(self@ == more);
                    add_local_valid(before, local@, more);
                }
                Ok(())
            },
            Err(error) => Err(error),
        }
    }
}

/// Adding projects does not touch the contexts.
proof fn add_projects_frame(
    a: AssemblyView,
    b: AssemblyView,
    keys: Seq<ProjectKeyView>,
    nodes: Map<ProjectKeyView, ProjectNodeView>,
)
    requires
        b == (AssemblyView { contexts: b.contexts, ..a }),
    ensures
        add_projects(b, keys, nodes) == (AssemblyView {
            contexts: b.contexts,
            ..add_projects(a, keys, nodes)
        }),
    decreases keys.len(),
{
    if keys.len() > 0 {
        add_projects_frame(a, b, keys.drop_last(), nodes);
    }
}

/// Every graph of a source root holds what it must.
pub open spec fn locals_valid(graphs: Seq<ProjectGraphView>) -> bool {
    forall|i: int| 0 <= i < graphs.len() ==> local_valid(#[trigger] graphs[i])
}

/// Graphs that fail to be put together fail whatever graphs come behind them.
proof fn assemble_fails(graphs: Seq<ProjectGraphView>, n: int, fault: ProjectGraphFault)
    requires
        0 <= n <= graphs.len(),
        assemble(graphs.take(n)) == Err::<AssemblyView, ProjectGraphFault>(fault),
    ensures
        assemble(graphs) == Err::<AssemblyView, ProjectGraphFault>(fault),
    decreases graphs.len(),
{
    if n == graphs.len() {
        assert(graphs.take(n) =~= graphs);
    } else {
        assert(graphs.drop_last().take(n) =~= graphs.take(n));
        assemble_fails(graphs.drop_last(), n, fault);
    }
}

/// Puts the graphs of all source roots together.
fn assemble_graphs(graphs: &Vec<&ProjectGraph>) -> (assembly: Result<Assembly, ProjectGraphError>)
    requires
        locals_valid(views(graphs@)),
    ensures
        outcome(assembly) == assemble(views(graphs@)),
        assembly is Ok ==> assembly_valid(assembly->Ok_0@),
{
    let ghost all = views(graphs@);
    let mut assembly = Assembly::new();
    let mut i: usize = 0;
    assert(all.take(0) =~= Seq::empty());
    while i < graphs.len()
        invariant
            i <= graphs@.len(),
            all == views(graphs@),
            locals_valid(all),
            assemble(all.take(i as int)) == Ok::<AssemblyView, ProjectGraphFault>(assembly@),
            assembly_valid(assembly@),
        decreases graphs.len() - i,
    {
        let local = graphs[i];
        proof {
            let next = all.take(i + 1);
            assert(next.drop_last() =~= all.take(i as int));
            assert(next.last() == local@);
            assert(local_valid(all[i as int]));
        }
        match assembly.push_local(local) {
            Ok(()) => {},
            Err(error) => {
                proof {
                    assemble_fails(all, i + 1, error@);
                }
                return Err(error);
            },
        }
        i = i + 1;
    }
    assert(all.take(i as int) =~= all);
    Ok(assembly)
}

/// An edge between keys as an edge between numbers.
pub open spec fn number_edge(
    nodes: Map<ProjectKeyView, ProjectNodeView>,
    edge: KeyEdgeView,
) -> (usize, usize, u8) {
    (nodes[edge.source].index, nodes[edge.target].index, edge.label)
}

/// The edges within the source roots, in order.
pub open spec fn local_edges(assembly: AssemblyView) -> Seq<(usize, usize, u8)> {
    ranked::<KeyEdge>(assembly.edges).map_values(
        |edge: KeyEdgeView| number_edge(assembly.nodes, edge),
    )
}

/// The source root that a dependency of a project means. Projects of the primary
/// source root may use its aliases.
pub open spec fn select_source(
    registry: RegistryView,
    aliases: Map<Seq<char>, Seq<char>>,
    owner: ProjectKeyView,
    requested: Seq<char>,
) -> Seq<char> {
    canonical(
        registry,
        if owner.source == registry.primary && aliases.dom().contains(requested) {
            aliases[requested]
        } else {
            requested
        },
    )
}

/// The project that a dependency on another source root leads to.
pub open spec fn resolve_cross(
    registry: RegistryView,
    aliases: Map<Seq<char>, Seq<char>>,
    assembly: AssemblyView,
    cross: CrossView,
) -> Result<ResolvedView, ProjectGraphFault> {
    let requested = cross.dependency.source_root->0;
    let source = select_source(registry, aliases, cross.owner, requested);
    let id = cross.dependency.id;
    let key = ProjectKeyView { source, project: id };
    let alias = AliasView { source, alias: id };
    let owner_text = project_key_text(cross.owner);
    if !registry.roots.dom().contains(canonical(registry, source)) {
        Err(
            ProjectGraphFault::UnknownDependencySource {
                project_key: owner_text,
                source_id: requested,
            },
        )
    } else if source == cross.owner.source {
        Err(
            ProjectGraphFault::RedundantDependencySource {
                project_key: owner_text,
                source_id: source,
            },
        )
    } else if !valid_id(id) {
        Err(ProjectGraphFault::InvalidId { id })
    } else if !assembly.nodes.dom().contains(key) && !assembly.aliases.dom().contains(alias) {
        Err(
            ProjectGraphFault::UnknownCrossSourceTarget {
                project_key: owner_text,
                source_id: source,
                target_id: id,
            },
        )
    } else {
        let target = if assembly.nodes.dom().contains(key) {
            key
        } else {
            assembly.aliases[alias]
        };
        Ok(
            ResolvedView {
                owner: cross.owner,
                target,
                dependency: DependencyView {
                    id: target.project,
                    source_root: Some(source),
                    ..cross.dependency
                },
            },
        )
    }
}

/// The projects that all dependencies on other source roots lead to.
pub open spec fn resolve_all(
    registry: RegistryView,
    aliases: Map<Seq<char>, Seq<char>>,
    assembly: AssemblyView,
    cross: Seq<CrossView>,
) -> Result<Seq<ResolvedView>, ProjectGraphFault>
    decreases cross.len(),
{
    if cross.len() == 0 {
        Ok(Seq::empty())
    } else {
        match resolve_all(registry, aliases, assembly, cross.drop_last()) {
            Err(fault) => Err(fault),
            Ok(resolved) => match resolve_cross(registry, aliases, assembly, cross.last()) {
                Err(fault) => Err(fault),
                Ok(one) => Ok(resolved.push(one)),
            },
        }
    }
}

/// A dependency that fails to resolve fails whatever dependencies come behind it.
proof fn resolve_all_fails(
    registry: RegistryView,
    aliases: Map<Seq<char>, Seq<char>>,
    assembly: AssemblyView,
    cross: Seq<CrossView>,
    n: int,
    fault: ProjectGraphFault,
)
    requires
        0 <= n <= cross.len(),
        resolve_all(registry, aliases, assembly, cross.take(n)) == Err::<
            Seq<ResolvedView>,
            ProjectGraphFault,
        >(fault),
    ensures
        resolve_all(registry, aliases, assembly, cross) == Err::<
            Seq<ResolvedView>,
            ProjectGraphFault,
        >(fault),
    decreases cross.len(),
{
    if n == cross.len() {
        assert(cross.take(n) =~= cross);
    } else {
        assert(cross.drop_last().take(n) =~= cross.take(n));
        resolve_all_fails(registry, aliases, assembly, cross.drop_last(), n, fault);
    }
}

/// Resolves a dependency on another source root.
fn resolve_one(
    sources: &SourceRegistry,
    aliases: &Table<SourceAlias, SourceRootId>,
    assembly: &Assembly,
    cross: &CrossDependency,
) -> (resolved: Result<ResolvedDependency, ProjectGraphError>)
    requires
        cross@.dependency.source_root is Some,
    ensures
        outcome(resolved) == resolve_cross(
            sources@,
            value_views(aliases@),
            assembly@,
            cross@,
        ),
{
    let requested = match &cross.dependency.source_root {
        Some(requested) => requested.clone(),
        None => {
            assert(false);
            SourceRootId::primary()
        },
    };
    let mut selected = requested.clone();
    if cross.owner.source_id().same_key(sources.primary_id()) {
        if let Ok(alias) = SourceAlias::new(requested.as_str()) {
            if let Some(source) = aliases.get(&alias) {
                selected = source.clone();
            }
        }
    }
    if selected.is_primary_alias() {
        selected = sources.primary_id().clone();
    }
    assert(selected@ == select_source(
        sources@,
        value_views(aliases@),
        cross.owner@,
        requested@,
    ));
    if sources.get(&selected).is_err() {
        return Err(
            ProjectGraphError::UnknownDependencySource {
                project_key: cross.owner.to_text(),
                source_id: requested.as_str().to_owned(),
            },
        );
    }
    if selected.same_key(cross.owner.source_id()) {
        return Err(
            ProjectGraphError::RedundantDependencySource {
                project_key: cross.owner.to_text(),
                source_id: selected.as_str().to_owned(),
            },
        );
    }
    let key = match ProjectKey::new(selected.clone(), cross.dependency.id.clone()) {
        Ok(key) => key,
        Err(_) => {
            return Err(
                ProjectGraphError::InvalidId { id: cross.dependency.id.as_str().to_owned() },
            );
        },
    };
    let target = if assembly.nodes.contains(&key) {
        key
    } else {
        let alias = AliasKey {
            source: selected.clone(),
            alias: cross.dependency.id.as_str().to_owned(),
        };
        match assembly.aliases.get(&alias) {
            Some(key) => key.clone(),
            None => {
                return Err(
                    ProjectGraphError::UnknownCrossSourceTarget {
                        project_key: cross.owner.to_text(),
                        source_id: selected.as_str().to_owned(),
                        target_id: cross.dependency.id.as_str().to_owned(),
                    },
                );
            },
        }
    };
    let mut dependency = cross.dependency.clone();
    dependency.source_root = Some(selected);
    dependency.id = target.project_id().clone();
    Ok(ResolvedDependency { owner: cross.owner.clone(), target, dependency })
}

/// Resolves all dependencies on other source roots.
fn resolve_dependencies(
    sources: &SourceRegistry,
    aliases: &Table<SourceAlias, SourceRootId>,
    assembly: &Assembly,
) -> (resolved: Result<Vec<ResolvedDependency>, ProjectGraphError>)
    requires
        assembly_valid(assembly@),
    ensures
        match resolved {
            Ok(resolved) => resolve_all(
                sources@,
                value_views(aliases@),
                assembly@,
                assembly@.cross,
            ) == Ok::<Seq<ResolvedView>, ProjectGraphFault>(views(resolved@)),
            Err(error) => resolve_all(
                sources@,
                value_views(aliases@),
                assembly@,
                assembly@.cross,
            ) == Err::<Seq<ResolvedView>, ProjectGraphFault>(error@),
        },
{
    let ghost all = assembly@.cross;
    let mut out: Vec<ResolvedDependency> = Vec::new();
    let mut i: usize = 0;
    assert(all.take(0) =~= Seq::empty());
    assert(views(out@) =~= Seq::empty());
    while i < assembly.cross.len()
        invariant
            i <= assembly.cross@.len(),
            all == assembly@.cross,
            assembly_valid(assembly@),
            resolve_all(sources@, value_views(aliases@), assembly@, all.take(i as int)) == Ok::<
                Seq<ResolvedView>,
                ProjectGraphFault,
            >(views(out@)),
        decreases assembly.cross.len() - i,
    {
        let cross = &assembly.cross[i];
        proof {
            let next = all.take(i + 1);
            assert(next.drop_last() =~= all.take(i as int));
            assert(next.last() == cross@);
            assert(cross_known(assembly@, all[i as int]));
        }
        match resolve_one(sources, aliases, assembly, cross) {
            Ok(resolved) => {
                out.push(resolved);
            },
            Err(error) => {
                proof {
                    resolve_all_fails(
                        sources@,
                        value_views(aliases@),
                        assembly@,
                        all,
                        i + 1,
                        error@,
                    );
                }
                return Err(error);
            },
        }
        i = i + 1;
    }
    assert(all.take(i as int) =~= all);
    Ok(out)
}

/// Two dependencies have the same owner and lead to the same project.
pub open spec fn same_ends(a: ResolvedView, b: ResolvedView) -> bool {
    a.owner == b.owner && a.target == b.target
}

/// The dependencies that do not have the same ends as another.
pub open spec fn without_ends(items: Seq<ResolvedView>, other: ResolvedView) -> Seq<ResolvedView>
    decreases items.len(),
{
    if items.len() == 0 {
        items
    } else {
        let rest = without_ends(items.drop_last(), other);
        if same_ends(items.last(), other) {
            rest
        } else {
            rest.push(items.last())
        }
    }
}

/// For each pair of ends, the dependency that was declared last.
pub open spec fn last_wins(items: Seq<ResolvedView>) -> Seq<ResolvedView>
    decreases items.len(),
{
    if items.len() == 0 {
        items
    } else {
        without_ends(last_wins(items.drop_last()), items.last()).push(items.last())
    }
}

/// What is left are dependencies that were there.
proof fn without_ends_keeps(items: Seq<ResolvedView>, other: ResolvedView)
    ensures
        without_ends(items, other).len() <= items.len(),
        forall|x: ResolvedView| #[trigger]
            without_ends(items, other).contains(x) <==> items.contains(x) && !same_ends(x, other),
    decreases items.len(),
{
    if items.len() > 0 {
        let rest = items.drop_last();
        without_ends_keeps(rest, other);
        let kept = without_ends(rest, other);
        let all = without_ends(items, other);
        assert(items =~= rest.push(items.last()));
        assert forall|x: ResolvedView| #[trigger] all.contains(x) <==> items.contains(x)
            && !same_ends(x, other) by {
            lemma_seq_contains_after_push(rest, items.last(), x);
            lemma_seq_contains_after_push(kept, items.last(), x);
        }
    }
}

/// What wins was declared.
proof fn last_wins_keeps(items: Seq<ResolvedView>)
    ensures
        last_wins(items).len() <= items.len(),
        forall|x: ResolvedView| #[trigger] last_wins(items).contains(x) ==> items.contains(x),
    decreases items.len(),
{
    if items.len() > 0 {
        let rest = items.drop_last();
        last_wins_keeps(rest);
        without_ends_keeps(last_wins(rest), items.last());
        let kept = without_ends(last_wins(rest), items.last());
        assert(items =~= rest.push(items.last()));
        assert forall|x: ResolvedView| #[trigger]
            last_wins(items).contains(x) implies items.contains(x) by {
            lemma_seq_contains_after_push(kept, items.last(), x);
            lemma_seq_contains_after_push(rest, items.last(), x);
            assert(kept.contains(x) ==> last_wins(rest).contains(x));
        }
    }
}

/// Whether two dependencies have the same ends.
fn is_same_ends(a: &ResolvedDependency, b: &ResolvedDependency) -> (same: bool)
    ensures
        same == same_ends(a@, b@),
{
    a.owner.same_key(&b.owner) && a.target.same_key(&b.target)
}

/// A copy of a resolved dependency.
fn copy_resolved(item: &ResolvedDependency) -> (copy: ResolvedDependency)
    ensures
        copy@ == item@,
{
    ResolvedDependency {
        owner: item.owner.clone(),
        target: item.target.clone(),
        dependency: item.dependency.clone(),
    }
}

/// Keeps for each pair of ends the dependency that was declared last.
fn keep_last(items: &Vec<ResolvedDependency>) -> (kept: Vec<ResolvedDependency>)
    ensures
        views(kept@) == last_wins(views(items@)),
{
    let ghost all = views(items@);
    let mut kept: Vec<ResolvedDependency> = Vec::new();
    let mut i: usize = 0;
    assert(all.take(0) =~= Seq::empty());
    assert(views(kept@) =~= Seq::empty());
    while i < items.len()
        invariant
            i <= items@.len(),
            all == views(items@),
            views(kept@) == last_wins(all.take(i as int)),
        decreases items.len() - i,
    {
        let item = &items[i];
        let ghost before = views(kept@);
        let mut next: Vec<ResolvedDependency> = Vec::new();
        let mut j: usize = 0;
        assert(before.take(0) =~= Seq::empty());
        assert(views(next@) =~= Seq::empty());
        while j < kept.len()
            invariant
                j <= kept@.len(),
                before == views(kept@),
                views(next@) == without_ends(before.take(j as int), item@),
            decreases kept.len() - j,
        {
            proof {
                let front = before.take(j + 1);
                assert(front.drop_last() =~= before.take(j as int));
                assert(front.last() == kept[j as int]@);
            }
            if !is_same_ends(&kept[j], item) {
                next.push(copy_resolved(&kept[j]));
            }
            j = j + 1;
        }
        assert(before.take(j as int) =~= before);
        next.push(copy_resolved(item));
        kept = next;
        proof {
            let front = all.take(i + 1);
            assert(front.drop_last() =~= all.take(i as int));
            assert(front.last() == item@);
        }
        i = i + 1;
    }
    assert(all.take(i as int) =~= all);
    kept
}

/// The projects and edges while dependencies on other source roots are added.
pub struct LinkView {
    pub nodes: Map<ProjectKeyView, ProjectNodeView>,
    pub edges: Seq<(usize, usize, u8)>,
}

/// The project with one more dependency.
pub open spec fn with_dependency(node: ProjectNodeView, dependency: DependencyView) -> ProjectNodeView {
    ProjectNodeView {
        project: ProjectView {
            dependencies: node.project.dependencies.push(dependency),
            ..node.project
        },
        ..node
    }
}

/// Adds a dependency on another source root to its owner. Unless it is one on the
/// root of the workspace, it must keep the constraints of the owner's source root,
/// and adds an edge.
pub open spec fn link_one(
    contexts: Map<Seq<char>, ContextView>,
    links: LinkView,
    item: ResolvedView,
) -> Result<LinkView, ProjectGraphFault> {
    let owner = links.nodes[item.owner];
    let target = links.nodes[item.target];
    let root = item.dependency.scope == DependencyScope::Root;
    let violation = if root {
        None
    } else {
        constraint_violation(
            contexts[item.owner.source].constraints,
            RefusalView { owner: item.owner, target: item.target, scope: item.dependency.scope },
        )
    };
    match violation {
        Some(ConstraintViolation::Layer) => Err(
            ProjectGraphFault::LayerViolation {
                project_key: project_key_text(item.owner),
                target_key: project_key_text(item.target),
            },
        ),
        Some(ConstraintViolation::Tag) => Err(
            ProjectGraphFault::TagViolation {
                project_key: project_key_text(item.owner),
                target_key: project_key_text(item.target),
            },
        ),
        None => Ok(
            LinkView {
                nodes: links.nodes.insert(item.owner, with_dependency(owner, item.dependency)),
                edges: if root {
                    links.edges
                } else {
                    links.edges.push(
                        (owner.index, target.index, item.dependency.scope.label_spec()),
                    )
                },
            },
        ),
    }
}

/// Adds all dependencies on other source roots.
pub open spec fn link_all(
    contexts: Map<Seq<char>, ContextView>,
    links: LinkView,
    items: Seq<ResolvedView>,
) -> Result<LinkView, ProjectGraphFault>
    decreases items.len(),
{
    if items.len() == 0 {
        Ok(links)
    } else {
        match link_all(contexts, links, items.drop_last()) {
            Err(fault) => Err(fault),
            Ok(linked) => link_one(contexts, linked, items.last()),
        }
    }
}

/// A dependency that is turned down is turned down whatever comes behind it.
proof fn link_all_fails(
    contexts: Map<Seq<char>, ContextView>,
    links: LinkView,
    items: Seq<ResolvedView>,
    n: int,
    fault: ProjectGraphFault,
)
    requires
        0 <= n <= items.len(),
        link_all(contexts, links, items.take(n)) == Err::<LinkView, ProjectGraphFault>(fault),
    ensures
        link_all(contexts, links, items) == Err::<LinkView, ProjectGraphFault>(fault),
    decreases items.len(),
{
    if n == items.len() {
        assert(items.take(n) =~= items);
    } else {
        assert(items.drop_last().take(n) =~= items.take(n));
        link_all_fails(contexts, links, items.drop_last(), n, fault);
    }
}

/// The dependencies on other source roots, in the order in which they are added.
pub open spec fn ordered_links(resolved: Seq<ResolvedView>) -> Seq<ResolvedView> {
    ranked::<ResolvedDependency>(last_wins(resolved))
}

/// The first graph of a source root.
pub open spec fn graph_of_source(graphs: Seq<ProjectGraphView>, source: Seq<char>) -> Option<
    ProjectGraphView,
>
    decreases graphs.len(),
{
    if graphs.len() == 0 {
        None
    } else if graphs[0].context.registry.primary == source {
        Some(graphs[0])
    } else {
        graph_of_source(graphs.skip(1), source)
    }
}

/// The fault of a graph with a cycle in one of its parts.
pub open spec fn cycle_fault(
    indexes: Seq<ProjectKeyView>,
    edges: Seq<(usize, usize, u8)>,
) -> Option<ProjectGraphFault> {
    if exists|i: int| first_cycle(edges, i) {
        let edge = edges[choose|i: int| first_cycle(edges, i)];
        Some(
            ProjectGraphFault::WouldCycle {
                source_id: index_label(indexes, edge.0),
                target_id: index_label(indexes, edge.1),
            },
        )
    } else {
        None
    }
}

/// The graph of everything that was put together.
pub open spec fn linked_graph(
    registry: RegistryView,
    aliases: Map<Seq<char>, Seq<char>>,
    primary: ProjectGraphView,
    assembly: AssemblyView,
) -> Result<ProjectGraphView, ProjectGraphFault> {
    match resolve_all(registry, aliases, assembly, assembly.cross) {
        Err(fault) => Err(fault),
        Ok(resolved) => {
            let start = LinkView { nodes: assembly.nodes, edges: local_edges(assembly) };
            match link_all(assembly.contexts, start, ordered_links(resolved)) {
                Err(fault) => Err(fault),
                Ok(links) => match cycle_fault(assembly.indexes, links.edges) {
                    Some(fault) => Err(fault),
                    None => Ok(
                        ProjectGraphView {
                            context: ContextView {
                                registry,
                                workspace_root: registry.roots[registry.primary],
                                ..primary.context
                            },
                            contexts: assembly.contexts,
                            aliases: assembly.aliases,
                            default_key: primary.default_key,
                            graph: ScopedView {
                                nodes: assembly.indexes.len(),
                                edges: links.edges,
                            },
                            indexes: assembly.indexes,
                            nodes: links.nodes,
                        },
                    ),
                },
            }
        },
    }
}

/// The one graph that graphs of several source roots make.
pub open spec fn composed(
    registry: RegistryView,
    aliases: Map<Seq<char>, Seq<char>>,
    graphs: Seq<ProjectGraphView>,
) -> Result<ProjectGraphView, ProjectGraphFault> {
    let ordered = ranked::<&ProjectGraph>(graphs);
    match graph_of_source(ordered, registry.primary) {
        None => Err(ProjectGraphFault::UnconfiguredId { id: registry.primary }),
        Some(primary) => match assemble(ordered) {
            Err(fault) => Err(fault),
            Ok(assembly) => linked_graph(registry, aliases, primary, assembly),
        },
    }
}

/// A dependency that adds an edge leads to a known project, and the source root of its owner
/// has a context.
pub open spec fn link_reaches(assembly: AssemblyView, item: ResolvedView) -> bool {
    item.dependency.scope != DependencyScope::Root ==> {
        &&& assembly.nodes.dom().contains(item.target)
        &&& assembly.contexts.dom().contains(item.owner.source)
    }
}

/// The dependencies on other source roots that are added reach what they need: an alias that
/// one is resolved by names a project, and the source root of its owner is composed too.
pub open spec fn links_reach(
    registry: RegistryView,
    aliases: Map<Seq<char>, Seq<char>>,
    graphs: Seq<ProjectGraphView>,
) -> bool {
    match assemble(ranked::<&ProjectGraph>(graphs)) {
        Err(_) => true,
        Ok(assembly) => assembly_reaches(registry, aliases, assembly),
    }
}

/// The dependencies on other source roots that are added reach what they need.
pub open spec fn assembly_reaches(
    registry: RegistryView,
    aliases: Map<Seq<char>, Seq<char>>,
    assembly: AssemblyView,
) -> bool {
    match resolve_all(registry, aliases, assembly, assembly.cross) {
        Err(_) => true,
        Ok(resolved) => forall|i: int|
            0 <= i < ordered_links(resolved).len() ==> link_reaches(
                assembly,
                #[trigger] ordered_links(resolved)[i],
            ),
    }
}

/// Every dependency that was resolved has a known owner.
pub open spec fn resolved_known(assembly: AssemblyView, item: ResolvedView) -> bool {
    assembly.nodes.dom().contains(item.owner)
}

/// Resolved dependencies are as many as were declared, and all are known.
pub proof fn resolve_all_known(
    registry: RegistryView,
    aliases: Map<Seq<char>, Seq<char>>,
    assembly: AssemblyView,
    cross: Seq<CrossView>,
    resolved: Seq<ResolvedView>,
)
    requires
        assembly_valid(assembly),
        forall|i: int| 0 <= i < cross.len() ==> cross_known(assembly, #[trigger] cross[i]),
        resolve_all(registry, aliases, assembly, cross) == Ok::<
            Seq<ResolvedView>,
            ProjectGraphFault,
        >(resolved),
    ensures
        resolved.len() == cross.len(),
        forall|i: int|
            0 <= i < resolved.len() ==> resolved_known(assembly, #[trigger] resolved[i]),
    decreases cross.len(),
{
    if cross.len() > 0 {
        let rest = cross.drop_last();
        let front = resolve_all(registry, aliases, assembly, rest)->Ok_0;
        assert forall|i: int| 0 <= i < rest.len() implies cross_known(
            assembly,
            #[trigger] rest[i],
        ) by {
            assert(rest[i] == cross[i]);
        }
        resolve_all_known(registry, aliases, assembly, rest, front);
        assert(cross_known(assembly, cross[cross.len() - 1]));
        assert forall|i: int| 0 <= i < resolved.len() implies resolved_known(
            assembly,
            #[trigger] resolved[i],
        ) by {
            if i < front.len() {
                assert(resolved[i] == front[i]);
            }
        }
    }
}

/// The dependencies that are added are known, and no more than were declared.
pub proof fn ordered_links_known(assembly: AssemblyView, resolved: Seq<ResolvedView>)
    requires
        forall|i: int|
            0 <= i < resolved.len() ==> resolved_known(assembly, #[trigger] resolved[i]),
    ensures
        ordered_links(resolved).len() <= resolved.len(),
        forall|i: int|
            0 <= i < ordered_links(resolved).len() ==> resolved_known(
                assembly,
                #[trigger] ordered_links(resolved)[i],
            ),
{
    let kept = last_wins(resolved);
    let all = ordered_links(resolved);
    last_wins_keeps(resolved);
    ranked_is_permutation::<ResolvedDependency>(kept);
    assert forall|i: int| 0 <= i < all.len() implies resolved_known(assembly, #[trigger] all[i]) by {
        assert(all.contains(all[i]));
        ranked_same_items::<ResolvedDependency>(kept, all[i]);
        assert(resolved.contains(all[i]));
        let j = choose|j: int| 0 <= j < resolved.len() && resolved[j] == all[i];
        assert(resolved_known(assembly, resolved[j]));
    }
}

/// What holds of the projects and edges while dependencies are added.
spec fn links_valid(assembly: AssemblyView, links: LinkView) -> bool {
    &&& links.nodes.dom() == assembly.nodes.dom()
    &&& forall|key: ProjectKeyView| #[trigger]
        links.nodes.dom().contains(key) ==> links.nodes[key].index < assembly.indexes.len()
    &&& edges_within(links.edges, assembly.indexes.len())
}

/// Adds all dependencies on other source roots to their owners, and their edges to
/// the graph.
fn link_dependencies(
    contexts: &Table<SourceRootId, GraphExpanderContext>,
    nodes: &mut Table<ProjectKey, ProjectNode>,
    graph: &mut petgraph::Graph<usize, u8, petgraph::Directed, u32>,
    items: &Vec<ResolvedDependency>,
    Ghost(assembly): Ghost<AssemblyView>,
) -> (done: Result<(), ProjectGraphError>)
    requires
        value_views(contexts@) == assembly.contexts,
        graph_nodes(*old(graph)) == assembly.indexes.len(),
        links_valid(
            assembly,
            LinkView { nodes: value_views(old(nodes)@), edges: graph_edges(*old(graph)) },
        ),
        forall|i: int|
            0 <= i < items@.len() ==> resolved_known(assembly, #[trigger] views(items@)[i])
                && link_reaches(assembly, views(items@)[i]),
        graph_edges(*old(graph)).len() + items@.len() <= u32::MAX,
    ensures
        match done {
            Ok(()) => {
                &&& link_all(
                    assembly.contexts,
                    LinkView { nodes: value_views(old(nodes)@), edges: graph_edges(*old(graph)) },
                    views(items@),
                ) == Ok::<LinkView, ProjectGraphFault>(
                    LinkView { nodes: value_views(final(nodes)@), edges: graph_edges(*final(graph)) },
                )
                &&& graph_nodes(*final(graph)) == graph_nodes(*old(graph))
                &&& links_valid(
                    assembly,
                    LinkView { nodes: value_views(final(nodes)@), edges: graph_edges(*final(graph)) },
                )
            },
            Err(error) => link_all(
                assembly.contexts,
                LinkView { nodes: value_views(old(nodes)@), edges: graph_edges(*old(graph)) },
                views(items@),
            ) == Err::<LinkView, ProjectGraphFault>(error@),
        },
{
    let ghost start = LinkView { nodes: value_views(nodes@), edges: graph_edges(*graph) };
    let ghost all = views(items@);
    let mut i: usize = 0;
    assert(all.take(0) =~= Seq::empty());
    while i < items.len()
        invariant
            i <= items@.len(),
            all == views(items@),
            value_views(contexts@) == assembly.contexts,
            graph_nodes(*graph) == assembly.indexes.len(),
            graph_nodes(*graph) == graph_nodes(*old(graph)),
            forall|i: int|
                0 <= i < all.len() ==> resolved_known(assembly, #[trigger] all[i]) && link_reaches(
                    assembly,
                    all[i],
                ),
            graph_edges(*graph).len() + (items@.len() - i) <= u32::MAX,
            links_valid(
                assembly,
                LinkView { nodes: value_views(nodes@), edges: graph_edges(*graph) },
            ),
            start == (LinkView { nodes: value_views(old(nodes)@), edges: graph_edges(*old(graph)) }),
            link_all(assembly.contexts, start, all.take(i as int)) == Ok::<
                LinkView,
                ProjectGraphFault,
            >(LinkView { nodes: value_views(nodes@), edges: graph_edges(*graph) }),
        decreases items.len() - i,
    {
        let item = &items[i];
        let ghost links = LinkView { nodes: value_views(nodes@), edges: graph_edges(*graph) };
        proof {
            let next = all.take(i + 1);
            assert(next.drop_last() =~= all.take(i as int));
            assert(next.last() == item@);
            assert(resolved_known(assembly, all[i as int]));
            assert(links.nodes.dom().contains(item@.owner));
        }
        let owner = match nodes.get(&item.owner) {
            Some(node) => node.duplicate(),
            None => {
                assert(false);
                return Ok(());
            },
        };
        let root = item.dependency.is_root_scope();
        let from: usize = owner.index;
        let mut to: usize = 0;
        if !root {
            proof {
                assert(links.nodes.dom().contains(item@.target));
                assert(value_views(contexts@).dom().contains(item@.owner.source));
            }
            to = match nodes.get(&item.target) {
                Some(node) => node.index,
                None => {
                    assert(false);
                    return Ok(());
                },
            };
            let context = match contexts.get(item.owner.source_id()) {
                Some(context) => context,
                None => {
                    assert(false);
                    return Ok(());
                },
            };
            match context.constraints.violation(&item.owner, &item.target, item.dependency.scope) {
                Some(ConstraintViolation::Layer) => {
                    let error = ProjectGraphError::LayerViolation {
                        project_key: item.owner.to_text(),
                        target_key: item.target.to_text(),
                    };
                    proof {
                        link_all_fails(assembly.contexts, start, all, i + 1, error@);
                    }
                    return Err(error);
                },
                Some(ConstraintViolation::Tag) => {
                    let error = ProjectGraphError::TagViolation {
                        project_key: item.owner.to_text(),
                        target_key: item.target.to_text(),
                    };
                    proof {
                        link_all_fails(assembly.contexts, start, all, i + 1, error@);
                    }
                    return Err(error);
                },
                None => {},
            }
        }
        let ghost owner_view = owner@;
        let mut owner = owner;
        owner.project.dependencies.push(item.dependency.clone());
        assert(owner@ == with_dependency(owner_view, item@.dependency));
        nodes.insert(item.owner.clone(), owner);
        if !root {
            add_edge(graph, from, to, item.dependency.scope.label());
        }
        proof {
            let linked = LinkView { nodes: value_views(nodes@), edges: graph_edges(*graph) };
            assert(linked.nodes == links.nodes.insert(
                item@.owner,
                with_dependency(owner_view, item@.dependency),
            ));
            assert(linked.nodes.dom() =~= links.nodes.dom());
            assert(link_one(assembly.contexts, links, item@) == Ok::<LinkView, ProjectGraphFault>(
                linked,
            ));
        }
        i = i + 1;
    }
    assert(all.take(i as int) =~= all);
    Ok(())
}

/// The graph with the edges within the source roots.
fn local_graph(assembly: &Assembly) -> (graph: petgraph::Graph<
    usize,
    u8,
    petgraph::Directed,
    u32,
>)
    requires
        assembly_valid(assembly@),
        assembly@.indexes.len() <= u32::MAX,
        assembly@.edges.len() <= u32::MAX,
    ensures
        graph_nodes(graph) == assembly@.indexes.len(),
        graph_edges(graph) == local_edges(assembly@),
        edges_within(graph_edges(graph), assembly@.indexes.len()),
        graph_edges(graph).len() == assembly@.edges.len(),
{
    let mut graph = new_graph();
    let mut i: usize = 0;
    while i < assembly.indexes.len()
        invariant
            i <= assembly.indexes@.len(),
            assembly.indexes@.len() <= u32::MAX,
            graph_nodes(graph) == i,
            graph_edges(graph) == Seq::<(usize, usize, u8)>::empty(),
        decreases assembly.indexes.len() - i,
    {
        let _ = add_node(&mut graph);
        i = i + 1;
    }
    let mut copies: Vec<KeyEdge> = Vec::new();
    let mut k: usize = 0;
    assert(views(copies@) =~= assembly@.edges.take(0));
    while k < assembly.edges.len()
        invariant
            k <= assembly.edges@.len(),
            views(copies@) == assembly@.edges.take(k as int),
        decreases assembly.edges.len() - k,
    {
        let edge = &assembly.edges[k];
        copies.push(
            KeyEdge { source: edge.source.clone(), target: edge.target.clone(), label: edge.label },
        );
        assert(views(copies@) =~= assembly@.edges.take(k + 1));
        k = k + 1;
    }
    assert(assembly@.edges.take(k as int) =~= assembly@.edges);
    let edges = sort_ranked(copies);
    let ghost all = views(edges@);
    let ghost numbers = local_edges(assembly@);
    proof {
        ranked_is_permutation::<KeyEdge>(assembly@.edges);
        assert forall|j: int| 0 <= j < all.len() implies edge_known(assembly@, #[trigger] all[j]) by {
            assert(all.contains(all[j]));
            ranked_same_items::<KeyEdge>(assembly@.edges, all[j]);
            let n = choose|n: int| 0 <= n < assembly@.edges.len() && assembly@.edges[n] == all[j];
            assert(edge_known(assembly@, assembly@.edges[n]));
        }
    }
    let mut j: usize = 0;
    assert(numbers.take(0) =~= Seq::empty());
    while j < edges.len()
        invariant
            j <= edges@.len(),
            all == views(edges@),
            all.len() <= u32::MAX,
            numbers == local_edges(assembly@),
            all == ranked::<KeyEdge>(assembly@.edges),
            assembly_valid(assembly@),
            forall|j: int| 0 <= j < all.len() ==> edge_known(assembly@, #[trigger] all[j]),
            graph_nodes(graph) == assembly@.indexes.len(),
            graph_edges(graph) == numbers.take(j as int),
            edges_within(graph_edges(graph), assembly@.indexes.len()),
        decreases edges.len() - j,
    {
        let edge = &edges[j];
        assert(edge_known(assembly@, all[j as int]));
        assert(numbers[j as int] == number_edge(assembly@.nodes, edge@));
        match (assembly.nodes.get(&edge.source), assembly.nodes.get(&edge.target)) {
            (Some(source), Some(target)) => {
                add_edge(&mut graph, source.index, target.index, edge.label);
            },
            _ => {
                assert(false);
            },
        }
        assert(graph_edges(graph) =~= numbers.take(j + 1));
        j = j + 1;
    }
    assert(numbers.take(j as int) =~= numbers);
    graph
}

/// Finds the first graph of a source root.
fn find_graph<'a>(graphs: &Vec<&'a ProjectGraph>, source: &SourceRootId) -> (found: Option<
    &'a ProjectGraph,
>)
    ensures
        view_of(found) == graph_of_source(views(graphs@), source@),
{
    let ghost all = views(graphs@);
    let mut i: usize = 0;
    assert(all.skip(0) =~= all);
    while i < graphs.len()
        invariant
            i <= graphs@.len(),
            all == views(graphs@),
            graph_of_source(all, source@) == graph_of_source(all.skip(i as int), source@),
        decreases graphs.len() - i,
    {
        let graph = graphs[i];
        assert(all.skip(i as int)[0] == graph@);
        if graph.context.sources.primary_id().same_key(source) {
            return Some(graph);
        }
        assert(all.skip(i as int).skip(1) =~= all.skip(i + 1));
        i = i + 1;
    }
    None
}

/// There is one first edge that closes a cycle, and none where the parts are free of
/// cycles.
proof fn cycle_fault_is(indexes: Seq<ProjectKeyView>, edges: Seq<(usize, usize, u8)>, i: int)
    requires
        first_cycle(edges, i),
    ensures
        cycle_fault(indexes, edges) == Some(
            ProjectGraphFault::WouldCycle {
                source_id: index_label(indexes, edges[i].0),
                target_id: index_label(indexes, edges[i].1),
            },
        ),
{
    let j = choose|j: int| first_cycle(edges, j);
    assert(closes_cycle(edges, i));
    assert(closes_cycle(edges, j));
    assert(i == j);
}

/// A graph whose parts are free of cycles has no fault.
proof fn no_cycle_fault(indexes: Seq<ProjectKeyView>, edges: Seq<(usize, usize, u8)>)
    requires
        parts_acyclic(edges),
    ensures
        cycle_fault(indexes, edges) is None,
{
    assert forall|i: int| !first_cycle(edges, i) by {
        if first_cycle(edges, i) {
            closing_makes_cycle(edges, i);
        }
    }
}

/// What the graphs hold together can be numbered.
pub open spec fn composable(graphs: Seq<ProjectGraphView>) -> bool {
    match assemble(ranked::<&ProjectGraph>(graphs)) {
        Ok(assembly) => assembly.indexes.len() <= u32::MAX && assembly.edges.len()
            + assembly.cross.len() <= u32::MAX,
        Err(_) => true,
    }
}

/// Links what was put together into one graph.
fn link_assembly(
    sources: SourceRegistry,
    source_aliases: &Table<SourceAlias, SourceRootId>,
    primary: &ProjectGraph,
    assembly: Assembly,
) -> (graph: Result<ProjectGraph, ProjectGraphError>)
    requires
        assembly_valid(assembly@),
        assembly_reaches(sources@, value_views(source_aliases@), assembly@),
        assembly@.indexes.len() <= u32::MAX,
        assembly@.edges.len() + assembly@.cross.len() <= u32::MAX,
    ensures
        outcome(graph) == linked_graph(
            sources@,
            value_views(source_aliases@),
            primary@,
            assembly@,
        ),
{
    let mut graph = local_graph(&assembly);
    let resolved = match resolve_dependencies(&sources, source_aliases, &assembly) {
        Ok(resolved) => resolved,
        Err(error) => {
            return Err(error);
        },
    };
    let ghost before = assembly@;
    proof {
        let aliases = value_views(source_aliases@);
        resolve_all_known(sources@, aliases, before, before.cross, views(resolved@));
        ordered_links_known(before, views(resolved@));
    }
    let items = sort_ranked(keep_last(&resolved));
    assert(views(items@) == ordered_links(views(resolved@)));
    let ghost contexts = assembly.contexts;
    let ghost indexes = assembly.indexes;
    let Assembly { indexes, mut nodes, aliases, contexts, cross: _, edges: _ } = assembly;
    match link_dependencies(&contexts, &mut nodes, &mut graph, &items, Ghost(before)) {
        Ok(()) => {},
        Err(error) => {
            return Err(error);
        },
    }
    let ghost numbers = graph_edges(graph);
    let scoped = match ScopedGraph::split(graph) {
        Ok(scoped) => scoped,
        Err(ends) => {
            proof {
                let i = choose|i: int| #[trigger]
                    first_cycle(numbers, i) && ends.0 == numbers[i].0 && ends.1 == numbers[i].1;
                cycle_fault_is(before.indexes, numbers, i);
                assert(numbers[i].0 < before.indexes.len() && numbers[i].1 < before.indexes.len());
            }
            return Err(
                ProjectGraphError::WouldCycle {
                    source_id: indexes[ends.0].to_text(),
                    target_id: indexes[ends.1].to_text(),
                },
            );
        },
    };
    proof {
        no_cycle_fault(before.indexes, numbers);
    }
    let mut context = primary.context.clone();
    context.workspace_root = sources.get_primary().clone();
    context.sources = sources;
    Ok(
        ProjectGraph {
            context,
            contexts,
            aliases,
            default_key: match &primary.default_key {
                Some(key) => Some(key.clone()),
                None => None,
            },
            graph: scoped,
            indexes,
            nodes,
        },
    )
}

impl ProjectGraph {
    /// Composes the graphs of several source roots into one. Projects keep their
    /// keys, dependencies on other source roots are resolved, and the graphs are taken
    /// in the order of their source roots.
    pub fn compose(
        sources: SourceRegistry,
        source_aliases: &Table<SourceAlias, SourceRootId>,
        graphs: Vec<&ProjectGraph>,
    ) -> (graph: Result<ProjectGraph, ProjectGraphError>)
        requires
            locals_valid(views(graphs@)),
            links_reach(sources@, value_views(source_aliases@), views(graphs@)),
            composable(views(graphs@)),
        ensures
            outcome(graph) == composed(
                sources@,
                value_views(source_aliases@),
                views(graphs@),
            ),
    {
        let ghost all = views(graphs@);
        let ordered = sort_ranked(graphs);
        proof {
            assert forall|i: int| 0 <= i < views(ordered@).len() implies local_valid(
                #[trigger] views(ordered@)[i],
            ) by {
                let local = views(ordered@)[i];
                assert(views(ordered@).contains(local));
                ranked_same_items::<&ProjectGraph>(all, local);
                let j = choose|j: int| 0 <= j < all.len() && all[j] == local;
                assert(local_valid(all[j]));
            }
        }
        let primary = match find_graph(&ordered, sources.primary_id()) {
            Some(primary) => primary,
            None => {
                return Err(
                    ProjectGraphError::UnconfiguredId {
                        id: sources.primary_id().as_str().to_owned(),
                    },
                );
            },
        };
        match assemble_graphs(&ordered) {
            Ok(assembly) => link_assembly(sources, source_aliases, primary, assembly),
            Err(error) => Err(error),
        }
    }
}

} // verus!
