//! The graph of projects and the dependencies between them.

use crate::config::{Constraints, ConstraintsView, Project, ProjectView};
use crate::expander::{
    alias_views, expand_dependencies, ProjectExpander, ProjectExpanderContext,
};
use crate::graph::{graph_edges, graph_nodes};
use crate::id::{valid_id, Id};
use crate::keys::{project_key_text, ProjectKey, ProjectKeyView};
use crate::order::{outcome, view_of, views};
use crate::path::{components, is_absolute_path, render_path, LogicalPath};
use crate::scopes::{first_cycle, parts_acyclic, ScopedGraph, ScopedView};
use crate::source::{
    canonical, owns_path, qualifies, RegistryView, SourcePathBuf, SourcePathView, SourceRegistry,
    SourceRegistryError, SourceRootId, registry_message,
};
use crate::table::{value_views, Duplicate, Key, Table};
use crate::text::{decimal, join_two, to_decimal};
use vstd::prelude::*;

verus! {

broadcast use {crate::order::group_views, crate::table::value_views_insert};

/// Why the project graph turns a request down.
pub enum ProjectGraphFault {
    MissingFromPath { dir: Seq<char> },
    NoDefaultProject,
    UnconfiguredId { id: Seq<char> },
    InvalidId { id: Seq<char> },
    UnknownDependencySource { project_key: Seq<char>, source_id: Seq<char> },
    RedundantDependencySource { project_key: Seq<char>, source_id: Seq<char> },
    UnknownCrossSourceTarget {
        project_key: Seq<char>,
        source_id: Seq<char>,
        target_id: Seq<char>,
    },
    UnsupportedCrossSourceEdge { source_key: Seq<char>, target_key: Seq<char> },
    WouldCycle { source_id: Seq<char>, target_id: Seq<char> },
    LayerViolation { project_key: Seq<char>, target_key: Seq<char> },
    TagViolation { project_key: Seq<char>, target_key: Seq<char> },
    Path(SourceRegistryError),
}

/// Why the project graph turns a request down.
#[derive(Debug)]
pub enum ProjectGraphError {
    /// No project contains the path.
    MissingFromPath { dir: String },
    /// No default project has been configured.
    NoDefaultProject,
    /// No project or source root with this identifier has been configured.
    UnconfiguredId { id: String },
    /// A text is not an identifier.
    InvalidId { id: String },
    /// A dependency names a source root that is not registered.
    UnknownDependencySource { project_key: String, source_id: String },
    /// A dependency names the source root of its own project.
    RedundantDependencySource { project_key: String, source_id: String },
    /// A dependency names a project that its source root does not have.
    UnknownCrossSourceTarget { project_key: String, source_id: String, target_id: String },
    /// A graph of one source root holds an edge to another.
    UnsupportedCrossSourceEdge { source_key: String, target_key: String },
    /// An edge would close a cycle.
    WouldCycle { source_id: String, target_id: String },
    /// A project depends on a layer that it may not depend on.
    LayerViolation { project_key: String, target_key: String },
    /// A project depends on a project without the tags that it asks for.
    TagViolation { project_key: String, target_key: String },
    /// A path has no place below a source root.
    Path(SourceRegistryError),
}

impl View for ProjectGraphError {
    type V = ProjectGraphFault;

    open spec fn view(&self) -> ProjectGraphFault {
        match self {
            ProjectGraphError::MissingFromPath { dir } => ProjectGraphFault::MissingFromPath {
                dir: dir@,
            },
            ProjectGraphError::NoDefaultProject => ProjectGraphFault::NoDefaultProject,
            ProjectGraphError::UnconfiguredId { id } => ProjectGraphFault::UnconfiguredId { id: id@ },
            ProjectGraphError::InvalidId { id } => ProjectGraphFault::InvalidId { id: id@ },
            ProjectGraphError::UnknownDependencySource { project_key, source_id } =>
                ProjectGraphFault::UnknownDependencySource {
                project_key: project_key@,
                source_id: source_id@,
            },
            ProjectGraphError::RedundantDependencySource { project_key, source_id } =>
                ProjectGraphFault::RedundantDependencySource {
                project_key: project_key@,
                source_id: source_id@,
            },
            ProjectGraphError::UnknownCrossSourceTarget { project_key, source_id, target_id } =>
                ProjectGraphFault::UnknownCrossSourceTarget {
                project_key: project_key@,
                source_id: source_id@,
                target_id: target_id@,
            },
            ProjectGraphError::UnsupportedCrossSourceEdge { source_key, target_key } =>
                ProjectGraphFault::UnsupportedCrossSourceEdge {
                source_key: source_key@,
                target_key: target_key@,
            },
            ProjectGraphError::WouldCycle { source_id, target_id } => ProjectGraphFault::WouldCycle {
                source_id: source_id@,
                target_id: target_id@,
            },
            ProjectGraphError::LayerViolation { project_key, target_key } =>
                ProjectGraphFault::LayerViolation {
                project_key: project_key@,
                target_key: target_key@,
            },
            ProjectGraphError::TagViolation { project_key, target_key } =>
                ProjectGraphFault::TagViolation {
                project_key: project_key@,
                target_key: target_key@,
            },
            ProjectGraphError::Path(error) => ProjectGraphFault::Path(*error),
        }
    }
}

/// What users are told when a request is turned down.
pub open spec fn project_graph_message(error: ProjectGraphError) -> Seq<char> {
    match error {
        ProjectGraphError::MissingFromPath { dir } => "Unable to find a project for the path "@ + dir@ + "."@,
        ProjectGraphError::NoDefaultProject => "No default project has been configured."@,
        ProjectGraphError::UnconfiguredId { id } => "No project has been configured with the identifier or alias "@ + id@ + "."@,
        ProjectGraphError::InvalidId { id } => "Invalid format for "@ + id@ + ", may only contain alpha-numeric characters, dashes (-), slashes (/), underscores (_), and periods (.)."@,
        ProjectGraphError::UnknownDependencySource { project_key, source_id } => "Project "@ + project_key@ + " depends on the unknown source root "@ + source_id@ + "."@,
        ProjectGraphError::RedundantDependencySource { project_key, source_id } => "Project "@ + project_key@ + " names its own source root "@ + source_id@ + " in a dependency."@,
        ProjectGraphError::UnknownCrossSourceTarget { project_key, source_id, target_id } => "Project "@ + project_key@ + " depends on "@ + target_id@ + ", which does not exist in source root "@ + source_id@ + "."@,
        ProjectGraphError::UnsupportedCrossSourceEdge { source_key, target_key } => "Source-local project graph contains a cross-source edge from "@ + source_key@ + " to "@ + target_key@ + "."@,
        ProjectGraphError::WouldCycle { source_id, target_id } => "Unable to create project graph, adding a relationship from "@ + source_id@ + " to "@ + target_id@ + " would introduce a cycle."@,
        ProjectGraphError::LayerViolation { project_key, target_key } => "Layering violation: project "@ + project_key@ + " cannot depend on project "@ + target_key@ + "."@,
        ProjectGraphError::TagViolation { project_key, target_key } => "Tag violation: project "@ + project_key@ + " cannot depend on project "@ + target_key@ + "."@,
        ProjectGraphError::Path(error) => registry_message(error),
    }
}

impl ProjectGraphError {
    /// What the error reports to users.
    pub fn message(&self) -> (text: String)
        ensures
            text@ == project_graph_message(*self),
    {
        match self {
            ProjectGraphError::MissingFromPath { dir } => join_two(
                "Unable to find a project for the path ",
                dir.as_str(),
                ".",
            ),
            ProjectGraphError::NoDefaultProject => "No default project has been configured.".to_owned(),
            ProjectGraphError::UnconfiguredId { id } => join_two(
                "No project has been configured with the identifier or alias ",
                id.as_str(),
                ".",
            ),
            ProjectGraphError::InvalidId { id } => join_two(
                "Invalid format for ",
                id.as_str(),
                ", may only contain alpha-numeric characters, dashes (-), slashes (/), underscores (_), and periods (.).",
            ),
            ProjectGraphError::UnknownDependencySource { project_key, source_id } => {
                let mut text = "Project ".to_owned();
                text.append(project_key.as_str());
                text.append(" depends on the unknown source root ");
                text.append(source_id.as_str());
                text.append(".");
                text
            },
            ProjectGraphError::RedundantDependencySource { project_key, source_id } => {
                let mut text = "Project ".to_owned();
                text.append(project_key.as_str());
                text.append(" names its own source root ");
                text.append(source_id.as_str());
                text.append(" in a dependency.");
                text
            },
            ProjectGraphError::UnknownCrossSourceTarget { project_key, source_id, target_id } => {
                let mut text = "Project ".to_owned();
                text.append(project_key.as_str());
                text.append(" depends on ");
                text.append(target_id.as_str());
                text.append(", which does not exist in source root ");
                text.append(source_id.as_str());
                text.append(".");
                text
            },
            ProjectGraphError::UnsupportedCrossSourceEdge { source_key, target_key } => {
                let mut text = "Source-local project graph contains a cross-source edge from ".to_owned();
                text.append(source_key.as_str());
                text.append(" to ");
                text.append(target_key.as_str());
                text.append(".");
                text
            },
            ProjectGraphError::WouldCycle { source_id, target_id } => {
                let mut text = "Unable to create project graph, adding a relationship from ".to_owned();
                text.append(source_id.as_str());
                text.append(" to ");
                text.append(target_id.as_str());
                text.append(" would introduce a cycle.");
                text
            },
            ProjectGraphError::LayerViolation { project_key, target_key } => {
                let mut text = "Layering violation: project ".to_owned();
                text.append(project_key.as_str());
                text.append(" cannot depend on project ");
                text.append(target_key.as_str());
                text.append(".");
                text
            },
            ProjectGraphError::TagViolation { project_key, target_key } => {
                let mut text = "Tag violation: project ".to_owned();
                text.append(project_key.as_str());
                text.append(" cannot depend on project ");
                text.append(target_key.as_str());
                text.append(".");
                text
            },
            ProjectGraphError::Path(error) => error.message(),
        }
    }
}

/// What the graph knows of the workspace around it.
pub struct ContextView {
    pub registry: RegistryView,
    pub working_dir: Seq<Seq<char>>,
    pub workspace_root: Seq<Seq<char>>,
    pub constraints: ConstraintsView,
}

/// What the graph knows of the workspace around it.
#[derive(Debug)]
pub struct GraphExpanderContext {
    pub sources: SourceRegistry,
    pub working_dir: LogicalPath,
    pub workspace_root: LogicalPath,
    pub constraints: Constraints,
}

impl View for GraphExpanderContext {
    type V = ContextView;

    open spec fn view(&self) -> ContextView {
        ContextView {
            registry: self.sources@,
            working_dir: self.working_dir@,
            workspace_root: self.workspace_root@,
            constraints: self.constraints@,
        }
    }
}

impl Clone for GraphExpanderContext {
    fn clone(&self) -> (copy: Self)
        ensures
            copy@ == self@,
    {
        GraphExpanderContext {
            sources: self.sources.clone(),
            working_dir: self.working_dir.clone(),
            workspace_root: self.workspace_root.clone(),
            constraints: self.constraints.clone(),
        }
    }
}

impl Duplicate for GraphExpanderContext {
    fn duplicate(&self) -> Self {
        self.clone()
    }
}

/// An alias of a project in its source root.
pub struct AliasView {
    pub source: Seq<char>,
    pub alias: Seq<char>,
}

/// An alias of a project in its source root.
#[derive(Debug)]
pub struct AliasKey {
    pub source: SourceRootId,
    pub alias: String,
}

impl View for AliasKey {
    type V = AliasView;

    open spec fn view(&self) -> AliasView {
        AliasView { source: self.source@, alias: self.alias@ }
    }
}

impl Key for AliasKey {
    fn same_key(&self, other: &Self) -> bool {
        self.source.same_key(&other.source) && self.alias == other.alias
    }

    fn copy_key(&self) -> Self {
        AliasKey { source: self.source.clone(), alias: self.alias.clone() }
    }
}

impl Duplicate for ProjectKey {
    fn duplicate(&self) -> Self {
        self.clone()
    }
}

/// A project and its number in the graph.
pub struct ProjectNodeView {
    pub index: usize,
    pub project: ProjectView,
}

/// A project and its number in the graph.
#[derive(Debug)]
pub struct ProjectNode {
    pub index: usize,
    pub project: Project,
}

impl View for ProjectNode {
    type V = ProjectNodeView;

    open spec fn view(&self) -> ProjectNodeView {
        ProjectNodeView { index: self.index, project: self.project@ }
    }
}

impl Duplicate for ProjectNode {
    fn duplicate(&self) -> Self {
        ProjectNode { index: self.index, project: self.project.clone() }
    }
}

/// The graph of projects.
pub struct ProjectGraphView {
    pub context: ContextView,
    pub contexts: Map<Seq<char>, ContextView>,
    pub aliases: Map<AliasView, ProjectKeyView>,
    pub default_key: Option<ProjectKeyView>,
    pub graph: ScopedView,
    pub indexes: Seq<ProjectKeyView>,
    pub nodes: Map<ProjectKeyView, ProjectNodeView>,
}

/// The graph of projects and the dependencies between them.
pub struct ProjectGraph {
    pub context: GraphExpanderContext,
    /// The contexts of the source roots that own the projects.
    pub contexts: Table<SourceRootId, GraphExpanderContext>,
    /// The aliases of the projects in their source roots.
    pub aliases: Table<AliasKey, ProjectKey>,
    /// The key of the default project.
    pub default_key: Option<ProjectKey>,
    /// The dependencies between the numbers of the projects.
    pub graph: ScopedGraph,
    /// The key of the project with each number.
    pub indexes: Vec<ProjectKey>,
    /// The projects by key.
    pub nodes: Table<ProjectKey, ProjectNode>,
}

impl View for ProjectGraph {
    type V = ProjectGraphView;

    open spec fn view(&self) -> ProjectGraphView {
        ProjectGraphView {
            context: self.context@,
            contexts: value_views(self.contexts@),
            aliases: value_views(self.aliases@),
            default_key: view_of(self.default_key),
            graph: self.graph@,
            indexes: views(self.indexes@),
            nodes: value_views(self.nodes@),
        }
    }
}

/// The label of a number: the key of its project, or the number itself.
pub open spec fn index_label(indexes: Seq<ProjectKeyView>, index: usize) -> Seq<char> {
    if index < indexes.len() {
        project_key_text(indexes[index as int])
    } else {
        decimal(index as nat)
    }
}

/// The graph of projects without its dependencies, or with others.
pub open spec fn with_edges(
    graph: ProjectGraphView,
    nodes: nat,
    edges: Seq<(usize, usize, u8)>,
) -> ProjectGraphView {
    ProjectGraphView { graph: ScopedView { nodes, edges }, ..graph }
}

/// The key under which the graph holds a project.
pub open spec fn normal_key(graph: ProjectGraphView, key: ProjectKeyView) -> ProjectKeyView {
    ProjectKeyView { source: canonical(graph.context.registry, key.source), project: key.project }
}

/// The key of the project with an identifier or an alias. An identifier without a
/// project stands for itself.
pub open spec fn resolved_key(
    graph: ProjectGraphView,
    source: Seq<char>,
    id_or_alias: Seq<char>,
) -> Result<ProjectKeyView, ProjectGraphFault> {
    let source = canonical(graph.context.registry, source);
    let candidate = ProjectKeyView { source, project: id_or_alias };
    let alias = AliasView { source, alias: id_or_alias };
    if !valid_id(id_or_alias) {
        Err(ProjectGraphFault::InvalidId { id: id_or_alias })
    } else if !graph.nodes.dom().contains(candidate) && graph.aliases.dom().contains(alias) {
        Ok(graph.aliases[alias])
    } else {
        Ok(candidate)
    }
}

/// The project with a key, as it was configured.
pub open spec fn unexpanded(
    graph: ProjectGraphView,
    key: ProjectKeyView,
) -> Result<ProjectView, ProjectGraphFault> {
    let key = normal_key(graph, key);
    if graph.nodes.dom().contains(key) {
        Ok(graph.nodes[key].project)
    } else {
        Err(ProjectGraphFault::UnconfiguredId { id: project_key_text(key) })
    }
}

/// The aliases of a source root.
pub open spec fn source_aliases(graph: ProjectGraphView, source: Seq<char>) -> Map<
    Seq<char>,
    ProjectKeyView,
> {
    let source = canonical(graph.context.registry, source);
    Map::new(
        |alias: Seq<char>| graph.aliases.dom().contains(AliasView { source, alias }),
        |alias: Seq<char>| graph.aliases[AliasView { source, alias }],
    )
}

/// The project with a key, with its aliases replaced.
pub open spec fn expanded(
    graph: ProjectGraphView,
    key: ProjectKeyView,
) -> Result<ProjectView, ProjectGraphFault> {
    match unexpanded(graph, key) {
        Ok(project) => Ok(
            ProjectView {
                dependencies: expand_dependencies(
                    project.dependencies,
                    source_aliases(graph, key.source),
                    key.source,
                ),
                ..project
            },
        ),
        Err(fault) => Err(fault),
    }
}

/// The expanded project with an identifier or an alias in the primary source root.
pub open spec fn get_project(
    graph: ProjectGraphView,
    id_or_alias: Seq<char>,
) -> Result<ProjectView, ProjectGraphFault> {
    match resolved_key(graph, graph.context.registry.primary, id_or_alias) {
        Err(fault) => Err(fault),
        Ok(key) => if graph.nodes.dom().contains(key) {
            expanded(graph, key)
        } else {
            Err(ProjectGraphFault::UnconfiguredId { id: key.project })
        },
    }
}

/// The expanded project with a key, in the primary source root where the key says so.
pub open spec fn get_project_by_key(
    graph: ProjectGraphView,
    key: ProjectKeyView,
) -> Result<ProjectView, ProjectGraphFault> {
    expanded(graph, normal_key(graph, key))
}

/// The path that a search starts from.
pub open spec fn search_parts(path: Seq<char>) -> Seq<Seq<char>> {
    components(
        if path.len() == 0 {
            "."@
        } else {
            path
        },
    )
}

/// How far below a project a path is, if it is there.
pub open spec fn depth_below(graph: ProjectGraphView, key: ProjectKeyView, search: SourcePathView) -> Option<
    nat,
> {
    let path = search_parts(search.path);
    let root = components(graph.nodes[key].project.source);
    if graph.nodes.dom().contains(key) && key.source == canonical(
        graph.context.registry,
        search.source,
    ) && root.is_prefix_of(path) {
        Some((path.len() - root.len()) as nat)
    } else {
        None
    }
}

/// A project that contains a path, with no project below it that does.
pub open spec fn closest_project(
    graph: ProjectGraphView,
    key: ProjectKeyView,
    search: SourcePathView,
) -> bool {
    depth_below(graph, key, search) is Some && forall|other: ProjectKeyView|
        (#[trigger] depth_below(graph, other, search)) is Some ==> depth_below(graph, key, search)->0
            <= depth_below(graph, other, search)->0
}

/// The first project among some that contains a path, with none among them below it that does.
pub open spec fn search_among(
    graph: ProjectGraphView,
    keys: Seq<ProjectKeyView>,
    search: SourcePathView,
) -> Option<ProjectKeyView>
    decreases keys.len(),
{
    if keys.len() == 0 {
        None
    } else {
        match (
            search_among(graph, keys.drop_last(), search),
            depth_below(graph, keys.last(), search),
        ) {
            (found, None) => found,
            (None, Some(_)) => Some(keys.last()),
            (Some(best), Some(depth)) => if depth < depth_below(graph, best, search)->0 {
                Some(keys.last())
            } else {
                Some(best)
            },
        }
    }
}

impl ProjectGraph {
    /// A graph without projects.
    pub fn new(context: GraphExpanderContext) -> (graph: Self)
        ensures
            graph@ == (ProjectGraphView {
                context: context@,
                contexts: Map::empty().insert(context@.registry.primary, context@),
                aliases: Map::empty(),
                default_key: None,
                graph: ScopedView { nodes: 0, edges: Seq::empty() },
                indexes: Seq::empty(),
                nodes: Map::empty(),
            }),
    {
        let mut contexts: Table<SourceRootId, GraphExpanderContext> = Table::new();
        contexts.insert(context.sources.primary_id().clone(), context.clone());
        proof {
            crate::table::value_views_empty::<Seq<char>, GraphExpanderContext>();
            crate::table::value_views_empty::<AliasView, ProjectKey>();
            crate::table::value_views_empty::<ProjectKeyView, ProjectNode>();
        }
        let indexes: Vec<ProjectKey> = Vec::new();
        assert(views(indexes@) =~= Seq::empty());
        ProjectGraph {
            context,
            contexts,
            aliases: Table::new(),
            default_key: None,
            graph: ScopedGraph::empty(),
            indexes,
            nodes: Table::new(),
        }
    }

    /// The label of a number.
    fn label_index(&self, index: usize) -> (label: String)
        ensures
            label@ == index_label(self@.indexes, index),
    {
        if index < self.indexes.len() {
            self.indexes[index].to_text()
        } else {
            to_decimal(index as u64)
        }
    }

    /// Sets the dependencies of the projects. Cycles within one part are refused,
    /// and then nothing changes; cycles that cross the parts are allowed.
    pub fn set_graph(&mut self, graph: petgraph::Graph<usize, u8, petgraph::Directed, u32>) -> (done:
        Result<(), ProjectGraphError>)
        ensures
            match done {
                Ok(()) => parts_acyclic(graph_edges(graph)) && final(self)@ == with_edges(
                    old(self)@,
                    graph_nodes(graph),
                    graph_edges(graph),
                ),
                Err(error) => final(self)@ == old(self)@ && exists|i: int|
                    #[trigger] first_cycle(graph_edges(graph), i) && error@
                        == (ProjectGraphFault::WouldCycle {
                        source_id: index_label(old(self)@.indexes, graph_edges(graph)[i].0),
                        target_id: index_label(old(self)@.indexes, graph_edges(graph)[i].1),
                    }),
            },
    {
        match ScopedGraph::split(graph) {
            Ok(graph) => {
                self.graph = graph;
                Ok(())
            },
            Err(ends) => Err(
                ProjectGraphError::WouldCycle {
                    source_id: self.label_index(ends.0),
                    target_id: self.label_index(ends.1),
                },
            ),
        }
    }

    /// The aliases of the primary source root, and the projects that they name.
    pub fn aliases(&self) -> (aliases: Table<String, ProjectKey>)
        ensures
            alias_views(aliases@) == source_aliases(self@, self@.context.registry.primary),
    {
        self.aliases_for_source(self.context.sources.primary_id())
    }

    /// The aliases of a source root, and the projects that they name.
    pub fn aliases_for_source(&self, source_id: &SourceRootId) -> (aliases: Table<String, ProjectKey>)
        ensures
            alias_views(aliases@) == source_aliases(self@, source_id@),
    {
        let source = self.canonical_source_id(source_id);
        let ghost target = source_aliases(self@, source_id@);
        let n: usize = self.aliases.len();
        let mut out: Table<String, ProjectKey> = Table::new();
        let mut i: usize = 0;
        while i < n
            invariant
                n == self.aliases.keys().len(),
                i <= n,
                source@ == canonical(self@.context.registry, source_id@),
                forall|alias: Seq<char>| #[trigger]
                    out@.dom().contains(alias) <==> self.aliases.keys().take(i as int).contains(
                        AliasView { source: source@, alias },
                    ),
                forall|alias: Seq<char>|
                    out@.dom().contains(alias) ==> #[trigger] out@[alias]@ == self.aliases@[AliasView {
                        source: source@,
                        alias,
                    }]@,
            decreases n - i,
        {
            let key = self.aliases.key_at(i);
            let ghost taken = self.aliases.keys().take(i as int);
            let ghost next = self.aliases.keys().take(i + 1);
            proof {
                assert(next =~= taken.push(key@));
                assert forall|x: AliasView| #[trigger] next.contains(x) <==> (taken.contains(x) || x
                    == key@) by {
                    if taken.contains(x) {
                        let j = choose|j: int| 0 <= j < taken.len() && taken[j] == x;
                        assert(next[j] == x);
                    }
                    if x == key@ {
                        assert(next[i as int] == x);
                    }
                    if next.contains(x) && x != key@ {
                        let j = choose|j: int| 0 <= j < next.len() && next[j] == x;
                        assert(taken[j] == x);
                    }
                }
            }
            if key.source.same_key(source) {
                assert(key@ == AliasView { source: source@, alias: key.alias@ });
                out.insert(key.alias.clone(), self.aliases.value_at(i).clone());
            }
            i = i + 1;
        }
        proof {
            assert(self.aliases.keys().take(i as int) =~= self.aliases.keys());
            assert forall|alias: Seq<char>| alias_views(out@).dom().contains(alias)
                <==> target.dom().contains(alias) by {
                assert(self.aliases.keys().contains(AliasView { source: source@, alias })
                    <==> self.aliases@.dom().contains(AliasView { source: source@, alias }));
                assert(out@.dom().contains(alias) <==> self.aliases.keys().contains(
                    AliasView { source: source@, alias },
                ));
            }
            assert(alias_views(out@) =~= target);
        }
        out
    }

    /// The identifier under which a source root is registered.
    fn canonical_source_id<'a>(&'a self, source_id: &'a SourceRootId) -> (id: &'a SourceRootId)
        ensures
            id@ == canonical(self@.context.registry, source_id@),
    {
        if source_id.is_primary_alias() {
            self.context.sources.primary_id()
        } else {
            source_id
        }
    }

    /// The key under which the graph holds a project.
    pub fn normalize_key(&self, key: &ProjectKey) -> (normal: ProjectKey)
        ensures
            normal@ == normal_key(self@, key@),
    {
        let id = key.project_id().clone();
        match ProjectKey::new(self.canonical_source_id(key.source_id()).clone(), id) {
            Ok(normal) => normal,
            Err(_) => {
                assert(false);
                key.clone()
            },
        }
    }

    /// The key of the project with an identifier or an alias in a source root.
    pub fn resolve_key(&self, source_id: &SourceRootId, id_or_alias: &str) -> (key: Result<
        ProjectKey,
        ProjectGraphError,
    >)
        ensures
            outcome(key) == resolved_key(self@, source_id@, id_or_alias@),
    {
        let source = self.canonical_source_id(source_id);
        let candidate = match ProjectKey::new(source.clone(), Id::raw(id_or_alias)) {
            Ok(candidate) => candidate,
            Err(_) => {
                return Err(ProjectGraphError::InvalidId { id: id_or_alias.to_owned() });
            },
        };
        if self.nodes.contains(&candidate) {
            return Ok(candidate);
        }
        let alias = AliasKey { source: source.clone(), alias: id_or_alias.to_owned() };
        match self.aliases.get(&alias) {
            Some(key) => Ok(key.clone()),
            None => Ok(candidate),
        }
    }

    /// The identifier of the project with an identifier or an alias in the primary
    /// source root. A text that is neither stands for itself.
    pub fn resolve_id(&self, id_or_alias: &str) -> (id: Id)
        ensures
            id@ == (match resolved_key(self@, self@.context.registry.primary, id_or_alias@) {
                Ok(key) => key.project,
                Err(_) => id_or_alias@,
            }),
    {
        match self.resolve_key(self.context.sources.primary_id(), id_or_alias) {
            Ok(key) => key.project_id().clone(),
            Err(_) => Id::raw(id_or_alias),
        }
    }

    /// The project with an identifier or an alias, as it was configured.
    pub fn get_unexpanded(&self, id_or_alias: &str) -> (project: Result<
        &Project,
        ProjectGraphError,
    >)
        ensures
            outcome(project) == (match resolved_key(
                self@,
                self@.context.registry.primary,
                id_or_alias@,
            ) {
                Err(fault) => Err::<ProjectView, ProjectGraphFault>(fault),
                Ok(key) => if self@.nodes.dom().contains(key) {
                    Ok(self@.nodes[key].project)
                } else {
                    Err(ProjectGraphFault::UnconfiguredId { id: key.project })
                },
            }),
    {
        let key = match self.resolve_key(self.context.sources.primary_id(), id_or_alias) {
            Ok(key) => key,
            Err(error) => {
                return Err(error);
            },
        };
        match self.nodes.get(&key) {
            Some(node) => Ok(&node.project),
            None => Err(
                ProjectGraphError::UnconfiguredId { id: key.project_id().as_str().to_owned() },
            ),
        }
    }

    /// The project with a key, as it was configured.
    pub fn get_unexpanded_by_key(&self, key: &ProjectKey) -> (project: Result<
        &Project,
        ProjectGraphError,
    >)
        ensures
            outcome(project) == unexpanded(self@, key@),
    {
        let key = self.normalize_key(key);
        match self.nodes.get(&key) {
            Some(node) => Ok(&node.project),
            None => Err(ProjectGraphError::UnconfiguredId { id: key.to_text() }),
        }
    }

    /// The project with a key, with its aliases replaced.
    fn internal_get(&self, key: &ProjectKey) -> (project: Result<Project, ProjectGraphError>)
        ensures
            outcome(project) == expanded(self@, key@),
    {
        let project = match self.get_unexpanded_by_key(key) {
            Ok(project) => project,
            Err(error) => {
                return Err(error);
            },
        };
        let expander = ProjectExpander::new(
            ProjectExpanderContext {
                aliases: self.aliases_for_source(key.source_id()),
                source_id: key.source_id(),
            },
        );
        Ok(expander.expand(project))
    }

    /// The expanded project with an identifier or an alias.
    pub fn get(&self, id_or_alias: &str) -> (project: Result<Project, ProjectGraphError>)
        ensures
            outcome(project) == get_project(self@, id_or_alias@),
    {
        let key = match self.resolve_key(self.context.sources.primary_id(), id_or_alias) {
            Ok(key) => key,
            Err(error) => {
                return Err(error);
            },
        };
        if !self.nodes.contains(&key) {
            return Err(
                ProjectGraphError::UnconfiguredId { id: key.project_id().as_str().to_owned() },
            );
        }
        self.internal_get(&key)
    }

    /// The expanded project with a key.
    pub fn get_by_key(&self, key: &ProjectKey) -> (project: Result<Project, ProjectGraphError>)
        ensures
            outcome(project) == get_project_by_key(self@, key@),
    {
        let key = self.normalize_key(key);
        self.internal_get(&key)
    }

    /// All projects, expanded.
    pub fn get_all(&self) -> (projects: Result<Vec<Project>, ProjectGraphError>)
        ensures
            match projects {
                Ok(projects) => {
                    &&& projects@.len() == self.nodes.keys().len()
                    &&& forall|i: int|
                        0 <= i < projects@.len() ==> expanded(
                            self@,
                            #[trigger] self.nodes.keys()[i],
                        ) == Ok::<ProjectView, ProjectGraphFault>(projects@[i]@)
                },
                Err(error) => exists|i: int|
                    {
                        &&& 0 <= i < self.nodes.keys().len()
                        &&& expanded(self@, #[trigger] self.nodes.keys()[i]) == Err::<
                            ProjectView,
                            ProjectGraphFault,
                        >(error@)
                        &&& forall|j: int|
                            0 <= j < i ==> expanded(self@, #[trigger] self.nodes.keys()[j]) is Ok
                    },
            },
    {
        let n: usize = self.nodes.len();
        let mut all: Vec<Project> = Vec::new();
        let mut i: usize = 0;
        while i < n
            invariant
                n == self.nodes.keys().len(),
                i <= n,
                all@.len() == i,
                forall|j: int|
                    0 <= j < i ==> expanded(self@, #[trigger] self.nodes.keys()[j]) == Ok::<
                        ProjectView,
                        ProjectGraphFault,
                    >(all@[j]@),
            decreases n - i,
        {
            let key = self.nodes.key_at(i);
            match self.internal_get(key) {
                Ok(project) => {
                    all.push(project);
                },
                Err(error) => {
                    assert(expanded(self@, self.nodes.keys()[i as int]) == Err::<
                        ProjectView,
                        ProjectGraphFault,
                    >(error@));
                    return Err(error);
                },
            }
            i = i + 1;
        }
        Ok(all)
    }

    /// All projects, as they were configured.
    pub fn get_all_unexpanded(&self) -> (projects: Vec<&Project>)
        ensures
            projects@.len() == self.nodes.keys().len(),
            forall|i: int|
                0 <= i < projects@.len() ==> (#[trigger] projects@[i])@
                    == self@.nodes[self.nodes.keys()[i]].project,
    {
        let n: usize = self.nodes.len();
        let mut all: Vec<&Project> = Vec::new();
        let mut i: usize = 0;
        while i < n
            invariant
                n == self.nodes.keys().len(),
                i <= n,
                all@.len() == i,
                forall|j: int|
                    0 <= j < i ==> (#[trigger] all@[j])@ == self@.nodes[self.nodes.keys()[j]].project,
            decreases n - i,
        {
            all.push(&self.nodes.value_at(i).project);
            i = i + 1;
        }
        all
    }

    /// The default project, looked up by its identifier in the primary source root.
    pub fn get_default(&self) -> (project: Result<Project, ProjectGraphError>)
        ensures
            outcome(project) == (match self@.default_key {
                Some(key) => get_project(self@, key.project),
                None => Err(ProjectGraphFault::NoDefaultProject),
            }),
    {
        match &self.default_key {
            Some(key) => self.get(key.project_id().as_str()),
            None => Err(ProjectGraphError::NoDefaultProject),
        }
    }

    /// The default project, looked up by its key.
    pub fn get_default_by_key(&self) -> (project: Result<Project, ProjectGraphError>)
        ensures
            outcome(project) == (match self@.default_key {
                Some(key) => get_project_by_key(self@, key),
                None => Err(ProjectGraphFault::NoDefaultProject),
            }),
    {
        match &self.default_key {
            Some(key) => self.get_by_key(key),
            None => Err(ProjectGraphError::NoDefaultProject),
        }
    }

    /// The key of the project that contains a path, where no project below it does.
    fn internal_search(&self, search: &SourcePathBuf) -> (key: Result<
        ProjectKey,
        ProjectGraphError,
    >)
        ensures
            search_among(self@, self.nodes.keys(), search@) == (match key {
                Ok(key) => Some(key@),
                Err(_) => None,
            }),
            match key {
                Ok(key) => closest_project(self@, key@, search@),
                Err(error) => {
                    &&& error@ == (ProjectGraphFault::MissingFromPath {
                        dir: if search@.path.len() == 0 {
                            "."@
                        } else {
                            search@.path
                        },
                    })
                    &&& forall|key: ProjectKeyView|
                        (#[trigger] depth_below(self@, key, search@)) is None
                },
            },
    {
        let source = self.canonical_source_id(&search.source);
        let text = if search.path.as_str().is_empty() {
            ".".to_owned()
        } else {
            search.path.clone()
        };
        let path = LogicalPath::parse(text.as_str());
        let n: usize = self.nodes.len();
        let mut best: Option<usize> = None;
        let mut remaining: usize = 0;
        let mut i: usize = 0;
        assert(self.nodes.keys().take(0) =~= Seq::empty());
        while i < n
            invariant
                n == self.nodes.keys().len(),
                i <= n,
                path@ == search_parts(search@.path),
                source@ == canonical(self@.context.registry, search@.source),
                search_among(self@, self.nodes.keys().take(i as int), search@) == (match best {
                    Some(b) => Some(self.nodes.keys()[b as int]),
                    None => None,
                }),
                match best {
                    Some(b) => {
                        &&& b < i
                        &&& depth_below(self@, self.nodes.keys()[b as int], search@) == Some(
                            remaining as nat,
                        )
                        &&& forall|j: int|
                            0 <= j < i ==> ((#[trigger] depth_below(
                                self@,
                                self.nodes.keys()[j],
                                search@,
                            )) is Some ==> remaining <= depth_below(
                                self@,
                                self.nodes.keys()[j],
                                search@,
                            )->0)
                    },
                    None => forall|j: int|
                        0 <= j < i ==> (#[trigger] depth_below(
                            self@,
                            self.nodes.keys()[j],
                            search@,
                        )) is None,
                },
            decreases n - i,
        {
            let key = self.nodes.key_at(i);
            let node = self.nodes.value_at(i);
            let root = LogicalPath::parse(node.project.source.as_str());
            proof {
                assert(self@.nodes.dom().contains(key@));
                assert(self@.nodes[key@] == node@);
                let next = self.nodes.keys().take(i + 1);
                assert(next.drop_last() =~= self.nodes.keys().take(i as int));
                assert(next.last() == key@);
            }
            if key.source_id().same_key(source) && path.starts_with(&root) {
                let depth: usize = path.count() - root.count();
                if best.is_none() || depth < remaining {
                    remaining = depth;
                    best = Some(i);
                }
            }
            i = i + 1;
        }
        assert(self.nodes.keys().take(i as int) =~= self.nodes.keys());
        match best {
            Some(b) => {
                let key = self.nodes.key_at(b).clone();
                proof {
                    assert forall|other: ProjectKeyView|
                        (#[trigger] depth_below(self@, other, search@)) is Some implies depth_below(
                        self@,
                        key@,
                        search@,
                    )->0 <= depth_below(self@, other, search@)->0 by {
                        assert(self@.nodes.dom().contains(other));
                        assert(self.nodes.keys().contains(other));
                        let j = choose|j: int| 0 <= j < n && self.nodes.keys()[j] == other;
                        assert(depth_below(self@, self.nodes.keys()[j], search@) is Some);
                    }
                }
                Ok(key)
            },
            None => {
                proof {
                    assert forall|key: ProjectKeyView| (#[trigger] depth_below(
                        self@,
                        key,
                        search@,
                    )) is None by {
                        if depth_below(self@, key, search@) is Some {
                            assert(self@.nodes.dom().contains(key));
                            assert(self.nodes.keys().contains(key));
                            let j = choose|j: int| 0 <= j < n && self.nodes.keys()[j] == key;
                            assert(depth_below(self@, self.nodes.keys()[j], search@) is None);
                        }
                    }
                }
                Err(ProjectGraphError::MissingFromPath { dir: text })
            },
        }
    }

    /// The project that contains a source-qualified path.
    pub fn get_from_source_path(&self, source_path: &SourcePathBuf) -> (project: Result<
        Project,
        ProjectGraphError,
    >)
        ensures
            found_project(self@, source_path@, outcome(project)),
            search_among(self@, self.nodes.keys(), source_path@) matches Some(key) ==> outcome(project)
                == get_project_by_key(self@, key),
    {
        match self.internal_search(source_path) {
            Ok(key) => {
                let project = self.get_by_key(&key);
                assert(closest_project(self@, key@, source_path@));
                project
            },
            Err(error) => Err(error),
        }
    }

    /// The project that contains a file-system path. Relative paths are below the
    /// primary source root, and without a path the search starts at the working
    /// directory.
    pub fn get_from_path(&self, starting_file: Option<&LogicalPath>) -> (project: Result<
        Project,
        ProjectGraphError,
    >)
        ensures
            found_from_path(
                self@,
                match starting_file {
                    Some(file) => file@,
                    None => self@.context.working_dir,
                },
                outcome(project),
            ),
    {
        let current = match starting_file {
            Some(file) => file,
            None => &self.context.working_dir,
        };
        let source_path = if current.is_absolute() {
            match self.context.sources.qualify(current) {
                Ok(path) => {
                    assert(qualifies(self@.context.registry, current@, path@));
                    path
                },
                Err(error) => {
                    let _ = self.context.sources.primary_id();
                    proof {
                        let clean = crate::path::clean_path(current@);
                        let registry = self@.context.registry;
                        assert forall|path: SourcePathView| !#[trigger] qualifies(
                            registry,
                            current@,
                            path,
                        ) by {
                            if qualifies(registry, current@, path) {
                                assert(owns_path(registry, path.source, clean));
                                if error is NonRelativePath {
                                    let id = choose|id: Seq<char>|
                                        #[trigger] owns_path(registry, id, clean)
                                            && is_absolute_path(
                                            clean.skip(registry.roots[id].len() as int),
                                        );
                                    crate::source::owner_is_unique(registry, clean, id, path.source);
                                }
                            }
                        }
                    }
                    assert(cannot_qualify(self@.context.registry, current@, error));
                    return Err(ProjectGraphError::Path(error));
                },
            }
        } else {
            SourcePathBuf::new(
                self.context.sources.primary_id().clone(),
                current.to_text().as_str(),
            )
        };
        self.get_from_source_path(&source_path)
    }
}

/// Why an absolute path is below no source root: no source root contains it, or what is left
/// of it behind the one that does is absolute too.
pub open spec fn cannot_qualify(
    registry: RegistryView,
    current: Seq<Seq<char>>,
    error: SourceRegistryError,
) -> bool {
    let clean = crate::path::clean_path(current);
    match error {
        SourceRegistryError::UnqualifiedPath { path } => path@ == clean && forall|id: Seq<char>|
            !#[trigger] owns_path(registry, id, clean),
        SourceRegistryError::NonRelativePath { path } => path@ == clean && exists|id: Seq<char>|
            #[trigger] owns_path(registry, id, clean) && is_absolute_path(
                clean.skip(registry.roots[id].len() as int),
            ),
        _ => false,
    }
}

/// What a search from a file-system path gives. Absolute paths are qualified first,
/// and relative paths are below the primary source root.
pub open spec fn found_from_path(
    graph: ProjectGraphView,
    current: Seq<Seq<char>>,
    result: Result<ProjectView, ProjectGraphFault>,
) -> bool {
    if is_absolute_path(current) {
        ||| exists|path: SourcePathView|
            #[trigger] qualifies(graph.context.registry, current, path) && found_project(
                graph,
                path,
                result,
            )
        ||| {
            &&& exists|error: SourceRegistryError|
                result == Err::<ProjectView, ProjectGraphFault>(ProjectGraphFault::Path(error))
                    && #[trigger] cannot_qualify(graph.context.registry, current, error)
            &&& forall|path: SourcePathView|
                !#[trigger] qualifies(graph.context.registry, current, path)
        }
    } else {
        found_project(
            graph,
            SourcePathView {
                source: graph.context.registry.primary,
                path: render_path(current),
            },
            result,
        )
    }
}

/// What a search below a source root gives: the closest project, or that there is none.
pub open spec fn found_project(
    graph: ProjectGraphView,
    path: SourcePathView,
    result: Result<ProjectView, ProjectGraphFault>,
) -> bool {
    ||| exists|key: ProjectKeyView|
        #[trigger] closest_project(graph, key, path) && result == get_project_by_key(graph, key)
    ||| {
        &&& result == Err::<ProjectView, ProjectGraphFault>(
            ProjectGraphFault::MissingFromPath {
                dir: if path.path.len() == 0 {
                    "."@
                } else {
                    path.path
                },
            },
        )
        &&& forall|key: ProjectKeyView| (#[trigger] depth_below(graph, key, path)) is None
    }
}

} // verus!
