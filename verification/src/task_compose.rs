//! Composition of the task graphs of several source roots into one.

use crate::config::DependencyScope;
use crate::dag::{DagView, DependencyDag};
use crate::fold::{try_fold, try_fold_end, try_fold_fails, try_fold_step};
use crate::focus::last_edge_exists;
use crate::graph::{edges_within, has_edge};
use crate::keys::{
    task_key_less, task_key_less_total, task_key_less_transitive, task_key_text, ProjectKey,
    ProjectKeyView, TaskKey, TaskKeyView,
};
use crate::order::{
    arranged, outcome, ranked, ranked_arranges, ranked_ignores_order, ranked_is_permutation,
    ranked_same_items, ranks_apart, sort_ranked, total_rank, view_of, views, Ranked,
};
use crate::project_graph::{
    normal_key, unexpanded, ContextView, GraphExpanderContext, ProjectGraph, ProjectGraphView,
};
use crate::project_queries::{graph_valid, scope_views, scoped_dependencies};
use crate::source::SourceRootId;
use crate::table::{value_views, Key, Table};
use crate::task::{
    dependency_fault, target_text, validate_task_dependency, ProjectSelector, TargetProjectScope,
    TargetTaskScope, Task, TaskDependencyConfig, TaskDependencyType, TaskDependencyValidationError,
    TaskDependencyView, TaskSelector, TaskView,
};
use crate::task_graph::{
    link_task, task_graph_valid, TaskGraph, TaskGraphError, TaskGraphFault, TaskGraphView, TaskNode, TaskNodeView,
};
use crate::text::{
    text_before, text_less, text_less_irreflexive, text_less_total, text_less_transitive,
};
use std::sync::Arc;
use vstd::prelude::*;
use vstd::seq_lib::lemma_seq_contains_after_push;

verus! {

broadcast use {crate::order::group_views, crate::table::value_views_insert};

impl<'a> Ranked for &'a TaskGraph {
    open spec fn before(a: TaskGraphView, b: TaskGraphView) -> bool {
        text_less(a.context.registry.primary, b.context.registry.primary)
    }

    proof fn before_irreflexive(a: TaskGraphView) {
        text_less_irreflexive(a.context.registry.primary);
    }

    proof fn before_transitive(a: TaskGraphView, b: TaskGraphView, c: TaskGraphView) {
        text_less_transitive(
            a.context.registry.primary,
            b.context.registry.primary,
            c.context.registry.primary,
        );
    }

    proof fn before_total(a: TaskGraphView, b: TaskGraphView, c: TaskGraphView) {
        let x = a.context.registry.primary;
        let y = b.context.registry.primary;
        let z = c.context.registry.primary;
        text_less_total(x, z);
        if text_less(z, x) {
            text_less_transitive(z, x, y);
        }
    }

    fn is_before(&self, other: &Self) -> bool {
        text_before(
            self.context.sources.primary_id().as_str(),
            other.context.sources.primary_id().as_str(),
        )
    }
}

/// A dependency between two tasks.
pub struct TaskEdgeView {
    pub source: TaskKeyView,
    pub target: TaskKeyView,
    pub label: u8,
}

/// A dependency between two tasks.
pub struct TaskEdge {
    pub source: TaskKey,
    pub target: TaskKey,
    pub label: u8,
}

impl View for TaskEdge {
    type V = TaskEdgeView;

    open spec fn view(&self) -> TaskEdgeView {
        TaskEdgeView { source: self.source@, target: self.target@, label: self.label }
    }
}

/// Dependencies are ordered by their ends.
pub open spec fn task_edge_less(a: TaskEdgeView, b: TaskEdgeView) -> bool {
    task_key_less(a.source, b.source) || (a.source == b.source && task_key_less(a.target, b.target))
}

impl Ranked for TaskEdge {
    open spec fn before(a: TaskEdgeView, b: TaskEdgeView) -> bool {
        task_edge_less(a, b)
    }

    proof fn before_irreflexive(a: TaskEdgeView) {
        <TaskKey as Ranked>::before_irreflexive(a.source);
        <TaskKey as Ranked>::before_irreflexive(a.target);
    }

    proof fn before_transitive(a: TaskEdgeView, b: TaskEdgeView, c: TaskEdgeView) {
        if task_key_less(a.source, b.source) && task_key_less(b.source, c.source) {
            task_key_less_transitive(a.source, b.source, c.source);
        } else if a.source == b.source && b.source == c.source {
            task_key_less_transitive(a.target, b.target, c.target);
        }
    }

    proof fn before_total(a: TaskEdgeView, b: TaskEdgeView, c: TaskEdgeView) {
        task_key_less_total(a.source, c.source);
        task_key_less_total(a.target, c.target);
        if task_key_less(c.source, a.source) && task_key_less(a.source, b.source) {
            task_key_less_transitive(c.source, a.source, b.source);
        }
        if task_key_less(c.target, a.target) && task_key_less(a.target, b.target) {
            task_key_less_transitive(c.target, a.target, b.target);
        }
    }

    fn is_before(&self, other: &Self) -> bool {
        self.source.is_before(&other.source) || (self.source.same_key(&other.source)
            && self.target.is_before(&other.target))
    }
}

/// What the graphs of the source roots hold together.
pub struct TaskAssemblyView {
    pub indexes: Seq<TaskKeyView>,
    pub nodes: Map<TaskKeyView, TaskNodeView>,
    pub contexts: Map<Seq<char>, ContextView>,
    pub edges: Seq<TaskEdgeView>,
}

/// What the graphs of the source roots hold together.
pub struct TaskAssembly {
    pub indexes: Vec<TaskKey>,
    pub nodes: Table<TaskKey, TaskNode>,
    pub contexts: Table<SourceRootId, GraphExpanderContext>,
    pub edges: Vec<TaskEdge>,
}

impl View for TaskAssembly {
    type V = TaskAssemblyView;

    open spec fn view(&self) -> TaskAssemblyView {
        TaskAssemblyView {
            indexes: views(self.indexes@),
            nodes: value_views(self.nodes@),
            contexts: value_views(self.contexts@),
            edges: views(self.edges@),
        }
    }
}

/// Nothing.
pub open spec fn empty_tasks() -> TaskAssemblyView {
    TaskAssemblyView {
        indexes: Seq::empty(),
        nodes: Map::empty(),
        contexts: Map::empty(),
        edges: Seq::empty(),
    }
}

/// One more task behind the others. No task may come twice.
pub open spec fn add_task(nodes: Map<TaskKeyView, TaskNodeView>) -> spec_fn(
    TaskAssemblyView,
    TaskKeyView,
) -> Result<TaskAssemblyView, TaskGraphFault> {
    |assembly: TaskAssemblyView, key: TaskKeyView|
        if assembly.nodes.dom().contains(key) {
            Err(TaskGraphFault::DuplicateTaskKey { key: task_key_text(key) })
        } else {
            Ok(
                TaskAssemblyView {
                    indexes: assembly.indexes.push(key),
                    nodes: assembly.nodes.insert(
                        key,
                        TaskNodeView {
                            index: assembly.indexes.len() as usize,
                            task: nodes[key].task,
                        },
                    ),
                    ..assembly
                },
            )
        }
}

/// One more edge behind the others. An edge that leads to another source root is
/// refused.
pub open spec fn add_task_edge(indexes: Seq<TaskKeyView>) -> spec_fn(
    TaskAssemblyView,
    (usize, usize, u8),
) -> Result<TaskAssemblyView, TaskGraphFault> {
    |assembly: TaskAssemblyView, edge: (usize, usize, u8)|
        {
            let source = indexes[edge.0 as int];
            let target = indexes[edge.1 as int];
            if source.project.source != target.project.source {
                Err(
                    TaskGraphFault::UnsupportedCrossSourceEdge {
                        source_key: task_key_text(source),
                        target_key: task_key_text(target),
                    },
                )
            } else {
                Ok(
                    TaskAssemblyView {
                        edges: assembly.edges.push(TaskEdgeView { source, target, label: edge.2 }),
                        ..assembly
                    },
                )
            }
        }
}

/// The tasks and edges of one source root behind the others.
pub open spec fn add_tasks_of(assembly: TaskAssemblyView, local: TaskGraphView) -> Result<
    TaskAssemblyView,
    TaskGraphFault,
> {
    let known = TaskAssemblyView {
        contexts: assembly.contexts.insert(local.context.registry.primary, local.context),
        ..assembly
    };
    match try_fold(arranged::<TaskKey>(local.nodes.dom()), known, add_task(local.nodes)) {
        Err(fault) => Err(fault),
        Ok(more) => try_fold(local.graph.edges, more, add_task_edge(local.indexes)),
    }
}

/// One more source root behind the others.
pub open spec fn add_source() -> spec_fn(TaskAssemblyView, TaskGraphView) -> Result<
    TaskAssemblyView,
    TaskGraphFault,
> {
    |assembly: TaskAssemblyView, local: TaskGraphView| add_tasks_of(assembly, local)
}

/// What the graphs of all source roots hold together.
pub open spec fn assemble_tasks(graphs: Seq<TaskGraphView>) -> Result<
    TaskAssemblyView,
    TaskGraphFault,
> {
    try_fold(graphs, empty_tasks(), add_source())
}

/// One more dependency in the graph.
pub open spec fn link_edge(nodes: Map<TaskKeyView, TaskNodeView>) -> spec_fn(
    Seq<(usize, usize, u8)>,
    TaskEdgeView,
) -> Result<Seq<(usize, usize, u8)>, TaskGraphFault> {
    |edges: Seq<(usize, usize, u8)>, edge: TaskEdgeView|
        match link_task(edges, nodes[edge.source].index, nodes[edge.target].index, edge.label) {
            Some(linked) => Ok(linked),
            None => Err(
                TaskGraphFault::WouldCycle {
                    source_target: task_key_text(edge.source),
                    target_target: task_key_text(edge.target),
                },
            ),
        }
}

/// Dependencies in the graph, in order.
pub open spec fn link_edges(
    nodes: Map<TaskKeyView, TaskNodeView>,
    edges: Seq<(usize, usize, u8)>,
    items: Seq<TaskEdgeView>,
) -> Result<Seq<(usize, usize, u8)>, TaskGraphFault> {
    try_fold(ranked::<TaskEdge>(items), edges, link_edge(nodes))
}

/// The scope in which a target selects the dependencies of a project, if it does: any
/// scope, or one.
pub open spec fn dependency_selector(selector: ProjectSelector) -> Option<Option<DependencyScope>> {
    match selector {
        ProjectSelector::Deps => Some(None),
        ProjectSelector::DepsOf(scope) => Some(Some(scope)),
        _ => None,
    }
}

/// A project is among dependencies in a scope.
pub open spec fn depends_in(
    dependencies: Seq<(ProjectKeyView, DependencyScope)>,
    required: Option<DependencyScope>,
    project: ProjectKeyView,
) -> bool {
    exists|i: int|
        0 <= i < dependencies.len() && (#[trigger] dependencies[i]).0 == project && (required is None
            || required == Some(dependencies[i].1))
}

/// A target selects a task of a project.
pub open spec fn selects_task(selector: TaskSelector, task: TaskView) -> bool {
    match selector {
        TaskSelector::Id(id) => task.id == id,
        TaskSelector::Tag(tag) => task.tags.contains(tag),
    }
}

/// The tasks that a dependency on the projects that a project depends on selects.
pub open spec fn selected_tasks(
    nodes: Map<TaskKeyView, TaskNodeView>,
    dependencies: Seq<(ProjectKeyView, DependencyScope)>,
    required: Option<DependencyScope>,
    selector: TaskSelector,
) -> Set<TaskKeyView> {
    Set::new(
        |key: TaskKeyView|
            nodes.dom().contains(key) && depends_in(dependencies, required, key.project)
                && selects_task(selector, nodes[key].task),
    )
}

/// The fault of a dependency that is not allowed.
pub open spec fn requirement_fault(
    error: TaskDependencyValidationError,
    dep: Seq<char>,
    task: Seq<char>,
) -> TaskGraphFault {
    match error {
        TaskDependencyValidationError::AllowFailure =>
            TaskGraphFault::AllowFailureDepRequirement { dep, task },
        TaskDependencyValidationError::RunInCi => TaskGraphFault::RunInCiDepRequirement {
            dep,
            task,
        },
        TaskDependencyValidationError::Persistent => TaskGraphFault::PersistentDepRequirement {
            dep,
            task,
        },
    }
}

/// One more task that a dependency selects.
pub open spec fn add_selected(
    nodes: Map<TaskKeyView, TaskNodeView>,
    source: TaskKeyView,
    label: u8,
) -> spec_fn(Seq<TaskEdgeView>, TaskKeyView) -> Result<Seq<TaskEdgeView>, TaskGraphFault> {
    |edges: Seq<TaskEdgeView>, target: TaskKeyView|
        match dependency_fault(nodes[source].task.options, nodes[target].task.options) {
            Some(error) => Err(
                requirement_fault(error, task_key_text(target), task_key_text(source)),
            ),
            None => Ok(edges.push(TaskEdgeView { source, target, label })),
        }
}

/// The dependencies of a task with those that one of its configured dependencies
/// selects among the projects that its project depends on.
pub open spec fn add_configured(
    projects: ProjectGraphView,
    nodes: Map<TaskKeyView, TaskNodeView>,
    source: TaskKeyView,
) -> spec_fn(Seq<TaskEdgeView>, TaskDependencyView) -> Result<Seq<TaskEdgeView>, TaskGraphFault> {
    |edges: Seq<TaskEdgeView>, dep: TaskDependencyView|
        match dependency_selector(dep.target.project) {
            None => Ok(edges),
            Some(required) => match unexpanded(projects, source.project) {
                Err(fault) => Err(TaskGraphFault::Project(fault)),
                Ok(_) => {
                    let dependencies = scoped_dependencies(
                        projects,
                        projects.graph.edges,
                        projects.nodes[normal_key(projects, source.project)].index,
                    );
                    let matches = arranged::<TaskKey>(
                        selected_tasks(nodes, dependencies, required, dep.target.task),
                    );
                    if matches.len() == 0 && dep.optional == Some(false) {
                        Err(
                            TaskGraphFault::UnknownDepTargetParentScope {
                                dep: target_text(dep.target),
                                task: task_key_text(source),
                            },
                        )
                    } else {
                        try_fold(
                            matches,
                            edges,
                            add_selected(
                                nodes,
                                source,
                                if dep.optional == Some(true) {
                                    0
                                } else {
                                    1
                                },
                            ),
                        )
                    }
                },
            },
        }
}

/// The dependencies of one more task.
pub open spec fn add_task_dependencies(
    projects: ProjectGraphView,
    nodes: Map<TaskKeyView, TaskNodeView>,
) -> spec_fn(Seq<TaskEdgeView>, TaskKeyView) -> Result<Seq<TaskEdgeView>, TaskGraphFault> {
    |edges: Seq<TaskEdgeView>, key: TaskKeyView|
        try_fold(nodes[key].task.configured_deps, edges, add_configured(projects, nodes, key))
}

/// The dependencies of all tasks on tasks of the projects that their projects depend on.
pub open spec fn project_task_edges(
    projects: ProjectGraphView,
    nodes: Map<TaskKeyView, TaskNodeView>,
) -> Result<Seq<TaskEdgeView>, TaskGraphFault> {
    try_fold(
        arranged::<TaskKey>(nodes.dom()),
        Seq::empty(),
        add_task_dependencies(projects, nodes),
    )
}

/// The first graph of a source root.
pub open spec fn tasks_of_source(graphs: Seq<TaskGraphView>, source: Seq<char>) -> Option<
    TaskGraphView,
>
    decreases graphs.len(),
{
    if graphs.len() == 0 {
        None
    } else if graphs[0].context.registry.primary == source {
        Some(graphs[0])
    } else {
        tasks_of_source(graphs.skip(1), source)
    }
}

/// The edges of everything that was put together.
pub open spec fn composed_edges(projects: ProjectGraphView, assembly: TaskAssemblyView) -> Result<
    Seq<(usize, usize, u8)>,
    TaskGraphFault,
> {
    match link_edges(assembly.nodes, Seq::empty(), assembly.edges) {
        Err(fault) => Err(fault),
        Ok(edges) => match project_task_edges(projects, assembly.nodes) {
            Err(fault) => Err(fault),
            Ok(more) => link_edges(assembly.nodes, edges, more),
        },
    }
}

/// The one graph that graphs of several source roots make.
pub open spec fn composed_tasks(projects: ProjectGraphView, graphs: Seq<TaskGraphView>) -> Result<
    TaskGraphView,
    TaskGraphFault,
> {
    let ordered = ranked::<&TaskGraph>(graphs);
    match tasks_of_source(ordered, projects.context.registry.primary) {
        None => Err(
            TaskGraphFault::MissingSourceGraph { source_id: projects.context.registry.primary },
        ),
        Some(primary) => match assemble_tasks(ordered) {
            Err(fault) => Err(fault),
            Ok(assembly) => match composed_edges(projects, assembly) {
                Err(fault) => Err(fault),
                Ok(edges) => Ok(
                    TaskGraphView {
                        context: ContextView {
                            registry: projects.context.registry,
                            workspace_root: projects.context.workspace_root,
                            ..primary.context
                        },
                        contexts: assembly.contexts,
                        graph: DagView { nodes: assembly.indexes.len(), edges },
                        indexes: assembly.indexes,
                        nodes: assembly.nodes,
                        projects,
                    },
                ),
            },
        },
    }
}

/// What a graph of one source root must hold to be composed: every number has a task.
pub open spec fn tasks_valid(local: TaskGraphView) -> bool {
    &&& local.graph.nodes <= local.indexes.len()
    &&& forall|i: int|
        0 <= i < local.indexes.len() ==> local.nodes.dom().contains(#[trigger] local.indexes[i])
}

/// Every graph holds what it must.
pub open spec fn all_tasks_valid(graphs: Seq<TaskGraphView>) -> bool {
    forall|i: int| 0 <= i < graphs.len() ==> tasks_valid(#[trigger] graphs[i])
}

/// What holds of everything that was put together.
pub open spec fn task_assembly_valid(assembly: TaskAssemblyView) -> bool {
    &&& forall|key: TaskKeyView| #[trigger]
        assembly.nodes.dom().contains(key) ==> assembly.nodes[key].index < assembly.indexes.len()
    &&& forall|i: int|
        0 <= i < assembly.indexes.len() ==> assembly.nodes.dom().contains(
            #[trigger] assembly.indexes[i],
        )
    &&& forall|i: int|
        0 <= i < assembly.edges.len() ==> task_edge_known(
            assembly.nodes,
            #[trigger] assembly.edges[i],
        )
}

/// Both ends of a dependency are known.
pub open spec fn task_edge_known(nodes: Map<TaskKeyView, TaskNodeView>, edge: TaskEdgeView) -> bool {
    nodes.dom().contains(edge.source) && nodes.dom().contains(edge.target)
}

/// The numbers of the tasks and of their dependencies can be held.
pub open spec fn tasks_composable(projects: ProjectGraphView, graphs: Seq<TaskGraphView>) -> bool {
    match assemble_tasks(ranked::<&TaskGraph>(graphs)) {
        Err(_) => true,
        Ok(assembly) => {
            &&& assembly.indexes.len() <= u32::MAX
            &&& assembly.edges.len() <= u32::MAX
            &&& project_task_edges(projects, assembly.nodes) is Ok ==> assembly.edges.len()
                + project_task_edges(projects, assembly.nodes)->Ok_0.len() <= u32::MAX
        },
    }
}

/// Any two task keys are ordered.
pub proof fn task_keys_rank()
    ensures
        total_rank::<TaskKey>(),
{
    assert forall|a: TaskKeyView, b: TaskKeyView| a != b implies #[trigger] TaskKey::before(a, b)
        || TaskKey::before(b, a) by {
        task_key_less_total(a, b);
    }
}

/// Keys that are a set's, each once, are arranged when they are sorted.
fn arrange_keys(keys: Vec<TaskKey>, Ghost(set): Ghost<Set<TaskKeyView>>) -> (sorted: Vec<TaskKey>)
    requires
        views(keys@).no_duplicates(),
        forall|key: TaskKeyView| set.contains(key) <==> #[trigger] views(keys@).contains(key),
    ensures
        views(sorted@) == arranged::<TaskKey>(set),
        forall|key: TaskKeyView| set.contains(key) <==> #[trigger] views(sorted@).contains(key),
{
    let ghost all = views(keys@);
    let sorted = sort_ranked(keys);
    proof {
        task_keys_rank();
        ranked_arranges::<TaskKey>(all);
        assert(all.to_set() =~= set);
        assert forall|key: TaskKeyView| set.contains(key) <==> #[trigger] views(
            sorted@,
        ).contains(key) by {
            ranked_same_items::<TaskKey>(all, key);
        }
    }
    sorted
}

/// The keys of a table in order.
pub fn ordered_task_keys<V>(nodes: &Table<TaskKey, V>) -> (keys: Vec<TaskKey>)
    ensures
        views(keys@) == arranged::<TaskKey>(nodes@.dom()),
        forall|key: TaskKeyView|
            nodes@.dom().contains(key) <==> #[trigger] views(keys@).contains(key),
{
    let n: usize = nodes.len();
    let mut keys: Vec<TaskKey> = Vec::new();
    let mut i: usize = 0;
    while i < n
        invariant
            n == nodes.keys().len(),
            i <= n,
            views(keys@) == nodes.keys().take(i as int),
        decreases n - i,
    {
        keys.push(nodes.key_at(i).clone());
        assert(views(keys@) =~= nodes.keys().take(i + 1));
        i = i + 1;
    }
    assert(nodes.keys().take(i as int) =~= nodes.keys());
    arrange_keys(keys, Ghost(nodes@.dom()))
}

impl TaskAssembly {
    /// Nothing.
    fn new() -> (assembly: Self)
        ensures
            assembly@ == empty_tasks(),
            task_assembly_valid(assembly@),
    {
        proof {
            crate::table::value_views_empty::<TaskKeyView, TaskNode>();
            crate::table::value_views_empty::<Seq<char>, GraphExpanderContext>();
        }
        let assembly = TaskAssembly {
            indexes: Vec::new(),
            nodes: Table::new(),
            contexts: Table::new(),
            edges: Vec::new(),
        };
        assert(assembly@.indexes =~= Seq::empty());
        assert(assembly@.edges =~= Seq::empty());
        assembly
    }

    /// Adds the tasks of a source root behind the others.
    fn push_tasks(&mut self, nodes: &Table<TaskKey, TaskNode>) -> (done: Result<(), TaskGraphError>)
        requires
            task_assembly_valid(old(self)@),
        ensures
            match done {
                Ok(()) => {
                    &&& try_fold(
                        arranged::<TaskKey>(nodes@.dom()),
                        old(self)@,
                        add_task(value_views(nodes@)),
                    ) == Ok::<TaskAssemblyView, TaskGraphFault>(final(self)@)
                    &&& task_assembly_valid(final(self)@)
                    &&& forall|key: TaskKeyView|
                        nodes@.dom().contains(key) ==> #[trigger] final(self)@.nodes.dom().contains(key)
                },
                Err(error) => try_fold(
                    arranged::<TaskKey>(nodes@.dom()),
                    old(self)@,
                    add_task(value_views(nodes@)),
                ) == Err::<TaskAssemblyView, TaskGraphFault>(error@),
            },
    {
        let keys = ordered_task_keys(nodes);
        let ghost start = self@;
        let ghost all = views(keys@);
        let ghost step = add_task(value_views(nodes@));
        let mut i: usize = 0;
        while i < keys.len()
            invariant
                i <= keys@.len(),
                all == views(keys@),
                all == arranged::<TaskKey>(nodes@.dom()),
                step == add_task(value_views(nodes@)),
                start == old(self)@,
                forall|key: TaskKeyView|
                    nodes@.dom().contains(key) <==> #[trigger] all.contains(key),
                task_assembly_valid(self@),
                forall|j: int| 0 <= j < i ==> self@.nodes.dom().contains(#[trigger] all[j]),
                try_fold(all.take(i as int), start, step) == Ok::<TaskAssemblyView, TaskGraphFault>(
                    self@,
                ),
            decreases keys.len() - i,
        {
            let key = &keys[i];
            let ghost before = self@;
            proof {
                try_fold_step(all, start, step, i as int);
                assert(all[i as int] == key@);
                assert(all.contains(key@));
            }
            if self.nodes.contains(key) {
                let error = TaskGraphError::DuplicateTaskKey { key: key.to_text() };
                proof {
                    try_fold_fails(all, start, step, i + 1, error@);
                }
                return Err(error);
            }
            match nodes.get(key) {
                Some(node) => {
                    let index: usize = self.indexes.len();
                    let task = node.task.clone();
                    self.indexes.push(key.clone());
                    self.nodes.insert(key.clone(), TaskNode { index, task });
                },
                None => {
                    assert(false);
                },
            }
            proof {
                let after = self@;
                assert forall|j: int| 0 <= j < after.indexes.len() implies after.nodes.dom().contains(
                    #[trigger] after.indexes[j],
                ) by {
                    if j < before.indexes.len() {
                        assert(after.indexes[j] == before.indexes[j]);
                    }
                }
                assert forall|j: int| 0 <= j < after.edges.len() implies task_edge_known(
                    after.nodes,
                    #[trigger] after.edges[j],
                ) by {
                    assert(task_edge_known(before.nodes, before.edges[j]));
                }
                assert(after.indexes.len() == before.indexes.len() + 1);
            }
            i = i + 1;
        }
        proof {
            try_fold_end(all, start, step);
            assert forall|key: TaskKeyView|
                nodes@.dom().contains(key) implies #[trigger] self@.nodes.dom().contains(key) by {
                assert(all.contains(key));
                let j = choose|j: int| 0 <= j < all.len() && all[j] == key;
                assert(self@.nodes.dom().contains(all[j]));
            }
        }
        Ok(())
    }

    /// Adds the edges of a source root behind the others.
    fn push_task_edges(&mut self, local: &TaskGraph) -> (done: Result<(), TaskGraphError>)
        requires
            task_assembly_valid(old(self)@),
            tasks_valid(local@),
            forall|key: TaskKeyView| #[trigger]
                local@.nodes.dom().contains(key) ==> old(self)@.nodes.dom().contains(key),
        ensures
            match done {
                Ok(()) => {
                    &&& try_fold(local@.graph.edges, old(self)@, add_task_edge(local@.indexes))
                        == Ok::<TaskAssemblyView, TaskGraphFault>(final(self)@)
                    &&& task_assembly_valid(final(self)@)
                },
                Err(error) => try_fold(
                    local@.graph.edges,
                    old(self)@,
                    add_task_edge(local@.indexes),
                ) == Err::<TaskAssemblyView, TaskGraphFault>(error@),
            },
    {
        let edges = local.graph.edges();
        let ghost all = local@.graph.edges;
        let ghost start = self@;
        let ghost step = add_task_edge(local@.indexes);
        let mut i: usize = 0;
        while i < edges.len()
            invariant
                i <= edges@.len(),
                edges@ == all,
                all == local@.graph.edges,
                start == old(self)@,
                edges_within(all, local@.graph.nodes),
                tasks_valid(local@),
                step == add_task_edge(local@.indexes),
                task_assembly_valid(self@),
                forall|key: TaskKeyView| #[trigger]
                    local@.nodes.dom().contains(key) ==> self@.nodes.dom().contains(key),
                try_fold(all.take(i as int), start, step) == Ok::<TaskAssemblyView, TaskGraphFault>(
                    self@,
                ),
            decreases edges.len() - i,
        {
            let edge = edges[i];
            let ghost before = self@;
            proof {
                try_fold_step(all, start, step, i as int);
                assert(all[i as int].0 < local@.graph.nodes);
            }
            let source = local.indexes[edge.0].clone();
            let target = local.indexes[edge.1].clone();
            if !source.project_key().source_id().same_key(target.project_key().source_id()) {
                let error = TaskGraphError::UnsupportedCrossSourceEdge {
                    source_key: source.to_text(),
                    target_key: target.to_text(),
                };
                proof {
                    try_fold_fails(all, start, step, i + 1, error@);
                }
                return Err(error);
            }
            proof {
                assert(local@.nodes.dom().contains(local@.indexes[edge.0 as int]));
                assert(local@.nodes.dom().contains(local@.indexes[edge.1 as int]));
            }
            self.edges.push(TaskEdge { source, target, label: edge.2 });
            proof {
                let after = self@;
                assert forall|j: int| 0 <= j < after.edges.len() implies task_edge_known(
                    after.nodes,
                    #[trigger] after.edges[j],
                ) by {
                    if j < before.edges.len() {
                        assert(task_edge_known(before.nodes, before.edges[j]));
                    }
                }
            }
            i = i + 1;
        }
        proof {
            try_fold_end(all, start, step);
        }
        Ok(())
    }

    /// Adds the graph of a source root.
    fn push_source(&mut self, local: &TaskGraph) -> (done: Result<(), TaskGraphError>)
        requires
            task_assembly_valid(old(self)@),
            tasks_valid(local@),
        ensures
            match done {
                Ok(()) => add_tasks_of(old(self)@, local@) == Ok::<TaskAssemblyView, TaskGraphFault>(
                    final(self)@,
                ) && task_assembly_valid(final(self)@),
                Err(error) => add_tasks_of(old(self)@, local@) == Err::<
                    TaskAssemblyView,
                    TaskGraphFault,
                >(error@),
            },
    {
        assert(local@.nodes.dom() =~= local.nodes@.dom());
        self.contexts.insert(local.context.sources.primary_id().clone(), local.context.clone());
        match self.push_tasks(&local.nodes) {
            Ok(()) => self.push_task_edges(local),
            Err(error) => Err(error),
        }
    }
}

/// Puts the graphs of all source roots together.
fn assemble_task_graphs(graphs: &Vec<&TaskGraph>) -> (assembly: Result<TaskAssembly, TaskGraphError>)
    requires
        all_tasks_valid(views(graphs@)),
    ensures
        outcome(assembly) == assemble_tasks(views(graphs@)),
        assembly is Ok ==> task_assembly_valid(assembly->Ok_0@),
{
    let ghost all = views(graphs@);
    let ghost start = empty_tasks();
    let ghost step = add_source();
    let mut assembly = TaskAssembly::new();
    let mut i: usize = 0;
    while i < graphs.len()
        invariant
            i <= graphs@.len(),
            all == views(graphs@),
            start == empty_tasks(),
            step == add_source(),
            all_tasks_valid(all),
            task_assembly_valid(assembly@),
            try_fold(all.take(i as int), start, step) == Ok::<TaskAssemblyView, TaskGraphFault>(
                assembly@,
            ),
        decreases graphs.len() - i,
    {
        let local = graphs[i];
        proof {
            try_fold_step(all, start, step, i as int);
            assert(tasks_valid(all[i as int]));
        }
        match assembly.push_source(local) {
            Ok(()) => {},
            Err(error) => {
                proof {
                    try_fold_fails(all, start, step, i + 1, error@);
                }
                return Err(error);
            },
        }
        i = i + 1;
    }
    proof {
        try_fold_end(all, start, step);
    }
    Ok(assembly)
}

/// Finds the first graph of a source root.
fn find_task_graph<'a>(graphs: &Vec<&'a TaskGraph>, source: &SourceRootId) -> (found: Option<
    &'a TaskGraph,
>)
    ensures
        view_of(found) == tasks_of_source(views(graphs@), source@),
{
    let ghost all = views(graphs@);
    let mut i: usize = 0;
    assert(all.skip(0) =~= all);
    while i < graphs.len()
        invariant
            i <= graphs@.len(),
            all == views(graphs@),
            tasks_of_source(all, source@) == tasks_of_source(all.skip(i as int), source@),
        decreases graphs.len() - i,
    {
        let graph = graphs[i];
        assert(all.skip(i as int)[0] == graph@);
        if graph.context.sources.primary_id().same_key(source) {
            return Some(graph);
        }
        assert(all.skip(i as int).skip(1) =~= all.skip(i + 1));
        i = i + 1;
    }
    None
}

/// Linking a dependency adds at most one edge.
proof fn link_task_adds(edges: Seq<(usize, usize, u8)>, from: usize, to: usize, label: u8)
    ensures
        link_task(edges, from, to, label) is Some ==> link_task(edges, from, to, label)->0.len()
            <= edges.len() + 1,
{
    if has_edge(edges, from, to) {
        last_edge_exists(edges, from, to);
    }
}

impl TaskGraph {
    /// Adds dependencies in order.
    fn link_sorted(&mut self, items: Vec<TaskEdge>) -> (done: Result<(), TaskGraphError>)
        requires
            old(self)@.graph.nodes == old(self)@.indexes.len(),
            forall|key: TaskKeyView| #[trigger]
                old(self)@.nodes.dom().contains(key) ==> old(self)@.nodes[key].index
                    < old(self)@.indexes.len(),
            forall|i: int|
                0 <= i < items@.len() ==> task_edge_known(
                    old(self)@.nodes,
                    #[trigger] views(items@)[i],
                ),
            old(self)@.graph.edges.len() + items@.len() <= u32::MAX,
        ensures
            match done {
                Ok(()) => {
                    &&& link_edges(old(self)@.nodes, old(self)@.graph.edges, views(items@)) == Ok::<
                        Seq<(usize, usize, u8)>,
                        TaskGraphFault,
                    >(final(self)@.graph.edges)
                    &&& final(self)@ == (TaskGraphView {
                        graph: DagView {
                            edges: final(self)@.graph.edges,
                            ..old(self)@.graph
                        },
                        ..old(self)@
                    })
                    &&& final(self)@.graph.edges.len() <= old(self)@.graph.edges.len()
                        + items@.len()
                },
                Err(error) => link_edges(
                    old(self)@.nodes,
                    old(self)@.graph.edges,
                    views(items@),
                ) == Err::<Seq<(usize, usize, u8)>, TaskGraphFault>(error@),
            },
    {
        let ghost given = views(items@);
        let ghost before = self@;
        let ghost nodes = self@.nodes;
        let sorted = sort_ranked(items);
        let ghost all = views(sorted@);
        let ghost start = before.graph.edges;
        let ghost step = link_edge(nodes);
        proof {
            ranked_is_permutation::<TaskEdge>(given);
            assert forall|i: int| 0 <= i < all.len() implies task_edge_known(
                nodes,
                #[trigger] all[i],
            ) by {
                assert(all.contains(all[i]));
                ranked_same_items::<TaskEdge>(given, all[i]);
                let j = choose|j: int| 0 <= j < given.len() && given[j] == all[i];
                assert(task_edge_known(nodes, given[j]));
            }
        }
        let mut i: usize = 0;
        while i < sorted.len()
            invariant
                i <= sorted@.len(),
                all == views(sorted@),
                given == views(items@),
                all == ranked::<TaskEdge>(given),
                all.len() == given.len(),
                before == old(self)@,
                nodes == before.nodes,
                start == before.graph.edges,
                step == link_edge(nodes),
                before.graph.nodes == before.indexes.len(),
                forall|key: TaskKeyView| #[trigger]
                    nodes.dom().contains(key) ==> nodes[key].index < before.indexes.len(),
                forall|i: int| 0 <= i < all.len() ==> task_edge_known(nodes, #[trigger] all[i]),
                start.len() + all.len() <= u32::MAX,
                self@ == (TaskGraphView {
                    graph: DagView { edges: self@.graph.edges, ..before.graph },
                    ..before
                }),
                self@.graph.edges.len() <= start.len() + i,
                try_fold(all.take(i as int), start, step) == Ok::<
                    Seq<(usize, usize, u8)>,
                    TaskGraphFault,
                >(self@.graph.edges),
            decreases sorted.len() - i,
        {
            let edge = &sorted[i];
            proof {
                try_fold_step(all, start, step, i as int);
                assert(task_edge_known(nodes, all[i as int]));
                assert(nodes.dom().contains(edge@.source));
                assert(nodes.dom().contains(edge@.target));
            }
            proof {
                link_task_adds(
                    self@.graph.edges,
                    nodes[edge@.source].index,
                    nodes[edge@.target].index,
                    edge.label,
                );
            }
            match self.link_labeled(&edge.source, &edge.target, edge.label) {
                Ok(()) => {},
                Err(error) => {
                    proof {
                        try_fold_fails(all, start, step, i + 1, error@);
                    }
                    return Err(error);
                },
            }
            i = i + 1;
        }
        proof {
            try_fold_end(all, start, step);
        }
        Ok(())
    }
}

/// Whether a project is among dependencies in a scope.
fn is_dependency(
    dependencies: &Vec<(ProjectKey, DependencyScope)>,
    required: Option<DependencyScope>,
    project: &ProjectKey,
) -> (found: bool)
    ensures
        found == depends_in(scope_views(dependencies@), required, project@),
{
    let ghost all = scope_views(dependencies@);
    let mut i: usize = 0;
    while i < dependencies.len()
        invariant
            i <= dependencies@.len(),
            all == scope_views(dependencies@),
            forall|j: int|
                0 <= j < i ==> !((#[trigger] all[j]).0 == project@ && (required is None || required
                    == Some(all[j].1))),
        decreases dependencies.len() - i,
    {
        let item = &dependencies[i];
        assert(all[i as int] == (item.0@, item.1));
        let in_scope = match required {
            None => true,
            Some(scope) => scope == item.1,
        };
        if in_scope && item.0.same_key(project) {
            return true;
        }
        i = i + 1;
    }
    false
}

/// Whether a target selects a task of a project.
fn is_selected(selector: &TargetTaskScope, task: &Task) -> (r: bool)
    ensures
        r == selects_task(selector@, task@),
{
    match selector {
        TargetTaskScope::Id(id) => task.id.same_key(id),
        TargetTaskScope::Tag(tag) => task.has_tag(tag),
    }
}

/// The tasks that a dependency selects, in order.
fn select_tasks(
    nodes: &Table<TaskKey, TaskNode>,
    dependencies: &Vec<(ProjectKey, DependencyScope)>,
    required: Option<DependencyScope>,
    selector: &TargetTaskScope,
) -> (keys: Vec<TaskKey>)
    ensures
        views(keys@) == arranged::<TaskKey>(
            selected_tasks(
                value_views(nodes@),
                scope_views(dependencies@),
                required,
                selector@,
            ),
        ),
        forall|i: int| 0 <= i < keys@.len() ==> nodes@.dom().contains(#[trigger] views(keys@)[i]),
{
    let n: usize = nodes.len();
    let ghost all = nodes.keys();
    let ghost set = selected_tasks(
        value_views(nodes@),
        scope_views(dependencies@),
        required,
        selector@,
    );
    let mut keys: Vec<TaskKey> = Vec::new();
    let mut i: usize = 0;
    while i < n
        invariant
            n == nodes.keys().len(),
            all == nodes.keys(),
            all.no_duplicates(),
            forall|i: int| 0 <= i < all.len() ==> nodes@.dom().contains(#[trigger] all[i]),
            set == selected_tasks(
                value_views(nodes@),
                scope_views(dependencies@),
                required,
                selector@,
            ),
            i <= n,
            views(keys@).no_duplicates(),
            forall|key: TaskKeyView| #[trigger]
                views(keys@).contains(key) <==> set.contains(key) && all.take(i as int).contains(key),
        decreases n - i,
    {
        let key = nodes.key_at(i);
        let node = nodes.value_at(i);
        let ghost taken = all.take(i as int);
        let ghost next = all.take(i + 1);
        let ghost before = views(keys@);
        proof {
            assert(next =~= taken.push(key@));
            assert forall|x: TaskKeyView| #[trigger] next.contains(x) <==> (taken.contains(x) || x
                == key@) by {
                lemma_seq_contains_after_push(taken, key@, x);
            }
            assert(!taken.contains(key@)) by {
                if taken.contains(key@) {
                    let j = choose|j: int| 0 <= j < taken.len() && taken[j] == key@;
                    assert(all[j] == all[i as int]);
                }
            }
            assert(!before.contains(key@));
        }
        if is_dependency(dependencies, required, key.project_key()) && is_selected(
            selector,
            &node.task,
        ) {
            keys.push(key.clone());
            proof {
                assert forall|x: TaskKeyView| #[trigger] views(keys@).contains(x) <==> set.contains(x)
                    && next.contains(x) by {
                    lemma_seq_contains_after_push(before, key@, x);
                    assert(before.contains(x) <==> set.contains(x) && taken.contains(x));
                }
                assert(views(keys@).no_duplicates()) by {
                    assert forall|a: int, b: int|
                        0 <= a < views(keys@).len() && 0 <= b < views(keys@).len() && a != b implies views(
                        keys@,
                    )[a] != views(keys@)[b] by {
                        if a < before.len() {
                            assert(before.contains(before[a]));
                        }
                        if b < before.len() {
                            assert(before.contains(before[b]));
                        }
                    }
                }
            }
        } else {
            assert forall|x: TaskKeyView| #[trigger] views(keys@).contains(x) <==> set.contains(x)
                && next.contains(x) by {
                assert(before.contains(x) <==> set.contains(x) && taken.contains(x));
            }
        }
        i = i + 1;
    }
    proof {
        assert(all.take(i as int) =~= all);
        assert forall|key: TaskKeyView| set.contains(key) <==> #[trigger] views(keys@).contains(
            key,
        ) by {
            if set.contains(key) {
                assert(nodes@.dom().contains(key));
                assert(all.contains(key));
            }
        }
    }
    let sorted = arrange_keys(keys, Ghost(set));
    assert forall|i: int| 0 <= i < sorted@.len() implies nodes@.dom().contains(
        #[trigger] views(sorted@)[i],
    ) by {
        assert(views(sorted@).contains(views(sorted@)[i]));
        assert(set.contains(views(sorted@)[i]));
    }
    sorted
}

/// All dependencies are between known tasks.
spec fn edges_known(nodes: Map<TaskKeyView, TaskNodeView>, edges: Seq<TaskEdgeView>) -> bool {
    forall|i: int| 0 <= i < edges.len() ==> task_edge_known(nodes, #[trigger] edges[i])
}

/// Adds the tasks that a dependency selects.
fn push_selected(
    nodes: &Table<TaskKey, TaskNode>,
    source: &TaskKey,
    label: u8,
    matches: &Vec<TaskKey>,
    edges: &mut Vec<TaskEdge>,
) -> (done: Result<(), TaskGraphError>)
    requires
        nodes@.dom().contains(source@),
        forall|i: int|
            0 <= i < matches@.len() ==> nodes@.dom().contains(#[trigger] views(matches@)[i]),
        edges_known(value_views(nodes@), views(old(edges)@)),
    ensures
        match done {
            Ok(()) => {
                &&& try_fold(
                    views(matches@),
                    views(old(edges)@),
                    add_selected(value_views(nodes@), source@, label),
                ) == Ok::<Seq<TaskEdgeView>, TaskGraphFault>(views(final(edges)@))
                &&& edges_known(value_views(nodes@), views(final(edges)@))
            },
            Err(error) => try_fold(
                views(matches@),
                views(old(edges)@),
                add_selected(value_views(nodes@), source@, label),
            ) == Err::<Seq<TaskEdgeView>, TaskGraphFault>(error@),
        },
{
    let ghost all = views(matches@);
    let ghost known = value_views(nodes@);
    let ghost start = views(edges@);
    let ghost step = add_selected(known, source@, label);
    let mut i: usize = 0;
    while i < matches.len()
        invariant
            i <= matches@.len(),
            all == views(matches@),
            known == value_views(nodes@),
            start == views(old(edges)@),
            step == add_selected(known, source@, label),
            nodes@.dom().contains(source@),
            forall|i: int| 0 <= i < all.len() ==> nodes@.dom().contains(#[trigger] all[i]),
            edges_known(known, views(edges@)),
            try_fold(all.take(i as int), start, step) == Ok::<Seq<TaskEdgeView>, TaskGraphFault>(
                views(edges@),
            ),
        decreases matches.len() - i,
    {
        let target = &matches[i];
        proof {
            try_fold_step(all, start, step, i as int);
            assert(nodes@.dom().contains(all[i as int]));
        }
        match (nodes.get(source), nodes.get(target)) {
            (Some(task), Some(dependency)) => {
                match validate_task_dependency(&task.task.options, &dependency.task.options) {
                    Ok(()) => {},
                    Err(reason) => {
                        let dep = target.to_text();
                        let task = source.to_text();
                        let error = match reason {
                            TaskDependencyValidationError::AllowFailure =>
                                TaskGraphError::AllowFailureDepRequirement { dep, task },
                            TaskDependencyValidationError::RunInCi =>
                                TaskGraphError::RunInCiDepRequirement { dep, task },
                            TaskDependencyValidationError::Persistent =>
                                TaskGraphError::PersistentDepRequirement { dep, task },
                        };
                        proof {
                            try_fold_fails(all, start, step, i + 1, error@);
                        }
                        return Err(error);
                    },
                }
            },
            _ => {
                assert(false);
            },
        }
        edges.push(TaskEdge { source: source.clone(), target: target.clone(), label });
        i = i + 1;
    }
    proof {
        try_fold_end(all, start, step);
    }
    Ok(())
}

/// Adds what a configured dependency of a task selects.
fn push_configured(
    projects: &ProjectGraph,
    nodes: &Table<TaskKey, TaskNode>,
    source: &TaskKey,
    dep: &TaskDependencyConfig,
    edges: &mut Vec<TaskEdge>,
) -> (done: Result<(), TaskGraphError>)
    requires
        graph_valid(projects@),
        nodes@.dom().contains(source@),
        edges_known(value_views(nodes@), views(old(edges)@)),
    ensures
        match done {
            Ok(()) => {
                &&& add_configured(projects@, value_views(nodes@), source@)(
                    views(old(edges)@),
                    dep@,
                ) == Ok::<Seq<TaskEdgeView>, TaskGraphFault>(views(final(edges)@))
                &&& edges_known(value_views(nodes@), views(final(edges)@))
            },
            Err(error) => add_configured(projects@, value_views(nodes@), source@)(
                views(old(edges)@),
                dep@,
            ) == Err::<Seq<TaskEdgeView>, TaskGraphFault>(error@),
        },
{
    let required = match &dep.target.project {
        TargetProjectScope::Deps => None,
        TargetProjectScope::DepsOf(scope) => Some(*scope),
        _ => {
            return Ok(());
        },
    };
    let dependencies = match projects.direct_dependencies_with_scopes(source.project_key()) {
        Ok(dependencies) => dependencies,
        Err(error) => {
            return Err(TaskGraphError::Project(error));
        },
    };
    let matches = select_tasks(nodes, &dependencies, required, &dep.target.task);
    let refused = match dep.optional {
        Some(optional) => !optional,
        None => false,
    };
    if matches.len() == 0 && refused {
        return Err(
            TaskGraphError::UnknownDepTargetParentScope {
                dep: dep.target.to_text(),
                task: source.to_text(),
            },
        );
    }
    let label: u8 = match dep.optional {
        Some(true) => TaskDependencyType::Optional.label(),
        _ => TaskDependencyType::Required.label(),
    };
    push_selected(nodes, source, label, &matches, edges)
}

/// The dependencies of all tasks on tasks of the projects that their projects depend on.
fn project_dependencies(projects: &ProjectGraph, nodes: &Table<TaskKey, TaskNode>) -> (edges: Result<
    Vec<TaskEdge>,
    TaskGraphError,
>)
    requires
        graph_valid(projects@),
    ensures
        match edges {
            Ok(edges) => {
                &&& project_task_edges(projects@, value_views(nodes@)) == Ok::<
                    Seq<TaskEdgeView>,
                    TaskGraphFault,
                >(views(edges@))
                &&& edges_known(value_views(nodes@), views(edges@))
            },
            Err(error) => project_task_edges(projects@, value_views(nodes@)) == Err::<
                Seq<TaskEdgeView>,
                TaskGraphFault,
            >(error@),
        },
{
    let keys = ordered_task_keys(nodes);
    let ghost known = value_views(nodes@);
    let ghost all = views(keys@);
    let ghost start = Seq::<TaskEdgeView>::empty();
    let ghost step = add_task_dependencies(projects@, known);
    assert(known.dom() =~= nodes@.dom());
    let mut edges: Vec<TaskEdge> = Vec::new();
    let mut i: usize = 0;
    assert(views(edges@) =~= start);
    while i < keys.len()
        invariant
            i <= keys@.len(),
            all == views(keys@),
            known == value_views(nodes@),
            all == arranged::<TaskKey>(known.dom()),
            start == Seq::<TaskEdgeView>::empty(),
            step == add_task_dependencies(projects@, known),
            graph_valid(projects@),
            forall|key: TaskKeyView| nodes@.dom().contains(key) <==> #[trigger] all.contains(key),
            edges_known(known, views(edges@)),
            try_fold(all.take(i as int), start, step) == Ok::<Seq<TaskEdgeView>, TaskGraphFault>(
                views(edges@),
            ),
        decreases keys.len() - i,
    {
        let key = &keys[i];
        proof {
            try_fold_step(all, start, step, i as int);
            assert(all[i as int] == key@);
            assert(all.contains(key@));
        }
        match nodes.get(key) {
            Some(node) => {
                let ghost deps = node.task@.configured_deps;
                let ghost base = views(edges@);
                let ghost inner = add_configured(projects@, known, key@);
                let mut j: usize = 0;
                while j < node.task.configured_deps.len()
                    invariant
                        j <= node.task.configured_deps@.len(),
                        deps == views(node.task.configured_deps@),
                        known == value_views(nodes@),
                        inner == add_configured(projects@, known, key@),
                        graph_valid(projects@),
                        nodes@.dom().contains(key@),
                        deps == known[key@].task.configured_deps,
                        all == views(keys@),
                        all == arranged::<TaskKey>(known.dom()),
                        all[i as int] == key@,
                        0 <= i < all.len(),
                        start == Seq::<TaskEdgeView>::empty(),
                        step == add_task_dependencies(projects@, known),
                        try_fold(all.take(i + 1), start, step) == step(base, key@),
                        edges_known(known, views(edges@)),
                        try_fold(deps.take(j as int), base, inner) == Ok::<
                            Seq<TaskEdgeView>,
                            TaskGraphFault,
                        >(views(edges@)),
                    decreases node.task.configured_deps.len() - j,
                {
                    proof {
                        try_fold_step(deps, base, inner, j as int);
                    }
                    match push_configured(
                        projects,
                        nodes,
                        key,
                        &node.task.configured_deps[j],
                        &mut edges,
                    ) {
                        Ok(()) => {},
                        Err(error) => {
                            proof {
                                try_fold_fails(deps, base, inner, j + 1, error@);
                                try_fold_fails(all, start, step, i + 1, error@);
                            }
                            return Err(error);
                        },
                    }
                    j = j + 1;
                }
                proof {
                    try_fold_end(deps, base, inner);
                }
            },
            None => {
                assert(false);
            },
        }
        i = i + 1;
    }
    proof {
        try_fold_end(all, start, step);
    }
    Ok(edges)
}

impl TaskGraph {
    /// Composes the graphs of several source roots into one. Tasks keep their keys,
    /// and dependencies on the projects that a project depends on reach over source
    /// roots.
    pub fn compose(project_graph: Arc<ProjectGraph>, graphs: Vec<&TaskGraph>) -> (graph: Result<
        TaskGraph,
        TaskGraphError,
    >)
        requires
            graph_valid(project_graph@),
            all_tasks_valid(views(graphs@)),
            tasks_composable(project_graph@, views(graphs@)),
        ensures
            outcome(graph) == composed_tasks(project_graph@, views(graphs@)),
            graph is Ok ==> task_graph_valid(graph->Ok_0@),
    {
        let ghost all = views(graphs@);
        let ghost projects = project_graph@;
        let ordered = sort_ranked(graphs);
        proof {
            assert forall|i: int| 0 <= i < views(ordered@).len() implies tasks_valid(
                #[trigger] views(ordered@)[i],
            ) by {
                let local = views(ordered@)[i];
                assert(views(ordered@).contains(local));
                ranked_same_items::<&TaskGraph>(all, local);
                let j = choose|j: int| 0 <= j < all.len() && all[j] == local;
                assert(tasks_valid(all[j]));
            }
        }
        let primary = match find_task_graph(&ordered, project_graph.context.sources.primary_id()) {
            Some(primary) => primary,
            None => {
                return Err(
                    TaskGraphError::MissingSourceGraph {
                        source_id: project_graph.context.sources.primary_id().as_str().to_owned(),
                    },
                );
            },
        };
        let assembly = match assemble_task_graphs(&ordered) {
            Ok(assembly) => assembly,
            Err(error) => {
                return Err(error);
            },
        };
        let ghost whole = assembly@;
        let mut context = primary.context.clone();
        context.sources = project_graph.context.sources.clone();
        context.workspace_root = project_graph.context.workspace_root.clone();
        let mut dag = DependencyDag::empty();
        let mut i: usize = 0;
        while i < assembly.indexes.len()
            invariant
                i <= assembly.indexes@.len(),
                assembly.indexes@.len() <= u32::MAX,
                dag@ == (DagView { nodes: i as nat, edges: Seq::empty() }),
            decreases assembly.indexes.len() - i,
        {
            let _ = dag.add_node();
            i = i + 1;
        }
        let TaskAssembly { indexes, nodes, contexts, edges } = assembly;
        let mut graph = TaskGraph { context, contexts, graph: dag, indexes, nodes, project_graph };
        match graph.link_sorted(edges) {
            Ok(()) => {},
            Err(error) => {
                return Err(error);
            },
        }
        match graph.add_composed_project_dependencies() {
            Ok(()) => Ok(graph),
            Err(error) => Err(error),
        }
    }

    /// Adds the dependencies on tasks of the projects that the projects depend on.
    fn add_composed_project_dependencies(&mut self) -> (done: Result<(), TaskGraphError>)
        requires
            graph_valid(old(self)@.projects),
            old(self)@.graph.nodes == old(self)@.indexes.len(),
            forall|key: TaskKeyView| #[trigger]
                old(self)@.nodes.dom().contains(key) ==> old(self)@.nodes[key].index
                    < old(self)@.indexes.len(),
            project_task_edges(old(self)@.projects, old(self)@.nodes) is Ok ==> old(
                self,
            )@.graph.edges.len() + project_task_edges(
                old(self)@.projects,
                old(self)@.nodes,
            )->Ok_0.len() <= u32::MAX,
        ensures
            ({
                let linked = match project_task_edges(old(self)@.projects, old(self)@.nodes) {
                    Err(fault) => Err(fault),
                    Ok(more) => link_edges(old(self)@.nodes, old(self)@.graph.edges, more),
                };
                match done {
                    Ok(()) => linked == Ok::<Seq<(usize, usize, u8)>, TaskGraphFault>(
                        final(self)@.graph.edges,
                    ) && final(self)@ == (TaskGraphView {
                        graph: DagView { edges: final(self)@.graph.edges, ..old(self)@.graph },
                        ..old(self)@
                    }),
                    Err(error) => linked == Err::<Seq<(usize, usize, u8)>, TaskGraphFault>(error@),
                }
            }),
    {
        match project_dependencies(&self.project_graph, &self.nodes) {
            Ok(edges) => self.link_sorted(edges),
            Err(error) => Err(error),
        }
    }
}

/// Composition does not depend on the order in which the graphs are given, where no
/// two of them have the same source root.
pub proof fn task_composition_ignores_order(
    projects: ProjectGraphView,
    a: Seq<TaskGraphView>,
    b: Seq<TaskGraphView>,
)
    requires
        ranks_apart::<&TaskGraph>(a),
        a.to_multiset() == b.to_multiset(),
    ensures
        composed_tasks(projects, a) == composed_tasks(projects, b),
{
    ranked_ignores_order::<&TaskGraph>(a, b);
}

} // verus!
