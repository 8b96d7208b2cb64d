//! The graph of tasks and the dependencies between them.

use crate::dag::{DagView, DependencyDag};
use crate::graph::{connected, has_edge, is_last_edge};
use crate::keys::{task_key_text, TaskKey, TaskKeyView};
use crate::order::{outcome, view_of, views};
use crate::project_graph::{
    ContextView, GraphExpanderContext, ProjectGraph, ProjectGraphError, ProjectGraphFault,
    ProjectGraphView,
};
use crate::source::SourceRootId;
use crate::table::{value_views, Duplicate, Table};
use crate::task::{
    key_of_target, target_text, Target, TargetView, Task, TaskDependencyType, TaskView,
};
use std::sync::Arc;
use vstd::prelude::*;

verus! {

broadcast use {crate::order::group_views, crate::table::value_views_insert};

/// Why the task graph turns a request down.
pub enum TaskGraphFault {
    UnsupportedCrossSourceEdge { source_key: Seq<char>, target_key: Seq<char> },
    WouldCycle { source_target: Seq<char>, target_target: Seq<char> },
    UnknownDepTargetParentScope { dep: Seq<char>, task: Seq<char> },
    AllowFailureDepRequirement { dep: Seq<char>, task: Seq<char> },
    RunInCiDepRequirement { dep: Seq<char>, task: Seq<char> },
    PersistentDepRequirement { dep: Seq<char>, task: Seq<char> },
    MissingSourceGraph { source_id: Seq<char> },
    DuplicateTaskKey { key: Seq<char> },
    UnknownTask { task_id: Seq<char>, project_id: Seq<char> },
    UnqualifiedTarget { target: Seq<char> },
    Project(ProjectGraphFault),
}

/// Why the task graph turns a request down.
#[derive(Debug)]
pub enum TaskGraphError {
    /// A graph of one source root holds an edge to another.
    UnsupportedCrossSourceEdge { source_key: String, target_key: String },
    /// An edge would close a cycle.
    WouldCycle { source_target: String, target_target: String },
    /// A target selects no task of the projects that the task's project depends on.
    UnknownDepTargetParentScope { dep: String, task: String },
    /// A task depends on a task that is allowed to fail.
    AllowFailureDepRequirement { dep: String, task: String },
    /// A task that runs in continuous integration depends on one that does not.
    RunInCiDepRequirement { dep: String, task: String },
    /// A task that ends depends on one that does not.
    PersistentDepRequirement { dep: String, task: String },
    /// No graph has been loaded for the primary source root.
    MissingSourceGraph { source_id: String },
    /// Two graphs hold the same task.
    DuplicateTaskKey { key: String },
    /// The project has no task with this identifier.
    UnknownTask { task_id: String, project_id: String },
    /// A target does not name one task of one project.
    UnqualifiedTarget { target: String },
    /// The project graph turned a request down.
    Project(ProjectGraphError),
}

impl View for TaskGraphError {
    type V = TaskGraphFault;

    open spec fn view(&self) -> TaskGraphFault {
        match self {
            TaskGraphError::UnsupportedCrossSourceEdge { source_key, target_key } =>
                TaskGraphFault::UnsupportedCrossSourceEdge {
                source_key: source_key@,
                target_key: target_key@,
            },
            TaskGraphError::WouldCycle { source_target, target_target } =>
                TaskGraphFault::WouldCycle {
                source_target: source_target@,
                target_target: target_target@,
            },
            TaskGraphError::UnknownDepTargetParentScope { dep, task } =>
                TaskGraphFault::UnknownDepTargetParentScope { dep: dep@, task: task@ },
            TaskGraphError::AllowFailureDepRequirement { dep, task } =>
                TaskGraphFault::AllowFailureDepRequirement { dep: dep@, task: task@ },
            TaskGraphError::RunInCiDepRequirement { dep, task } =>
                TaskGraphFault::RunInCiDepRequirement { dep: dep@, task: task@ },
            TaskGraphError::PersistentDepRequirement { dep, task } =>
                TaskGraphFault::PersistentDepRequirement { dep: dep@, task: task@ },
            TaskGraphError::MissingSourceGraph { source_id } => TaskGraphFault::MissingSourceGraph {
                source_id: source_id@,
            },
            TaskGraphError::DuplicateTaskKey { key } => TaskGraphFault::DuplicateTaskKey {
                key: key@,
            },
            TaskGraphError::UnknownTask { task_id, project_id } => TaskGraphFault::UnknownTask {
                task_id: task_id@,
                project_id: project_id@,
            },
            TaskGraphError::UnqualifiedTarget { target } => TaskGraphFault::UnqualifiedTarget {
                target: target@,
            },
            TaskGraphError::Project(error) => TaskGraphFault::Project(error@),
        }
    }
}

/// The text that each fault of the task graph reports to users.
pub open spec fn task_graph_message(fault: TaskGraphFault) -> Option<Seq<char>> {
    match fault {
        TaskGraphFault::UnsupportedCrossSourceEdge { source_key, target_key } => Some(
            "Source-local task graph contains a cross-source edge from "@ + source_key + " to "@
                + target_key + "."@,
        ),
        TaskGraphFault::WouldCycle { source_target, target_target } => Some(
            "Unable to create task graph, adding a relationship from "@ + source_target + " to "@
                + target_target + " would introduce a cycle."@,
        ),
        TaskGraphFault::UnknownDepTargetParentScope { dep, task } => Some(
            "Invalid dependency "@ + dep + " for task "@ + task
                + ", no matching targets in project dependencies."@,
        ),
        TaskGraphFault::AllowFailureDepRequirement { dep, task } => Some(
            "Task "@ + task + " cannot depend on task "@ + dep + ", as it is allowed to fail."@,
        ),
        TaskGraphFault::RunInCiDepRequirement { dep, task } => Some(
            "Task "@ + task + " cannot depend on task "@ + dep
                + ", as the dependency cannot run in CI."@,
        ),
        TaskGraphFault::PersistentDepRequirement { dep, task } => Some(
            "Non-persistent task "@ + task + " cannot depend on persistent task "@ + dep + "."@,
        ),
        TaskGraphFault::MissingSourceGraph { source_id } => Some(
            "No task graph has been loaded for source "@ + source_id + "."@,
        ),
        TaskGraphFault::DuplicateTaskKey { key } => Some(
            "Duplicate task key "@ + key + " while composing task graphs."@,
        ),
        _ => None,
    }
}

/// Five texts in a row.
fn concat_five(a: &str, b: &str, c: &str, d: &str, e: &str) -> (text: String)
    ensures
        text@ == a@ + b@ + c@ + d@ + e@,
{
    let front = crate::text::join_two(a, b, c);
    crate::text::join_two(front.as_str(), d, e)
}

impl TaskGraphError {
    /// What the error reports to users, where it is one of the task graph's own.
    pub fn message(&self) -> (text: Option<String>)
        ensures
            view_of(text) == task_graph_message(self@),
    {
        match self {
            TaskGraphError::UnsupportedCrossSourceEdge { source_key, target_key } => Some(
                concat_five(
                    "Source-local task graph contains a cross-source edge from ",
                    source_key.as_str(),
                    " to ",
                    target_key.as_str(),
                    ".",
                ),
            ),
            TaskGraphError::WouldCycle { source_target, target_target } => Some(
                concat_five(
                    "Unable to create task graph, adding a relationship from ",
                    source_target.as_str(),
                    " to ",
                    target_target.as_str(),
                    " would introduce a cycle.",
                ),
            ),
            TaskGraphError::UnknownDepTargetParentScope { dep, task } => Some(
                concat_five(
                    "Invalid dependency ",
                    dep.as_str(),
                    " for task ",
                    task.as_str(),
                    ", no matching targets in project dependencies.",
                ),
            ),
            TaskGraphError::AllowFailureDepRequirement { dep, task } => Some(
                concat_five(
                    "Task ",
                    task.as_str(),
                    " cannot depend on task ",
                    dep.as_str(),
                    ", as it is allowed to fail.",
                ),
            ),
            TaskGraphError::RunInCiDepRequirement { dep, task } => Some(
                concat_five(
                    "Task ",
                    task.as_str(),
                    " cannot depend on task ",
                    dep.as_str(),
                    ", as the dependency cannot run in CI.",
                ),
            ),
            TaskGraphError::PersistentDepRequirement { dep, task } => Some(
                concat_five(
                    "Non-persistent task ",
                    task.as_str(),
                    " cannot depend on persistent task ",
                    dep.as_str(),
                    ".",
                ),
            ),
            TaskGraphError::MissingSourceGraph { source_id } => Some(
                crate::text::join_two(
                    "No task graph has been loaded for source ",
                    source_id.as_str(),
                    ".",
                ),
            ),
            TaskGraphError::DuplicateTaskKey { key } => Some(
                crate::text::join_two(
                    "Duplicate task key ",
                    key.as_str(),
                    " while composing task graphs.",
                ),
            ),
            _ => None,
        }
    }
}

/// A task and its number in the graph.
pub struct TaskNodeView {
    pub index: usize,
    pub task: TaskView,
}

/// A task and its number in the graph.
#[derive(Debug)]
pub struct TaskNode {
    pub index: usize,
    pub task: Task,
}

impl View for TaskNode {
    type V = TaskNodeView;

    open spec fn view(&self) -> TaskNodeView {
        TaskNodeView { index: self.index, task: self.task@ }
    }
}

impl Duplicate for TaskNode {
    fn duplicate(&self) -> Self {
        TaskNode { index: self.index, task: self.task.clone() }
    }
}

/// The graph of tasks.
pub struct TaskGraphView {
    pub context: ContextView,
    pub contexts: Map<Seq<char>, ContextView>,
    pub graph: DagView,
    pub indexes: Seq<TaskKeyView>,
    pub nodes: Map<TaskKeyView, TaskNodeView>,
    pub projects: ProjectGraphView,
}

/// The graph of tasks and the dependencies between them.
pub struct TaskGraph {
    pub context: GraphExpanderContext,
    /// The contexts of the source roots that own the tasks.
    pub contexts: Table<SourceRootId, GraphExpanderContext>,
    /// The dependencies between the numbers of the tasks.
    pub graph: DependencyDag,
    /// The key of the task with each number.
    pub indexes: Vec<TaskKey>,
    /// The tasks by key.
    pub nodes: Table<TaskKey, TaskNode>,
    /// The projects that the tasks belong to.
    pub project_graph: Arc<ProjectGraph>,
}

impl View for TaskGraph {
    type V = TaskGraphView;

    open spec fn view(&self) -> TaskGraphView {
        TaskGraphView {
            context: self.context@,
            contexts: value_views(self.contexts@),
            graph: self.graph@,
            indexes: views(self.indexes@),
            nodes: value_views(self.nodes@),
            projects: self.project_graph@,
        }
    }
}

/// The edges after a dependency between two tasks was added. Where there is one
/// already, it only becomes required; where it would close a cycle there is none.
pub open spec fn link_task(
    edges: Seq<(usize, usize, u8)>,
    from: usize,
    to: usize,
    label: u8,
) -> Option<Seq<(usize, usize, u8)>> {
    if has_edge(edges, from, to) {
        let i = choose|i: int| is_last_edge(edges, from, to, i);
        Some(
            if edges[i].2 == 0 && label == 1 {
                edges.update(i, (from, to, 1))
            } else {
                edges
            },
        )
    } else if connected(edges, to, from) {
        None
    } else {
        Some(edges.push((from, to, label)))
    }
}

/// There is one last edge.
pub proof fn last_edge_is(edges: Seq<(usize, usize, u8)>, from: usize, to: usize, i: int)
    requires
        is_last_edge(edges, from, to, i),
    ensures
        (choose|j: int| is_last_edge(edges, from, to, j)) == i,
{
    let j = choose|j: int| is_last_edge(edges, from, to, j);
    assert(is_last_edge(edges, from, to, j));
    if i < j {
        assert(edges[j].0 == from);
    }
    if j < i {
        assert(edges[i].0 == from);
    }
}

/// The tasks and numbers of a graph belong together.
pub open spec fn task_graph_valid(graph: TaskGraphView) -> bool {
    &&& graph.graph.nodes == graph.indexes.len()
    &&& forall|i: int|
        0 <= i < graph.indexes.len() ==> graph.nodes.dom().contains(#[trigger] graph.indexes[i])
    &&& forall|key: TaskKeyView| #[trigger]
        graph.nodes.dom().contains(key) ==> graph.nodes[key].index < graph.indexes.len()
}

/// The task with a key, as it was configured.
pub open spec fn unexpanded_task(graph: TaskGraphView, key: TaskKeyView) -> Result<
    TaskView,
    TaskGraphFault,
> {
    if graph.nodes.dom().contains(key) {
        Ok(graph.nodes[key].task)
    } else {
        Err(TaskGraphFault::UnknownTask { task_id: key.task, project_id: key.project.project })
    }
}

/// The task that a target names in the primary source root, as it was configured.
pub open spec fn unexpanded_target(graph: TaskGraphView, target: TargetView) -> Result<
    TaskView,
    TaskGraphFault,
> {
    match key_of_target(graph.context.registry.primary, target) {
        Some(key) => unexpanded_task(graph, key),
        None => Err(TaskGraphFault::UnqualifiedTarget { target: target_text(target) }),
    }
}

/// The keys of the tasks with these numbers.
pub open spec fn task_keys_at(graph: TaskGraphView, numbers: Seq<usize>) -> Seq<TaskKeyView> {
    numbers.map_values(|number: usize| graph.indexes[number as int])
}

/// The keys that belong to another source root.
pub open spec fn foreign_keys(keys: Seq<TaskKeyView>, source: Seq<char>) -> Seq<TaskKeyView>
    decreases keys.len(),
{
    if keys.len() == 0 {
        keys
    } else {
        let rest = foreign_keys(keys.drop_last(), source);
        if keys.last().project.source != source {
            rest.push(keys.last())
        } else {
            rest
        }
    }
}

/// What adding a dependency between two tasks gives.
pub open spec fn linked_tasks(
    before: TaskGraphView,
    source: TaskKeyView,
    target: TaskKeyView,
    label: u8,
    done: Result<(), TaskGraphError>,
    after: TaskGraphView,
) -> bool {
    let linked = link_task(
        before.graph.edges,
        before.nodes[source].index,
        before.nodes[target].index,
        label,
    );
    match done {
        Ok(()) => linked is Some && after == (TaskGraphView {
            graph: DagView { edges: linked->0, ..before.graph },
            ..before
        }),
        Err(error) => linked is None && after == before && error@ == (TaskGraphFault::WouldCycle {
            source_target: task_key_text(source),
            target_target: task_key_text(target),
        }),
    }
}

impl TaskGraph {
    /// A graph without tasks.
    pub fn new(context: GraphExpanderContext, project_graph: Arc<ProjectGraph>) -> (graph: Self)
        ensures
            graph@ == (TaskGraphView {
                context: context@,
                contexts: Map::empty().insert(context@.registry.primary, context@),
                graph: DagView { nodes: 0, edges: Seq::empty() },
                indexes: Seq::empty(),
                nodes: Map::empty(),
                projects: project_graph@,
            }),
    {
        proof {
            crate::table::value_views_empty::<Seq<char>, GraphExpanderContext>();
            crate::table::value_views_empty::<TaskKeyView, TaskNode>();
        }
        let mut contexts: Table<SourceRootId, GraphExpanderContext> = Table::new();
        contexts.insert(context.sources.primary_id().clone(), context.clone());
        let graph = TaskGraph {
            context,
            contexts,
            graph: DependencyDag::empty(),
            indexes: Vec::new(),
            nodes: Table::new(),
            project_graph,
        };
        assert(graph@.indexes =~= Seq::empty());
        graph
    }

    /// Adds a dependency between two tasks. Where there is one already, it only
    /// becomes required.
    pub fn add_edge(
        &mut self,
        source_key: &TaskKey,
        target_key: &TaskKey,
        dependency_type: TaskDependencyType,
    ) -> (done: Result<(), TaskGraphError>)
        requires
            old(self)@.nodes.dom().contains(source_key@),
            old(self)@.nodes.dom().contains(target_key@),
            old(self)@.nodes[source_key@].index < old(self)@.graph.nodes,
            old(self)@.nodes[target_key@].index < old(self)@.graph.nodes,
            old(self)@.graph.edges.len() < u32::MAX,
        ensures
            linked_tasks(
                old(self)@,
                source_key@,
                target_key@,
                dependency_type.label_spec(),
                done,
                final(self)@,
            ),
    {
        self.link_labeled(source_key, target_key, dependency_type.label())
    }

    /// Adds a dependency between two tasks.
    pub(crate) fn link_labeled(
        &mut self,
        source_key: &TaskKey,
        target_key: &TaskKey,
        label: u8,
    ) -> (done: Result<(), TaskGraphError>)
        requires
            old(self)@.nodes.dom().contains(source_key@),
            old(self)@.nodes.dom().contains(target_key@),
            old(self)@.nodes[source_key@].index < old(self)@.graph.nodes,
            old(self)@.nodes[target_key@].index < old(self)@.graph.nodes,
            old(self)@.graph.edges.len() < u32::MAX,
        ensures
            linked_tasks(old(self)@, source_key@, target_key@, label, done, final(self)@),
    {
        let from: usize = match self.nodes.get(source_key) {
            Some(node) => node.index,
            None => {
                assert(false);
                0
            },
        };
        let to: usize = match self.nodes.get(target_key) {
            Some(node) => node.index,
            None => {
                assert(false);
                0
            },
        };
        if let Some(edge) = self.graph.find_edge(from, to) {
            proof {
                last_edge_is(self@.graph.edges, from, to, edge as int);
            }
            let edges = self.graph.edges();
            if edges[edge].2 == 0 && label == 1 {
                self.graph.set_label(edge, label);
            }
            return Ok(());
        }
        if self.graph.add_edge(from, to, label) {
            Ok(())
        } else {
            Err(
                TaskGraphError::WouldCycle {
                    source_target: source_key.to_text(),
                    target_target: target_key.to_text(),
                },
            )
        }
    }

    /// The task with a key, as it was configured.
    pub fn get_unexpanded_by_key(&self, key: &TaskKey) -> (task: Result<&Task, TaskGraphError>)
        ensures
            outcome(task) == unexpanded_task(self@, key@),
    {
        match self.nodes.get(key) {
            Some(node) => Ok(&node.task),
            None => Err(
                TaskGraphError::UnknownTask {
                    task_id: key.task_id().as_str().to_owned(),
                    project_id: key.project_key().project_id().as_str().to_owned(),
                },
            ),
        }
    }

    /// The task that a target names in the primary source root, as it was configured.
    pub fn get_unexpanded(&self, target: &Target) -> (task: Result<&Task, TaskGraphError>)
        ensures
            outcome(task) == unexpanded_target(self@, target@),
    {
        match TaskKey::from_target(self.context.sources.primary_id().clone(), target) {
            Some(key) => self.get_unexpanded_by_key(&key),
            None => Err(TaskGraphError::UnqualifiedTarget { target: target.to_text() }),
        }
    }

    /// All tasks, as they were configured.
    pub fn get_all_unexpanded(&self) -> (tasks: Vec<&Task>)
        ensures
            tasks@.len() == self.nodes.keys().len(),
            forall|i: int|
                0 <= i < tasks@.len() ==> (#[trigger] tasks@[i])@
                    == self@.nodes[self.nodes.keys()[i]].task,
    {
        let n: usize = self.nodes.len();
        let mut tasks: Vec<&Task> = Vec::new();
        let mut i: usize = 0;
        while i < n
            invariant
                n == self.nodes.keys().len(),
                i <= n,
                tasks@.len() == i,
                forall|j: int|
                    0 <= j < i ==> (#[trigger] tasks@[j])@ == self@.nodes[self.nodes.keys()[j]].task,
            decreases n - i,
        {
            tasks.push(&self.nodes.value_at(i).task);
            i = i + 1;
        }
        tasks
    }
}

} // verus!
