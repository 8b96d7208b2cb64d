//! Lookups in the task graph, walks over it, and the part of it around one task.

use crate::config::{Project, ProjectView};
use crate::dag::{DagView, DependencyDag};
use crate::focus::{
    acyclic_of_places, focus, focus_edges, focus_edges_were, focus_nodes, original_edge,
};
use crate::graph::{
    acyclic, acyclic_within, connected, cycle_push, edge_list, edges_within, graph_edges,
    graph_nodes, has_edge, neighbors, neighbors_are_edges, Direction,
};
use crate::keys::{TaskKey, TaskKeyView};
use crate::order::{outcome, ranked, sort_ranked, view_of, views};
use crate::project_graph::{unexpanded, ContextView, GraphExpanderContext};
use crate::table::{value_views, Key, Table};
use crate::task::{
    key_of_target, key_of_task, target_text, Target, TargetView, Task, TaskView,
};
use crate::task_graph::{
    foreign_keys, task_graph_valid, task_keys_at, unexpanded_task, TaskGraph, TaskGraphError,
    TaskGraphFault, TaskGraphView, TaskNode, TaskNodeView,
};
use std::sync::Arc;
use vstd::prelude::*;

verus! {

broadcast use {crate::order::group_views, crate::table::value_views_insert};

/// A task as it was configured, with what its expansion needs: the project that it
/// belongs to, and the context of its source root.
pub struct ExpansionView {
    pub project: ProjectView,
    pub context: ContextView,
    pub task: TaskView,
}

/// A task as it was configured, with what its expansion needs: the project that it
/// belongs to, and the context of its source root.
pub struct TaskExpansion<'a> {
    pub project: &'a Project,
    pub context: &'a GraphExpanderContext,
    pub task: &'a Task,
}

impl<'a> View for TaskExpansion<'a> {
    type V = ExpansionView;

    open spec fn view(&self) -> ExpansionView {
        ExpansionView { project: self.project@, context: self.context@, task: self.task@ }
    }
}

/// The task with a key and what its expansion needs. A source root without a context
/// of its own shares that of the graph.
pub open spec fn task_expansion(graph: TaskGraphView, key: TaskKeyView) -> Result<
    ExpansionView,
    TaskGraphFault,
> {
    match unexpanded(graph.projects, key.project) {
        Err(fault) => Err(TaskGraphFault::Project(fault)),
        Ok(project) => match unexpanded_task(graph, key) {
            Err(fault) => Err(fault),
            Ok(task) => Ok(
                ExpansionView {
                    project,
                    context: if graph.contexts.dom().contains(key.project.source) {
                        graph.contexts[key.project.source]
                    } else {
                        graph.context
                    },
                    task,
                },
            ),
        },
    }
}

/// The task that a target names and what its expansion needs.
pub open spec fn target_expansion(graph: TaskGraphView, target: TargetView) -> Result<
    ExpansionView,
    TaskGraphFault,
> {
    match key_of_target(graph.context.registry.primary, target) {
        Some(key) => task_expansion(graph, key),
        None => Err(TaskGraphFault::UnqualifiedTarget { target: target_text(target) }),
    }
}

/// What looking up many items gives: everything that was found, or the fault of the
/// first item that was not.
pub open spec fn found_all<A, B, E>(found: spec_fn(A) -> Result<B, E>, items: Seq<A>) -> Result<
    Seq<B>,
    E,
>
    decreases items.len(),
{
    if items.len() == 0 {
        Ok(Seq::empty())
    } else {
        match found_all(found, items.drop_last()) {
            Err(fault) => Err(fault),
            Ok(front) => match found(items.last()) {
                Err(fault) => Err(fault),
                Ok(last) => Ok(front.push(last)),
            },
        }
    }
}

/// An item that is not found is not found whatever items come behind it.
pub proof fn found_all_fails<A, B, E>(
    found: spec_fn(A) -> Result<B, E>,
    items: Seq<A>,
    n: int,
    fault: E,
)
    requires
        0 <= n <= items.len(),
        found_all(found, items.take(n)) == Err::<Seq<B>, E>(fault),
    ensures
        found_all(found, items) == Err::<Seq<B>, E>(fault),
    decreases items.len(),
{
    if n == items.len() {
        assert(items.take(n) =~= items);
    } else {
        assert(items.drop_last().take(n) =~= items.take(n));
        found_all_fails(found, items.drop_last(), n, fault);
    }
}

/// One more item.
pub proof fn found_all_step<A, B, E>(found: spec_fn(A) -> Result<B, E>, items: Seq<A>, i: int)
    requires
        0 <= i < items.len(),
    ensures
        found_all(found, items.take(i + 1)) == (match found_all(found, items.take(i)) {
            Err(fault) => Err(fault),
            Ok(front) => match found(items[i]) {
                Err(fault) => Err(fault),
                Ok(last) => Ok(front.push(last)),
            },
        }),
{
    let next = items.take(i + 1);
    assert(next.drop_last() =~= items.take(i));
    assert(next.last() == items[i]);
}

/// Looks tasks up by key.
pub open spec fn expansion_finder(graph: TaskGraphView) -> spec_fn(TaskKeyView) -> Result<
    ExpansionView,
    TaskGraphFault,
> {
    |key: TaskKeyView| task_expansion(graph, key)
}

/// Looks tasks up by target.
pub open spec fn target_finder(graph: TaskGraphView) -> spec_fn(TargetView) -> Result<
    TaskKeyView,
    TaskGraphFault,
> {
    |target: TargetView|
        match key_of_target(graph.context.registry.primary, target) {
            Some(key) => Ok(key),
            None => Err(TaskGraphFault::UnqualifiedTarget { target: target_text(target) }),
        }
}

/// Looks configured tasks up by key.
pub open spec fn unexpanded_finder(graph: TaskGraphView) -> spec_fn(TaskKeyView) -> Result<
    TaskView,
    TaskGraphFault,
> {
    |key: TaskKeyView| unexpanded_task(graph, key)
}

/// Looks tasks up by the keys that targets name.
pub open spec fn found_by_targets<B>(
    graph: TaskGraphView,
    found: spec_fn(TaskKeyView) -> Result<B, TaskGraphFault>,
    targets: Seq<TargetView>,
) -> Result<Seq<B>, TaskGraphFault> {
    match found_all(target_finder(graph), targets) {
        Err(fault) => Err(fault),
        Ok(keys) => found_all(found, keys),
    }
}

impl TaskGraph {
    /// The task with a key and what its expansion needs.
    fn internal_get(&self, key: &TaskKey) -> (task: Result<TaskExpansion, TaskGraphError>)
        ensures
            outcome(task) == task_expansion(self@, key@),
    {
        let project = match self.project_graph.get_unexpanded_by_key(key.project_key()) {
            Ok(project) => project,
            Err(error) => {
                return Err(TaskGraphError::Project(error));
            },
        };
        let context = match self.contexts.get(key.project_key().source_id()) {
            Some(context) => context,
            None => &self.context,
        };
        match self.get_unexpanded_by_key(key) {
            Ok(task) => Ok(TaskExpansion { project, context, task }),
            Err(error) => Err(error),
        }
    }

    /// The task that a target names in the primary source root, and what its expansion
    /// needs.
    pub fn get(&self, target: &Target) -> (task: Result<TaskExpansion, TaskGraphError>)
        ensures
            outcome(task) == target_expansion(self@, target@),
    {
        match TaskKey::from_target(self.context.sources.primary_id().clone(), target) {
            Some(key) => self.internal_get(&key),
            None => Err(TaskGraphError::UnqualifiedTarget { target: target.to_text() }),
        }
    }

    /// The task with a key and what its expansion needs.
    pub fn get_by_key(&self, key: &TaskKey) -> (task: Result<TaskExpansion, TaskGraphError>)
        ensures
            outcome(task) == task_expansion(self@, key@),
    {
        self.internal_get(key)
    }

    /// All tasks and what their expansion needs.
    pub fn get_all(&self) -> (tasks: Result<Vec<TaskExpansion>, TaskGraphError>)
        ensures
            match tasks {
                Ok(tasks) => found_all(expansion_finder(self@), self.nodes.keys()) == Ok::<
                    Seq<ExpansionView>,
                    TaskGraphFault,
                >(views(tasks@)),
                Err(error) => found_all(expansion_finder(self@), self.nodes.keys()) == Err::<
                    Seq<ExpansionView>,
                    TaskGraphFault,
                >(error@),
            },
    {
        let n: usize = self.nodes.len();
        let ghost find = expansion_finder(self@);
        let ghost keys = self.nodes.keys();
        let mut tasks: Vec<TaskExpansion> = Vec::new();
        let mut i: usize = 0;
        assert(views(tasks@) =~= Seq::empty());
        while i < n
            invariant
                n == self.nodes.keys().len(),
                keys == self.nodes.keys(),
                find == expansion_finder(self@),
                i <= n,
                found_all(find, keys.take(i as int)) == Ok::<Seq<ExpansionView>, TaskGraphFault>(
                    views(tasks@),
                ),
            decreases n - i,
        {
            proof {
                found_all_step(find, keys, i as int);
            }
            match self.internal_get(self.nodes.key_at(i)) {
                Ok(task) => {
                    tasks.push(task);
                },
                Err(error) => {
                    proof {
                        found_all_fails(find, keys, i + 1, error@);
                    }
                    return Err(error);
                },
            }
            i = i + 1;
        }
        assert(keys.take(i as int) =~= keys);
        Ok(tasks)
    }

    /// The keys that targets name in the primary source root.
    fn keys_of_targets(&self, targets: &Vec<Target>) -> (keys: Result<Vec<TaskKey>, TaskGraphError>)
        ensures
            match keys {
                Ok(keys) => found_all(target_finder(self@), views(targets@)) == Ok::<
                    Seq<TaskKeyView>,
                    TaskGraphFault,
                >(views(keys@)),
                Err(error) => found_all(target_finder(self@), views(targets@)) == Err::<
                    Seq<TaskKeyView>,
                    TaskGraphFault,
                >(error@),
            },
    {
        let ghost find = target_finder(self@);
        let ghost all = views(targets@);
        let mut keys: Vec<TaskKey> = Vec::new();
        let mut i: usize = 0;
        assert(views(keys@) =~= Seq::empty());
        while i < targets.len()
            invariant
                all == views(targets@),
                find == target_finder(self@),
                i <= targets@.len(),
                found_all(find, all.take(i as int)) == Ok::<Seq<TaskKeyView>, TaskGraphFault>(
                    views(keys@),
                ),
            decreases targets.len() - i,
        {
            proof {
                found_all_step(find, all, i as int);
            }
            let target = &targets[i];
            match TaskKey::from_target(self.context.sources.primary_id().clone(), target) {
                Some(key) => {
                    keys.push(key);
                },
                None => {
                    let error = TaskGraphError::UnqualifiedTarget { target: target.to_text() };
                    proof {
                        found_all_fails(find, all, i + 1, error@);
                    }
                    return Err(error);
                },
            }
            i = i + 1;
        }
        assert(all.take(i as int) =~= all);
        Ok(keys)
    }

    /// The tasks that targets name in the primary source root, and what their
    /// expansion needs.
    pub fn get_many(&self, targets: &Vec<Target>) -> (tasks: Result<
        Vec<TaskExpansion>,
        TaskGraphError,
    >)
        ensures
            match tasks {
                Ok(tasks) => found_by_targets(self@, expansion_finder(self@), views(targets@))
                    == Ok::<Seq<ExpansionView>, TaskGraphFault>(views(tasks@)),
                Err(error) => found_by_targets(self@, expansion_finder(self@), views(targets@))
                    == Err::<Seq<ExpansionView>, TaskGraphFault>(error@),
            },
    {
        match self.keys_of_targets(targets) {
            Ok(keys) => self.get_many_by_key(&keys),
            Err(error) => Err(error),
        }
    }

    /// The tasks with these keys and what their expansion needs.
    pub fn get_many_by_key(&self, keys: &Vec<TaskKey>) -> (tasks: Result<
        Vec<TaskExpansion>,
        TaskGraphError,
    >)
        ensures
            match tasks {
                Ok(tasks) => found_all(expansion_finder(self@), views(keys@)) == Ok::<
                    Seq<ExpansionView>,
                    TaskGraphFault,
                >(views(tasks@)),
                Err(error) => found_all(expansion_finder(self@), views(keys@)) == Err::<
                    Seq<ExpansionView>,
                    TaskGraphFault,
                >(error@),
            },
    {
        let ghost find = expansion_finder(self@);
        let ghost all = views(keys@);
        let mut tasks: Vec<TaskExpansion> = Vec::new();
        let mut i: usize = 0;
        assert(views(tasks@) =~= Seq::empty());
        while i < keys.len()
            invariant
                all == views(keys@),
                find == expansion_finder(self@),
                i <= keys@.len(),
                found_all(find, all.take(i as int)) == Ok::<Seq<ExpansionView>, TaskGraphFault>(
                    views(tasks@),
                ),
            decreases keys.len() - i,
        {
            proof {
                found_all_step(find, all, i as int);
            }
            match self.internal_get(&keys[i]) {
                Ok(task) => {
                    tasks.push(task);
                },
                Err(error) => {
                    proof {
                        found_all_fails(find, all, i + 1, error@);
                    }
                    return Err(error);
                },
            }
            i = i + 1;
        }
        assert(all.take(i as int) =~= all);
        Ok(tasks)
    }

    /// The tasks that targets name in the primary source root, as they were configured.
    pub fn get_many_unexpanded(&self, targets: &Vec<Target>) -> (tasks: Result<
        Vec<&Task>,
        TaskGraphError,
    >)
        ensures
            match tasks {
                Ok(tasks) => found_by_targets(self@, unexpanded_finder(self@), views(targets@))
                    == Ok::<Seq<TaskView>, TaskGraphFault>(views(tasks@)),
                Err(error) => found_by_targets(self@, unexpanded_finder(self@), views(targets@))
                    == Err::<Seq<TaskView>, TaskGraphFault>(error@),
            },
    {
        match self.keys_of_targets(targets) {
            Ok(keys) => self.get_many_unexpanded_by_key(&keys),
            Err(error) => Err(error),
        }
    }

    /// The tasks with these keys, as they were configured.
    pub fn get_many_unexpanded_by_key(&self, keys: &Vec<TaskKey>) -> (tasks: Result<
        Vec<&Task>,
        TaskGraphError,
    >)
        ensures
            match tasks {
                Ok(tasks) => found_all(unexpanded_finder(self@), views(keys@)) == Ok::<
                    Seq<TaskView>,
                    TaskGraphFault,
                >(views(tasks@)),
                Err(error) => found_all(unexpanded_finder(self@), views(keys@)) == Err::<
                    Seq<TaskView>,
                    TaskGraphFault,
                >(error@),
            },
    {
        let ghost find = unexpanded_finder(self@);
        let ghost all = views(keys@);
        let mut tasks: Vec<&Task> = Vec::new();
        let mut i: usize = 0;
        assert(views(tasks@) =~= Seq::empty());
        while i < keys.len()
            invariant
                all == views(keys@),
                find == unexpanded_finder(self@),
                i <= keys@.len(),
                found_all(find, all.take(i as int)) == Ok::<Seq<TaskView>, TaskGraphFault>(
                    views(tasks@),
                ),
            decreases keys.len() - i,
        {
            proof {
                found_all_step(find, all, i as int);
            }
            match self.get_unexpanded_by_key(&keys[i]) {
                Ok(task) => {
                    tasks.push(task);
                },
                Err(error) => {
                    proof {
                        found_all_fails(find, all, i + 1, error@);
                    }
                    return Err(error);
                },
            }
            i = i + 1;
        }
        assert(all.take(i as int) =~= all);
        Ok(tasks)
    }
}

/// The keys of the neighbors of a task.
pub open spec fn task_neighbors(
    graph: TaskGraphView,
    key: TaskKeyView,
    direction: Direction,
) -> Seq<TaskKeyView> {
    task_keys_at(graph, neighbors(graph.graph.edges, graph.nodes[key].index, direction))
}

/// The keys of the tasks that a task depends on, in order.
pub open spec fn sorted_dependencies(graph: TaskGraphView, key: TaskKeyView) -> Seq<TaskKeyView> {
    ranked::<TaskKey>(task_neighbors(graph, key, Direction::Outgoing))
}

/// The first key that belongs to another source root.
pub open spec fn first_foreign(keys: Seq<TaskKeyView>, source: Seq<char>) -> Option<TaskKeyView>
    decreases keys.len(),
{
    if keys.len() == 0 {
        None
    } else if keys[0].project.source != source {
        Some(keys[0])
    } else {
        first_foreign(keys.skip(1), source)
    }
}

/// The first key of another source root that a breadth-first walk comes to.
pub open spec fn search_closure(
    graph: TaskGraphView,
    source: Seq<char>,
    visited: Set<TaskKeyView>,
    pending: Seq<TaskKeyView>,
) -> Option<TaskKeyView>
    decreases graph.nodes.dom().difference(visited).len(), pending.len(),
    when graph.nodes.dom().finite()
{
    if pending.len() == 0 {
        None
    } else {
        let current = pending[0];
        let rest = pending.skip(1);
        proof {
            less_to_visit(graph.nodes.dom(), visited, current);
        }
        if visited.contains(current) {
            search_closure(graph, source, visited, rest)
        } else if !graph.nodes.dom().contains(current) {
            search_closure(graph, source, visited.insert(current), rest)
        } else {
            let dependencies = sorted_dependencies(graph, current);
            match first_foreign(dependencies, source) {
                Some(key) => Some(key),
                None => search_closure(
                    graph,
                    source,
                    visited.insert(current),
                    rest + dependencies,
                ),
            }
        }
    }
}

/// There is less to visit once something was visited.
pub proof fn less_to_visit(all: Set<TaskKeyView>, visited: Set<TaskKeyView>, current: TaskKeyView)
    requires
        all.finite(),
    ensures
        all.difference(visited).finite(),
        all.contains(current) && !visited.contains(current) ==> all.difference(
            visited.insert(current),
        ).len() < all.difference(visited).len(),
        !all.contains(current) ==> all.difference(visited.insert(current)) == all.difference(visited),
{
    let left = all.difference(visited);
    assert(all.difference(visited.insert(current)) =~= left.remove(current));
    if !all.contains(current) {
        assert(left.remove(current) =~= left);
    }
}

impl TaskGraph {
    /// The keys of the neighbors of the task with a number.
    fn neighbor_keys(&self, index: usize, direction: Direction) -> (keys: Vec<TaskKey>)
        requires
            task_graph_valid(self@),
            index < self@.indexes.len(),
        ensures
            views(keys@) == task_keys_at(self@, neighbors(self@.graph.edges, index, direction)),
    {
        let _ = self.graph.graph();
        let numbers = self.graph.neighbors(index, direction);
        let ghost all = task_keys_at(self@, numbers@);
        let mut keys: Vec<TaskKey> = Vec::new();
        let mut i: usize = 0;
        proof {
            assert(views(keys@) =~= all.take(0));
            assert forall|j: int| 0 <= j < numbers@.len() implies #[trigger] numbers@[j]
                < self@.indexes.len() by {
                assert(numbers@.contains(numbers@[j]));
                neighbors_are_edges(self@.graph.edges, index, direction, numbers@[j]);
            }
        }
        while i < numbers.len()
            invariant
                i <= numbers@.len(),
                all == task_keys_at(self@, numbers@),
                forall|j: int|
                    0 <= j < numbers@.len() ==> #[trigger] numbers@[j] < self@.indexes.len(),
                views(keys@) == all.take(i as int),
            decreases numbers.len() - i,
        {
            assert(numbers@[i as int] < self@.indexes.len());
            keys.push(self.indexes[numbers[i]].clone());
            assert(views(keys@) =~= all.take(i + 1));
            i = i + 1;
        }
        assert(all.take(i as int) =~= all);
        keys
    }

    /// The keys of the tasks that a task depends on.
    pub fn dependencies_of(&self, task: &Task) -> (keys: Vec<TaskKey>)
        requires
            task_graph_valid(self@),
            key_of_task(task@) is Some,
            self@.nodes.dom().contains(key_of_task(task@)->0),
        ensures
            views(keys@) == task_neighbors(self@, key_of_task(task@)->0, Direction::Outgoing),
    {
        let key = task.key();
        match self.nodes.get(&key) {
            Some(node) => {
                assert(self@.nodes.dom().contains(key@));
                self.neighbor_keys(node.index, Direction::Outgoing)
            },
            None => {
                assert(false);
                Vec::new()
            },
        }
    }

    /// The keys of the tasks that depend on a task.
    pub fn dependents_of(&self, task: &Task) -> (keys: Vec<TaskKey>)
        requires
            task_graph_valid(self@),
            key_of_task(task@) is Some,
            self@.nodes.dom().contains(key_of_task(task@)->0),
        ensures
            views(keys@) == task_neighbors(self@, key_of_task(task@)->0, Direction::Incoming),
    {
        let key = task.key();
        match self.nodes.get(&key) {
            Some(node) => {
                assert(self@.nodes.dom().contains(key@));
                self.neighbor_keys(node.index, Direction::Incoming)
            },
            None => {
                assert(false);
                Vec::new()
            },
        }
    }

    /// The direct dependencies of a task that belong to another source root, in order.
    pub fn cross_source_dependencies_of(&self, key: &TaskKey) -> (keys: Vec<TaskKey>)
        requires
            task_graph_valid(self@),
        ensures
            views(keys@) == if self@.nodes.dom().contains(key@) {
                ranked::<TaskKey>(
                    foreign_keys(
                        task_neighbors(self@, key@, Direction::Outgoing),
                        key@.project.source,
                    ),
                )
            } else {
                Seq::empty()
            },
    {
        let index: usize = match self.nodes.get(key) {
            Some(node) => node.index,
            None => {
                let keys: Vec<TaskKey> = Vec::new();
                assert(views(keys@) =~= Seq::empty());
                return keys;
            },
        };
        assert(self@.nodes.dom().contains(key@));
        let all = self.neighbor_keys(index, Direction::Outgoing);
        let source = key.project_key().source_id();
        let ghost items = views(all@);
        let mut keys: Vec<TaskKey> = Vec::new();
        let mut i: usize = 0;
        assert(items.take(0) =~= Seq::empty());
        assert(views(keys@) =~= Seq::empty());
        while i < all.len()
            invariant
                i <= all@.len(),
                items == views(all@),
                source@ == key@.project.source,
                views(keys@) == foreign_keys(items.take(i as int), source@),
            decreases all.len() - i,
        {
            proof {
                let next = items.take(i + 1);
                assert(next.drop_last() =~= items.take(i as int));
                assert(next.last() == all[i as int]@);
            }
            if !all[i].project_key().source_id().same_key(source) {
                keys.push(all[i].clone());
            }
            i = i + 1;
        }
        assert(items.take(i as int) =~= items);
        sort_ranked(keys)
    }

    /// The first dependency on another source root in the closure of a task, nearest
    /// first.
    pub fn cross_source_dependency_in_closure(&self, key: &TaskKey) -> (found: Option<TaskKey>)
        requires
            task_graph_valid(self@),
        ensures
            view_of(found) == search_closure(
                self@,
                key@.project.source,
                Set::empty(),
                seq![key@],
            ),
    {
        let source = key.project_key().source_id();
        let _ = self.nodes.len();
        let mut visited: Table<TaskKey, bool> = Table::new();
        let mut pending: Vec<TaskKey> = Vec::new();
        pending.push(key.clone());
        let mut head: usize = 0;
        let ghost dom = self@.nodes.dom();
        assert(dom =~= self.nodes@.dom());
        assert(visited@.dom() =~= Set::empty());
        assert(views(pending@).skip(0) =~= seq![key@]);
        while head < pending.len()
            invariant
                task_graph_valid(self@),
                dom == self@.nodes.dom(),
                dom.finite(),
                head <= pending@.len(),
                source@ == key@.project.source,
                search_closure(self@, source@, Set::empty(), seq![key@]) == search_closure(
                    self@,
                    source@,
                    visited@.dom(),
                    views(pending@).skip(head as int),
                ),
            decreases dom.difference(visited@.dom()).len(), pending.len() - head,
        {
            let ghost todo = views(pending@).skip(head as int);
            let current = pending[head].clone();
            let ghost before = visited@.dom();
            head = head + 1;
            proof {
                assert(todo[0] == current@);
                assert(todo.skip(1) =~= views(pending@).skip(head as int));
                less_to_visit(dom, before, current@);
            }
            if visited.contains(&current) {
                continue ;
            }
            visited.insert(current.clone(), true);
            assert(visited@.dom() =~= before.insert(current@));
            let index: usize = match self.nodes.get(&current) {
                Some(node) => node.index,
                None => {
                    continue ;
                },
            };
            assert(self@.nodes.dom().contains(current@));
            let dependencies = sort_ranked(self.neighbor_keys(index, Direction::Outgoing));
            let ghost deps = views(dependencies@);
            let ghost base = views(pending@);
            let mut i: usize = 0;
            assert(deps.skip(0) =~= deps);
            assert(base + deps.take(0) =~= base);
            while i < dependencies.len()
                invariant
                    i <= dependencies@.len(),
                    deps == views(dependencies@),
                    source@ == key@.project.source,
                    views(pending@) == base + deps.take(i as int),
                    first_foreign(deps, source@) == first_foreign(deps.skip(i as int), source@),
                    deps == sorted_dependencies(self@, current@),
                    search_closure(self@, source@, Set::empty(), seq![key@]) == (match first_foreign(
                        deps,
                        source@,
                    ) {
                        Some(key) => Some(key),
                        None => search_closure(
                            self@,
                            source@,
                            before.insert(current@),
                            todo.skip(1) + deps,
                        ),
                    }),
                decreases dependencies.len() - i,
            {
                let dependency = &dependencies[i];
                proof {
                    assert(deps.skip(i as int)[0] == dependency@);
                    assert(deps.skip(i as int).skip(1) =~= deps.skip(i + 1));
                }
                if !dependency.project_key().source_id().same_key(source) {
                    return Some(dependency.clone());
                }
                pending.push(dependency.clone());
                assert(views(pending@) =~= base + deps.take(i + 1));
                i = i + 1;
            }
            proof {
                assert(deps.take(i as int) =~= deps);
                assert(deps.skip(i as int) =~= Seq::empty());
                assert(views(pending@).skip(head as int) =~= todo.skip(1) + deps);
            }
        }
        assert(views(pending@).skip(head as int) =~= Seq::empty());
        None
    }
}

/// The tasks that are kept, numbered by their places.
pub open spec fn focused_tasks(graph: TaskGraphView, kept: Seq<usize>) -> Map<
    TaskKeyView,
    TaskNodeView,
>
    decreases kept.len(),
{
    if kept.len() == 0 {
        Map::empty()
    } else {
        let key = graph.indexes[kept.last() as int];
        focused_tasks(graph, kept.drop_last()).insert(
            key,
            TaskNodeView { index: (kept.len() - 1) as usize, task: graph.nodes[key].task },
        )
    }
}

/// The part of the graph around the task with a number.
pub open spec fn focused_task_graph(
    graph: TaskGraphView,
    start: usize,
    with_dependents: bool,
) -> TaskGraphView {
    let kept = focus_nodes(graph.graph.edges, start, with_dependents, graph.graph.nodes);
    TaskGraphView {
        graph: DagView { nodes: kept.len(), edges: focus_edges(graph.graph.edges, kept) },
        indexes: task_keys_at(graph, kept),
        nodes: focused_tasks(graph, kept),
        ..graph
    }
}

/// The part of the graph around the task with a key.
pub open spec fn focused_for_task(
    graph: TaskGraphView,
    key: TaskKeyView,
    with_dependents: bool,
) -> Result<TaskGraphView, TaskGraphFault> {
    match task_expansion(graph, key) {
        Err(fault) => Err(fault),
        Ok(_) => Ok(focused_task_graph(graph, graph.nodes[key].index, with_dependents)),
    }
}

/// A graph whose edges are edges of a graph without cycles between the nodes at their
/// places has no cycle.
proof fn focus_is_acyclic(edges: Seq<(usize, usize, u8)>, kept: Seq<usize>)
    requires
        acyclic(edges),
        kept.len() <= usize::MAX,
    ensures
        acyclic(focus_edges(edges, kept)),
{
    let focused = focus_edges(edges, kept);
    focus_edges_were(edges, kept);
    assert forall|a: usize, b: usize| #[trigger] has_edge(focused, a, b) implies has_edge(
        edges,
        kept[a as int],
        kept[b as int],
    ) by {
        let i = choose|i: int|
            0 <= i < focused.len() && (#[trigger] focused[i]).0 == a && focused[i].1 == b;
        let edge = original_edge(kept, focused[i]);
        assert(edges.contains(edge));
        let j = choose|j: int| 0 <= j < edges.len() && edges[j] == edge;
        assert(edges[j].0 == kept[a as int] && edges[j].1 == kept[b as int]);
    }
    acyclic_of_places(focused, kept, edges);
}

/// The next edge of a graph without cycles closes no cycle.
proof fn next_edge_is_free(edges: Seq<(usize, usize, u8)>, i: int)
    requires
        acyclic(edges),
        0 <= i < edges.len(),
    ensures
        !connected(edges.take(i), edges[i].1, edges[i].0),
{
    let front = edges.take(i);
    if connected(front, edges[i].1, edges[i].0) {
        cycle_push(front, edges[i]);
        let more = front.push(edges[i]);
        assert forall|a: usize, b: usize| #[trigger] has_edge(more, a, b) implies has_edge(
            edges,
            a,
            b,
        ) by {
            let j = choose|j: int|
                0 <= j < more.len() && (#[trigger] more[j]).0 == a && more[j].1 == b;
            assert(edges[j] == more[j]);
        }
        acyclic_within(more, edges);
    }
}

/// A graph that stays free of cycles with the nodes and edges of another graph.
fn dag_of(graph: &petgraph::Graph<usize, u8, petgraph::Directed, u32>) -> (dag: DependencyDag)
    requires
        acyclic(graph_edges(*graph)),
    ensures
        dag@ == (DagView { nodes: graph_nodes(*graph), edges: graph_edges(*graph) }),
{
    let n: usize = crate::graph::node_count(graph);
    let edges = edge_list(graph);
    let mut dag = DependencyDag::empty();
    let mut i: usize = 0;
    while i < n
        invariant
            i <= n <= u32::MAX,
            dag@ == (DagView { nodes: i as nat, edges: Seq::empty() }),
        decreases n - i,
    {
        let _ = dag.add_node();
        i = i + 1;
    }
    let ghost all = edges@;
    let mut j: usize = 0;
    assert(all.take(0) =~= Seq::empty());
    while j < edges.len()
        invariant
            j <= edges@.len(),
            edges@ == all,
            acyclic(all),
            edges_within(all, n as nat),
            all.len() <= u32::MAX,
            dag@ == (DagView { nodes: n as nat, edges: all.take(j as int) }),
        decreases edges.len() - j,
    {
        let edge = edges[j];
        proof {
            next_edge_is_free(all, j as int);
            assert(all[j as int].0 < n);
            assert(all.take(j + 1) =~= all.take(j as int).push(edge));
        }
        let _ = dag.add_edge(edge.0, edge.1, edge.2);
        j = j + 1;
    }
    assert(all.take(j as int) =~= all);
    dag
}

impl TaskGraph {
    /// The tasks that are kept, numbered by their places, and their keys.
    fn focused_nodes(&self, kept: &Vec<usize>) -> (focused: (
        Vec<TaskKey>,
        Table<TaskKey, TaskNode>,
    ))
        requires
            task_graph_valid(self@),
            forall|i: int| 0 <= i < kept@.len() ==> #[trigger] kept@[i] < self@.indexes.len(),
        ensures
            views((focused.0)@) == task_keys_at(self@, kept@),
            value_views((focused.1)@) == focused_tasks(self@, kept@),
    {
        let mut indexes: Vec<TaskKey> = Vec::new();
        let mut nodes: Table<TaskKey, TaskNode> = Table::new();
        let ghost all = kept@;
        let ghost keys = task_keys_at(self@, all);
        let mut i: usize = 0;
        proof {
            crate::table::value_views_empty::<TaskKeyView, TaskNode>();
            assert(all.take(0) =~= Seq::empty());
            assert(views(indexes@) =~= keys.take(0));
        }
        while i < kept.len()
            invariant
                i <= kept@.len(),
                all == kept@,
                keys == task_keys_at(self@, all),
                task_graph_valid(self@),
                forall|i: int| 0 <= i < kept@.len() ==> #[trigger] kept@[i] < self@.indexes.len(),
                views(indexes@) == keys.take(i as int),
                value_views(nodes@) == focused_tasks(self@, all.take(i as int)),
            decreases kept.len() - i,
        {
            proof {
                let next = all.take(i + 1);
                assert(next.drop_last() =~= all.take(i as int));
                assert(next.last() == all[i as int]);
                assert(kept@[i as int] < self@.indexes.len());
                assert(self@.nodes.dom().contains(self@.indexes[kept@[i as int] as int]));
            }
            let key = &self.indexes[kept[i]];
            indexes.push(key.clone());
            assert(views(indexes@) =~= keys.take(i + 1));
            match self.nodes.get(key) {
                Some(node) => {
                    nodes.insert(key.clone(), TaskNode { index: i, task: node.task.clone() });
                },
                None => {
                    assert(false);
                },
            }
            i = i + 1;
        }
        assert(all.take(i as int) =~= all);
        assert(keys.take(i as int) =~= keys);
        (indexes, nodes)
    }

    /// The part of the graph around the task that a target names in the primary source
    /// root: the task with its dependencies, and where asked for its dependents.
    pub fn focus_for(&self, target: &Target, with_dependents: bool) -> (focused: Result<
        TaskGraph,
        TaskGraphError,
    >)
        requires
            task_graph_valid(self@),
        ensures
            outcome(focused) == (match key_of_target(self@.context.registry.primary, target@) {
                None => Err::<TaskGraphView, TaskGraphFault>(
                    TaskGraphFault::UnqualifiedTarget { target: target_text(target@) },
                ),
                Some(key) => focused_for_task(self@, key, with_dependents),
            }),
    {
        match TaskKey::from_target(self.context.sources.primary_id().clone(), target) {
            Some(key) => self.focus_for_key(&key, with_dependents),
            None => Err(TaskGraphError::UnqualifiedTarget { target: target.to_text() }),
        }
    }

    /// The part of the graph around the task with a key.
    pub fn focus_for_key(&self, key: &TaskKey, with_dependents: bool) -> (focused: Result<
        TaskGraph,
        TaskGraphError,
    >)
        requires
            task_graph_valid(self@),
        ensures
            outcome(focused) == focused_for_task(self@, key@, with_dependents),
    {
        match self.internal_get(key) {
            Ok(_) => {},
            Err(error) => {
                return Err(error);
            },
        }
        let start: usize = match self.nodes.get(key) {
            Some(node) => node.index,
            None => {
                assert(false);
                0
            },
        };
        assert(self@.nodes.dom().contains(key@));
        let (kept, graph) = focus(self.graph.graph(), start, with_dependents);
        proof {
            focus_is_acyclic(self@.graph.edges, kept@);
        }
        let (indexes, nodes) = self.focused_nodes(&kept);
        Ok(
            TaskGraph {
                context: self.context.clone(),
                contexts: self.contexts.copy(),
                graph: dag_of(&graph),
                indexes,
                nodes,
                project_graph: Arc::clone(&self.project_graph),
            },
        )
    }
}

} // verus!
