//! The actions that run tasks, with their dependencies and dependents.

use crate::action_install::{install_all, install_dependencies_by_toolchains};
use crate::action_node::{ActionNode, NodeView, RunTaskNode, RunTaskView};
use crate::action_run::{
    in_scope, is_task_affected, sync_project, sync_project_step, task_affected, RunRequirements,
};
use crate::action_scene::{
    ready_task, resolved_for, scene_valid, ActionScene, ResolvedTaskDependency, ResolvedView,
    SceneView,
};
use crate::action_setup::{
    settles_all, sync_workspace_for, sync_workspace_step, told_all, Step, Steps,
};
use crate::action_state::{
    edges_known, grows_on, link_all, link_all_waits, link_serial, may_wait, place_of_node,
    required, settles, state_valid, targets_known, told, waits_for, waits_still, with_node,
    ActionGraphError, ActionGraphFault, ActionGraphState, StateView,
};
use crate::affected::RelationScope;
use crate::config::{key_of_project, Project};
use crate::graph::{has_edge, Direction};
use crate::id::Id;
use crate::environment::{copy_env, env_views, list_env, new_env, EnvMap};
use crate::invocation::{invocation_variant, EnvView, InvocationView, TaskInvocationKey};
use crate::keys::{ProjectKeyView, TaskKey, TaskKeyView};
use crate::keyset::KeySet;
use crate::order::views;
use crate::project_graph::unexpanded;
use crate::runtime::runtime_of;
use crate::table::Key;
use crate::task::{copy_texts, key_of_task, runs_in, Task, TaskView};
use crate::task_queries::task_neighbors;
use vstd::prelude::*;

verus! {

broadcast use {crate::order::group_views, crate::table::value_views_insert};

/// The arguments and the environment that a task is invoked with.
pub struct CallView {
    pub args: Seq<Seq<char>>,
    pub env: Seq<EnvView>,
}

/// The arguments and the environment that a task is invoked with.
#[derive(Debug)]
pub struct TaskCall {
    pub args: Vec<String>,
    pub env: EnvMap,
}

impl View for TaskCall {
    type V = CallView;

    open spec fn view(&self) -> CallView {
        CallView { args: views(self.args@), env: env_views(self.env) }
    }
}

impl TaskCall {
    /// A task that is invoked by itself.
    pub fn plain() -> (call: Self)
        ensures
            call@ == plain_call(),
    {
        let call = TaskCall { args: Vec::new(), env: new_env() };
        assert(call@.args =~= Seq::empty());
        assert(call@.env =~= Seq::empty());
        call
    }
}

/// A task that is invoked by itself.
pub open spec fn plain_call() -> CallView {
    CallView { args: Seq::empty(), env: Seq::empty() }
}

/// What steps make of the graph, and the actions that they give with the kind of each.
pub type TaskSteps = (StateView, Result<Seq<(Option<usize>, u8)>, ActionGraphFault>);

/// The run of a task as an action.
pub open spec fn run_node(
    task: TaskView,
    key: TaskKeyView,
    reqs: RunRequirements,
    call: CallView,
) -> NodeView {
    NodeView::RunTask(
        RunTaskView {
            args: call.args,
            env: call.env.to_set(),
            interactive: task.options.interactive || reqs.interactive,
            persistent: task.options.persistent,
            priority: task.options.priority,
            key,
            target: task.target,
            numbered: true,
        },
    )
}

/// The keys of the tasks that a task depends on.
pub open spec fn dependency_keys(dependencies: Seq<ResolvedView>) -> Set<TaskKeyView> {
    dependencies.map_values(|dependency: ResolvedView| dependency.key).to_set()
}

/// What a task waits for besides other tasks: its project, its dependencies, and the
/// workspace where there is nothing else.
pub open spec fn prerequisites(
    scene: SceneView,
    state: StateView,
    project: ProjectKeyView,
    toolchains: Seq<Seq<char>>,
    reqs: RunRequirements,
) -> Steps {
    let (synced, first) = sync_project_step(scene, state, project, reqs, Set::empty());
    match first {
        Err(fault) => (synced, Err(fault)),
        Ok(first) => {
            let (installed, edges) = install_all(scene, synced, project, toolchains);
            match edges {
                Err(fault) => (installed, Err(fault)),
                Ok(edges) => if crate::action_state::first_some(seq![first] + edges) is Some {
                    (installed, Ok(seq![first] + edges))
                } else {
                    let (after, workspace) = sync_workspace_step(scene, installed, project.source);
                    match workspace {
                        Err(fault) => (after, Err(fault)),
                        Ok(workspace) => (after, Ok((seq![first] + edges).push(workspace))),
                    }
                },
            }
        },
    }
}

/// The run of a task. Nothing runs that is not affected or was found not to run.
pub open spec fn run_task_step(
    scene: SceneView,
    state: StateView,
    key: TaskKeyView,
    reqs: RunRequirements,
    call: CallView,
    depth: nat,
    via_dependency: bool,
) -> Step
    decreases 255 - depth, 0nat, 0nat,
{
    let invocation = InvocationView {
        task: key,
        variant: invocation_variant(call.args, call.env),
    };
    match ready_task(scene, key) {
        Err(fault) => (state, Err(fault)),
        Ok(task) => match runtime_of(scene.runtimes.entries, key.project.source) {
            Err(fault) => (state, Err(ActionGraphFault::Runtime(fault))),
            Ok(_) => match unexpanded(scene.projects, key.project) {
                Err(fault) => (state, Err(ActionGraphFault::Project(fault))),
                Ok(project) => if !task_affected(scene, reqs, key) || state.passthrough.contains(
                    invocation,
                ) {
                    (state, Ok(None))
                } else if depth >= 255 {
                    (state, Err(ActionGraphFault::DepthExceeded))
                } else {
                    let below = in_scope(reqs.dependencies, depth);
                    let above = !via_dependency && in_scope(reqs.dependents, depth);
                    if reqs.ci_check && !runs_in(task.options, reqs.ci) {
                        let marked = StateView {
                            passthrough: state.passthrough.insert(invocation),
                            ..state
                        };
                        dependents_then(
                            scene,
                            marked,
                            task_neighbors(scene.tasks, key, Direction::Incoming),
                            reqs,
                            depth + 1,
                            above,
                            None,
                        )
                    } else {
                        let node = run_node(task, key, reqs, call);
                        let freed = without_marks(state, key, below, above);
                        match place_of_node(state.nodes, node) {
                            Some(index) => known_task_step(
                                scene,
                                freed,
                                index,
                                key,
                                task,
                                reqs,
                                depth + 1,
                                below && state.ignored_dependencies.dom().contains(key),
                                above && state.ignored_dependents.contains(key),
                            ),
                            None => new_task_step(
                                scene,
                                freed,
                                node,
                                key,
                                task,
                                key_of_project(project),
                                reqs,
                                depth + 1,
                                below,
                                above,
                            ),
                        }
                    }
                },
            },
        },
    }
}

/// A task that was added before. What was left out then is added now, where it is wanted.
pub open spec fn known_task_step(
    scene: SceneView,
    state: StateView,
    index: usize,
    key: TaskKeyView,
    task: TaskView,
    reqs: RunRequirements,
    depth: nat,
    below: bool,
    above: bool,
) -> Step
    decreases 255 - depth, 2nat, 0nat,
{
    let (before, edges) = if below {
        run_dependencies(
            scene,
            state,
            resolved_for(scene, key),
            task.options.run_deps_in_parallel,
            RunRequirements { skip_affected: true, ..reqs },
            depth,
        )
    } else {
        (state, Ok(Seq::empty()))
    };
    match edges {
        Err(fault) => (before, Err(fault)),
        Ok(edges) => {
            let (linked, done) = link_all(before, index, edges);
            match done {
                Err(fault) => (linked, Err(fault)),
                Ok(_) => dependents_then(
                    scene,
                    linked,
                    task_neighbors(scene.tasks, key, Direction::Incoming),
                    reqs,
                    depth,
                    above,
                    Some(index),
                ),
            }
        },
    }
}

/// An action waits for some others, and then for more.
pub open spec fn link_both(
    state: StateView,
    index: usize,
    front: Seq<(Option<usize>, u8)>,
    back: Seq<(Option<usize>, u8)>,
) -> (StateView, Result<(), ActionGraphFault>) {
    let (linked, done) = link_all(state, index, front);
    match done {
        Err(fault) => (linked, Err(fault)),
        Ok(_) => link_all(linked, index, back),
    }
}

/// A task that is added behind what it waits for. Dependencies and dependents that are not
/// wanted are remembered.
pub open spec fn new_task_step(
    scene: SceneView,
    state: StateView,
    node: NodeView,
    key: TaskKeyView,
    task: TaskView,
    project: ProjectKeyView,
    reqs: RunRequirements,
    depth: nat,
    below: bool,
    above: bool,
) -> Step
    decreases 255 - depth, 2nat, 0nat,
{
    let (prepared, first) = prerequisites(scene, state, project, task.toolchains, reqs);
    match first {
        Err(fault) => (prepared, Err(fault)),
        Ok(first) => {
            let (added, index) = with_node(prepared, node);
            match index {
                Ok(Some(index)) => {
                    let (before, edges) = wanted_dependencies(
                        scene,
                        added,
                        key,
                        task,
                        reqs,
                        depth,
                        below,
                    );
                    match edges {
                        Err(fault) => (before, Err(fault)),
                        Ok(edges) => {
                            let (after, done) = link_both(before, index, required(first), edges);
                            match done {
                                Err(fault) => (after, Err(fault)),
                                Ok(_) => if above {
                                    dependents_then(
                                        scene,
                                        after,
                                        task_neighbors(scene.tasks, key, Direction::Incoming),
                                        reqs,
                                        depth,
                                        true,
                                        Some(index),
                                    )
                                } else {
                                    (
                                        StateView {
                                            ignored_dependents: after.ignored_dependents.insert(
                                                key,
                                            ),
                                            ..after
                                        },
                                        Ok(Some(index)),
                                    )
                                },
                            }
                        },
                    }
                },
                _ => (added, index),
            }
        },
    }
}

/// The runs of the dependencies of a task where they are wanted. Those that are not wanted
/// are remembered.
pub open spec fn wanted_dependencies(
    scene: SceneView,
    state: StateView,
    key: TaskKeyView,
    task: TaskView,
    reqs: RunRequirements,
    depth: nat,
    below: bool,
) -> TaskSteps
    decreases 255 - depth, 1nat, resolved_for(scene, key).len() + 1,
{
    let dependencies = resolved_for(scene, key);
    if below {
        run_dependencies(
            scene,
            state,
            dependencies,
            task.options.run_deps_in_parallel,
            RunRequirements { skip_affected: true, ..reqs },
            depth,
        )
    } else if dependencies.len() > 0 {
        (
            StateView {
                ignored_dependencies: state.ignored_dependencies.insert(
                    key,
                    dependency_keys(dependencies),
                ),
                ..state
            },
            Ok(Seq::empty()),
        )
    } else {
        (state, Ok(Seq::empty()))
    }
}

/// What a task that is added waits for: its prerequisites, and the runs of its dependencies
/// where they are wanted.
pub open spec fn awaited(
    scene: SceneView,
    state: StateView,
    node: NodeView,
    key: TaskKeyView,
    task: TaskView,
    project: ProjectKeyView,
    reqs: RunRequirements,
    depth: nat,
    below: bool,
) -> Option<Seq<(Option<usize>, u8)>> {
    let (prepared, first) = prerequisites(scene, state, project, task.toolchains, reqs);
    match first {
        Err(_) => None,
        Ok(first) => match wanted_dependencies(
            scene,
            with_node(prepared, node).0,
            key,
            task,
            reqs,
            depth,
            below,
        ).1 {
            Err(_) => None,
            Ok(edges) => Some(required(first) + edges),
        },
    }
}

/// A task that was added at a place waits for its prerequisites and its dependencies.
pub open spec fn added_task_waits(
    scene: SceneView,
    before: StateView,
    after: StateView,
    key: TaskKeyView,
    reqs: RunRequirements,
    call: CallView,
    depth: nat,
    via_dependency: bool,
    index: usize,
) -> bool {
    match (ready_task(scene, key), unexpanded(scene.projects, key.project)) {
        (Ok(task), Ok(project)) => {
            let node = run_node(task, key, reqs, call);
            let below = in_scope(reqs.dependencies, depth);
            let above = !via_dependency && in_scope(reqs.dependents, depth);
            place_of_node(before.nodes, node) is None ==> {
                let edges = awaited(
                    scene,
                    without_marks(before, key, below, above),
                    node,
                    key,
                    task,
                    key_of_project(project),
                    reqs,
                    depth + 1,
                    below,
                );
                edges is Some && waits_for(after, index, edges->0)
            }
        },
        _ => false,
    }
}

/// What is remembered of a task that was left out, without what is added now.
pub open spec fn without_marks(state: StateView, key: TaskKeyView, below: bool, above: bool) -> StateView {
    StateView {
        ignored_dependencies: if below {
            state.ignored_dependencies.remove(key)
        } else {
            state.ignored_dependencies
        },
        ignored_dependents: if above {
            state.ignored_dependents.remove(key)
        } else {
            state.ignored_dependents
        },
        ..state
    }
}

/// The runs of the dependencies of a task, one after the other. Unless they may run at the
/// same time, each with all tasks below it waits for the one before it.
pub open spec fn run_dependencies(
    scene: SceneView,
    state: StateView,
    dependencies: Seq<ResolvedView>,
    parallel: bool,
    reqs: RunRequirements,
    depth: nat,
) -> TaskSteps
    decreases 255 - depth, 1nat, dependencies.len(),
{
    if dependencies.len() == 0 {
        (state, Ok(Seq::empty()))
    } else {
        let (before, edges) = run_dependencies(
            scene,
            state,
            dependencies.drop_last(),
            parallel,
            reqs,
            depth,
        );
        let dependency = dependencies.last();
        match edges {
            Err(fault) => (before, Err(fault)),
            Ok(edges) => {
                let (after, found) = run_task_step(
                    scene,
                    before,
                    dependency.key,
                    reqs,
                    CallView { args: dependency.args, env: dependency.env },
                    depth,
                    true,
                );
                match found {
                    Err(fault) => (after, Err(fault)),
                    Ok(None) => (after, Ok(edges)),
                    Ok(Some(index)) => (
                        if !parallel && edges.len() > 0 {
                            link_serial(after, index, edges.last().0->0)
                        } else {
                            after
                        },
                        Ok(edges.push((Some(index), dependency.dependency_type.label_spec()))),
                    ),
                }
            },
        }
    }
}

/// The runs of the dependents of a task, one after the other, where they are wanted, and
/// then the action that was found.
pub open spec fn dependents_then(
    scene: SceneView,
    state: StateView,
    keys: Seq<TaskKeyView>,
    reqs: RunRequirements,
    depth: nat,
    wanted: bool,
    index: Option<usize>,
) -> Step
    decreases 255 - depth, 1nat, keys.len(),
{
    if !wanted || keys.len() == 0 {
        (state, Ok(index))
    } else {
        let (before, done) = dependents_then(
            scene,
            state,
            keys.drop_last(),
            reqs,
            depth,
            wanted,
            index,
        );
        match done {
            Err(fault) => (before, Err(fault)),
            Ok(_) => {
                let (after, found) = run_task_step(
                    scene,
                    before,
                    keys.last(),
                    RunRequirements { skip_affected: false, ..reqs },
                    plain_call(),
                    depth,
                    false,
                );
                match found {
                    Err(fault) => (after, Err(fault)),
                    Ok(_) => (after, Ok(index)),
                }
            },
        }
    }
}

/// The actions that steps give with the kind of each, or what the first that failed reports.
pub open spec fn told_tasks(result: Result<Vec<(Option<usize>, u8)>, ActionGraphError>) -> Result<
    Seq<(Option<usize>, u8)>,
    ActionGraphFault,
> {
    match result {
        Ok(edges) => Ok(edges@),
        Err(error) => Err(error@),
    }
}

/// The action that is given runs a task.
pub open spec fn runs_task(
    state: StateView,
    result: Result<Option<usize>, ActionGraphFault>,
) -> bool {
    result matches Ok(Some(index)) ==> state.nodes[index as int] is RunTask
}

/// All are actions of the graph.
pub open spec fn tasks_known(edges: Seq<(Option<usize>, u8)>, n: nat) -> bool {
    forall|i: int| 0 <= i < edges.len() ==> (#[trigger] edges[i]).0 is Some && edges[i].0->0 < n
}

proof fn run_dependencies_stops(
    scene: SceneView,
    state: StateView,
    list: Seq<ResolvedView>,
    parallel: bool,
    reqs: RunRequirements,
    depth: nat,
    n: int,
)
    requires
        0 <= n <= list.len(),
        run_dependencies(scene, state, list.take(n), parallel, reqs, depth).1 is Err,
    ensures
        run_dependencies(scene, state, list, parallel, reqs, depth) == run_dependencies(
            scene,
            state,
            list.take(n),
            parallel,
            reqs,
            depth,
        ),
    decreases list.len(),
{
    if n == list.len() {
        assert(list.take(n) =~= list);
    } else {
        assert(list.drop_last().take(n) =~= list.take(n));
        run_dependencies_stops(scene, state, list.drop_last(), parallel, reqs, depth, n);
    }
}

proof fn dependents_stop(
    scene: SceneView,
    state: StateView,
    keys: Seq<TaskKeyView>,
    reqs: RunRequirements,
    depth: nat,
    index: Option<usize>,
    n: int,
)
    requires
        0 <= n <= keys.len(),
        dependents_then(scene, state, keys.take(n), reqs, depth, true, index).1 is Err,
    ensures
        dependents_then(scene, state, keys, reqs, depth, true, index) == dependents_then(
            scene,
            state,
            keys.take(n),
            reqs,
            depth,
            true,
            index,
        ),
    decreases keys.len(),
{
    if n == keys.len() {
        assert(keys.take(n) =~= keys);
    } else {
        assert(keys.drop_last().take(n) =~= keys.take(n));
        dependents_stop(scene, state, keys.drop_last(), reqs, depth, index, n);
    }
}

fn is_in_scope(scope: RelationScope, depth: u8) -> (r: bool)
    ensures
        r == in_scope(scope, depth as nat),
{
    match scope {
        RelationScope::Nothing => false,
        RelationScope::Direct => depth == 0,
        RelationScope::Deep => true,
    }
}

/// Adds what a task waits for besides other tasks.
fn insert_prerequisites(
    scene: &ActionScene,
    state: &mut ActionGraphState,
    project: &Project,
    toolchains: &Vec<Id>,
    reqs: &RunRequirements,
) -> (edges: Result<Vec<Option<usize>>, ActionGraphError>)
    requires
        state_valid(old(state)@),
        scene_valid(scene@),
        scene@.projects.nodes.dom().contains(key_of_project(project@)),
    ensures
        (final(state)@, told_all(edges)) == prerequisites(
            scene@,
            old(state)@,
            key_of_project(project@),
            views(toolchains@),
            *reqs,
        ),
        settles_all(old(state)@, final(state)@, told_all(edges)),
{
    let key = project.key();
    let first: Option<usize> = match sync_project(scene, state, project, reqs) {
        Err(error) => {
            return Err(error);
        },
        Ok(first) => first,
    };
    let ghost synced = state@;
    let installed = match install_dependencies_by_toolchains(scene, state, &key, toolchains) {
        Err(error) => {
            return Err(error);
        },
        Ok(installed) => installed,
    };
    let mut edges: Vec<Option<usize>> = Vec::new();
    edges.push(first);
    let mut i: usize = 0;
    while i < installed.len()
        invariant
            i <= installed@.len(),
            edges@ =~= seq![first] + installed@.take(i as int),
        decreases installed.len() - i,
    {
        edges.push(installed[i]);
        i = i + 1;
    }
    proof {
        assert(installed@.take(i as int) =~= installed@);
        assert(edges@ =~= seq![first] + installed@);
        assert forall|j: int| 0 <= j < edges@.len() && (#[trigger] edges@[j]) is Some implies edges@[j]->0
            < state@.nodes.len() by {
            if j > 0 {
                assert(edges@[j] == installed@[j - 1]);
            }
        }
    }
    if first_of(&edges).is_none() {
        let ghost before = state@;
        match sync_workspace_for(scene, state, key.source_id()) {
            Err(error) => {
                return Err(error);
            },
            Ok(workspace) => {
                proof {
                    crate::action_setup::edges_stay_known(
                        edges@,
                        before.nodes.len(),
                        state@.nodes.len(),
                        workspace,
                    );
                }
                edges.push(workspace);
            },
        }
    }
    Ok(edges)
}

/// The first of several that is not missing.
fn first_of(edges: &Vec<Option<usize>>) -> (first: Option<usize>)
    ensures
        first == crate::action_state::first_some(edges@),
{
    let mut first: Option<usize> = None;
    let mut i: usize = 0;
    assert(edges@.take(0) =~= Seq::empty());
    while i < edges.len()
        invariant
            i <= edges@.len(),
            first == crate::action_state::first_some(edges@.take(i as int)),
        decreases edges.len() - i,
    {
        proof {
            assert(edges@.take(i + 1).drop_last() =~= edges@.take(i as int));
            assert(edges@.take(i + 1).last() == edges@[i as int]);
        }
        if first.is_none() {
            first = edges[i];
        }
        i = i + 1;
    }
    assert(edges@.take(i as int) =~= edges@);
    first
}

/// The keys of the tasks that a task depends on.
fn keys_of_dependencies(dependencies: &Vec<ResolvedTaskDependency>) -> (keys: KeySet<TaskKey>)
    ensures
        keys@ == dependency_keys(views(dependencies@)),
{
    let ghost list = views(dependencies@).map_values(|dependency: ResolvedView| dependency.key);
    let mut keys: KeySet<TaskKey> = KeySet::new();
    let mut i: usize = 0;
    while i < dependencies.len()
        invariant
            i <= dependencies@.len(),
            list == views(dependencies@).map_values(|dependency: ResolvedView| dependency.key),
            forall|key: TaskKeyView|
                keys@.contains(key) <==> exists|j: int| 0 <= j < i && #[trigger] list[j] == key,
        decreases dependencies.len() - i,
    {
        let ghost before = keys@;
        keys.insert(dependencies[i].task_key.copy_key());
        proof {
            assert(list[i as int] == dependencies@[i as int].task_key@);
            assert forall|key: TaskKeyView|
                keys@.contains(key) <==> exists|j: int| 0 <= j < i + 1 && #[trigger] list[j]
                    == key by {
                if before.contains(key) {
                    let j = choose|j: int| 0 <= j < i && #[trigger] list[j] == key;
                    assert(list[j] == key);
                }
            }
        }
        i = i + 1;
    }
    proof {
        assert forall|key: TaskKeyView| keys@.contains(key) <==> list.to_set().contains(key) by {
            if keys@.contains(key) {
                let j = choose|j: int| 0 <= j < i && #[trigger] list[j] == key;
                assert(list.contains(key));
            }
            if list.contains(key) {
                let j = choose|j: int| 0 <= j < list.len() && list[j] == key;
                assert(list[j] == key);
            }
        }
        assert(keys@ =~= list.to_set());
    }
    keys
}

proof fn waits_for_both(
    state: StateView,
    index: usize,
    front: Seq<(Option<usize>, u8)>,
    back: Seq<(Option<usize>, u8)>,
)
    requires
        waits_for(state, index, front),
        waits_for(state, index, back),
    ensures
        waits_for(state, index, front + back),
{
    let all = front + back;
    assert forall|j: int| 0 <= j < all.len() && (#[trigger] all[j]).0 is Some implies has_edge(
        state.graph.edges,
        index,
        all[j].0->0,
    ) by {
        if j < front.len() {
            assert(all[j] == front[j]);
        } else {
            assert(all[j] == back[j - front.len()]);
        }
    }
}

/// Adds the run of a task.
pub fn internal_run_task(
    scene: &ActionScene,
    state: &mut ActionGraphState,
    key: &TaskKey,
    reqs: &RunRequirements,
    call: &TaskCall,
    depth: u8,
    via_dependency: bool,
) -> (index: Result<Option<usize>, ActionGraphError>)
    requires
        state_valid(old(state)@),
        scene_valid(scene@),
    ensures
        (final(state)@, told(index)) == run_task_step(
            scene@,
            old(state)@,
            key@,
            *reqs,
            call@,
            depth as nat,
            via_dependency,
        ),
        settles(old(state)@, final(state)@, told(index)),
        runs_task(final(state)@, told(index)),
        index matches Ok(Some(i)) ==> added_task_waits(
            scene@,
            old(state)@,
            final(state)@,
            key@,
            *reqs,
            call@,
            depth as nat,
            via_dependency,
            i,
        ),
    decreases 255 - depth, 0nat, 0nat,
{
    let task = match scene.ready_task(key) {
        Err(error) => {
            return Err(error);
        },
        Ok(task) => task,
    };
    let invocation = TaskInvocationKey::new(key.clone(), copy_texts(&call.args), list_env(&call.env));
    if let Err(error) = scene.runtimes.get(key.project_key().source_id()) {
        return Err(ActionGraphError::Runtime(error));
    }
    let project = match scene.projects.get_unexpanded_by_key(key.project_key()) {
        Err(error) => {
            return Err(ActionGraphError::Project(error));
        },
        Ok(project) => project,
    };
    if !is_task_affected(scene, reqs, key) || state.passthrough_targets.contains(&invocation) {
        return Ok(None);
    }
    if depth == 255 {
        return Err(ActionGraphError::DepthExceeded);
    }
    let below = is_in_scope(reqs.dependencies, depth);
    let above = !via_dependency && is_in_scope(reqs.dependents, depth);
    if reqs.ci_check && !task.should_run(reqs.ci) {
        state.passthrough_targets.insert(invocation);
        return run_task_dependents(scene, state, task, reqs, depth + 1, above, None);
    }
    let node = ActionNode::run_task(
        RunTaskNode {
            args: copy_texts(&call.args),
            env: copy_env(&call.env),
            interactive: task.options.interactive || reqs.interactive,
            persistent: task.options.persistent,
            priority: task.options.priority,
            key: key.clone(),
            target: task.target.clone(),
            id: None,
        },
    );
    let found = state.get_index_from_node(&node);
    let ghost start = state@;
    let had_dependencies = if below {
        state.ignored_dependencies.remove(key).is_some()
    } else {
        false
    };
    let had_dependents = if above {
        state.ignored_dependents.remove(key)
    } else {
        false
    };
    proof {
        if below {
            assert(state@.ignored_dependencies =~= start.ignored_dependencies.remove(key@));
        }
    }
    match found {
        Some(index) => revisit_task(
            scene,
            state,
            index,
            key,
            task,
            reqs,
            depth + 1,
            had_dependencies,
            had_dependents,
        ),
        None => insert_task(scene, state, node, key, task, project, reqs, depth + 1, below, above),
    }
}

/// Adds what was left out of a task that was added before.
fn revisit_task(
    scene: &ActionScene,
    state: &mut ActionGraphState,
    index: usize,
    key: &TaskKey,
    task: &Task,
    reqs: &RunRequirements,
    depth: u8,
    below: bool,
    above: bool,
) -> (found: Result<Option<usize>, ActionGraphError>)
    requires
        state_valid(old(state)@),
        scene_valid(scene@),
        index < old(state)@.nodes.len(),
        old(state)@.nodes[index as int] is RunTask,
        scene@.tasks.nodes.dom().contains(key@),
        task@ == scene@.tasks.nodes[key@].task,
    ensures
        (final(state)@, told(found)) == known_task_step(
            scene@,
            old(state)@,
            index,
            key@,
            task@,
            *reqs,
            depth as nat,
            below,
            above,
        ),
        settles(old(state)@, final(state)@, told(found)),
        runs_task(final(state)@, told(found)),
    decreases 255 - depth, 2nat, 0nat,
{
    let edges: Vec<(Option<usize>, u8)> = if below {
        let dependencies = scene.resolved_dependencies_for(key);
        let inner = RunRequirements { skip_affected: true, ..*reqs };
        match run_task_dependencies(
            scene,
            state,
            &dependencies,
            task.options.run_deps_in_parallel,
            &inner,
            depth,
        ) {
            Err(error) => {
                return Err(error);
            },
            Ok(edges) => edges,
        }
    } else {
        let edges: Vec<(Option<usize>, u8)> = Vec::new();
        assert(edges@ =~= Seq::empty());
        edges
    };
    if let Err(error) = state.link_task_requirements(index, edges) {
        return Err(error);
    }
    run_task_dependents(scene, state, task, reqs, depth, above, Some(index))
}

/// Makes a task wait for its prerequisites and its dependencies.
fn link_task(
    state: &mut ActionGraphState,
    index: usize,
    first: Vec<Option<usize>>,
    edges: Vec<(Option<usize>, u8)>,
) -> (done: Result<(), ActionGraphError>)
    requires
        state_valid(old(state)@),
        index < old(state)@.nodes.len(),
        may_wait(old(state)@.nodes, index),
        edges_known(first@, old(state)@.nodes.len()),
        targets_known(edges@, old(state)@.nodes.len()),
    ensures
        (final(state)@, told(done)) == link_both(
            old(state)@,
            index,
            required(first@),
            edges@,
        ),
        state_valid(final(state)@),
        final(state)@.nodes == old(state)@.nodes,
        old(state)@.graph.edges.is_prefix_of(final(state)@.graph.edges),
        done is Ok ==> waits_for(final(state)@, index, required(first@) + edges@),
{
    let ghost front = required(first@);
    let ghost back = edges@;
    let ghost unlinked = state@;
    if let Err(error) = state.link_optional_requirements(index, first) {
        return Err(error);
    }
    let ghost halfway = state@;
    if let Err(error) = state.link_task_requirements(index, edges) {
        return Err(error);
    }
    proof {
        link_all_waits(unlinked, index, front);
        link_all_waits(halfway, index, back);
        waits_still(halfway, state@, index, front);
        waits_for_both(state@, index, front, back);
    }
    Ok(())
}

/// Adds the runs of the dependencies of a task where they are wanted, and else remembers
/// them.
fn insert_dependencies(
    scene: &ActionScene,
    state: &mut ActionGraphState,
    key: &TaskKey,
    task: &Task,
    reqs: &RunRequirements,
    depth: u8,
    below: bool,
) -> (edges: Result<Vec<(Option<usize>, u8)>, ActionGraphError>)
    requires
        state_valid(old(state)@),
        scene_valid(scene@),
    ensures
        (final(state)@, told_tasks(edges)) == wanted_dependencies(
            scene@,
            old(state)@,
            key@,
            task@,
            *reqs,
            depth as nat,
            below,
        ),
        state_valid(final(state)@),
        old(state)@.nodes.is_prefix_of(final(state)@.nodes),
        old(state)@.graph.edges.is_prefix_of(final(state)@.graph.edges),
        edges is Ok ==> tasks_known(edges->Ok_0@, final(state)@.nodes.len()),
    decreases 255 - depth, 1nat, resolved_for(scene@, key@).len() + 1,
{
    let dependencies = scene.resolved_dependencies_for(key);
    if below {
        let inner = RunRequirements { skip_affected: true, ..*reqs };
        return run_task_dependencies(
            scene,
            state,
            &dependencies,
            task.options.run_deps_in_parallel,
            &inner,
            depth,
        );
    }
    if dependencies.len() > 0 {
        let ignored = keys_of_dependencies(&dependencies);
        state.ignored_dependencies.insert(key.copy_key(), ignored);
    }
    let edges: Vec<(Option<usize>, u8)> = Vec::new();
    assert(edges@ =~= Seq::empty());
    Ok(edges)
}

/// Adds a task behind what it waits for.
fn insert_task(
    scene: &ActionScene,
    state: &mut ActionGraphState,
    node: ActionNode,
    key: &TaskKey,
    task: &Task,
    project: &Project,
    reqs: &RunRequirements,
    depth: u8,
    below: bool,
    above: bool,
) -> (found: Result<Option<usize>, ActionGraphError>)
    requires
        state_valid(old(state)@),
        scene_valid(scene@),
        node@ is RunTask,
        scene@.projects.nodes.dom().contains(key_of_project(project@)),
        scene@.tasks.nodes.dom().contains(key@),
        task@ == scene@.tasks.nodes[key@].task,
    ensures
        (final(state)@, told(found)) == new_task_step(
            scene@,
            old(state)@,
            node@,
            key@,
            task@,
            key_of_project(project@),
            *reqs,
            depth as nat,
            below,
            above,
        ),
        settles(old(state)@, final(state)@, told(found)),
        runs_task(final(state)@, told(found)),
        found matches Ok(Some(index)) ==> ({
            let edges = awaited(
                scene@,
                old(state)@,
                node@,
                key@,
                task@,
                key_of_project(project@),
                *reqs,
                depth as nat,
                below,
            );
            edges is Some && waits_for(final(state)@, index, edges->0)
        }),
    decreases 255 - depth, 2nat, 0nat,
{
    let ghost start = state@;
    let first = match insert_prerequisites(scene, state, project, &task.toolchains, reqs) {
        Err(error) => {
            return Err(error);
        },
        Ok(first) => first,
    };
    let ghost prepared = state@;
    let inserted = state.insert_node(node);
    let ghost added = state@;
    proof {
        grows_on(start, prepared, added);
    }
    let index: usize = match inserted {
        Ok(Some(index)) => index,
        _ => {
            return inserted;
        },
    };
    let dependencies = insert_dependencies(scene, state, key, task, reqs, depth, below);
    let ghost before = state@;
    proof {
        grows_on(start, added, before);
        assert(before.nodes[index as int] == added.nodes[index as int]);
    }
    let edges = match dependencies {
        Err(error) => {
            return Err(error);
        },
        Ok(edges) => edges,
    };
    let ghost awaited_edges = required(first@) + edges@;
    let done = link_task(state, index, first, edges);
    let ghost linked = state@;
    proof {
        grows_on(start, before, linked);
    }
    if let Err(error) = done {
        return Err(error);
    }
    if above {
        let found = run_task_dependents(scene, state, task, reqs, depth, true, Some(index));
        proof {
            grows_on(start, linked, state@);
            waits_still(linked, state@, index, awaited_edges);
        }
        return found;
    }
    state.ignored_dependents.insert(key.copy_key());
    proof {
        assert(state@.nodes == linked.nodes);
        assert(state@.graph == linked.graph);
        assert(state@.serial == linked.serial);
        assert(state_valid(state@));
        waits_still(linked, state@, index, awaited_edges);
    }
    Ok(Some(index))
}

/// Adds the runs of the dependencies of a task.
pub fn run_task_dependencies(
    scene: &ActionScene,
    state: &mut ActionGraphState,
    dependencies: &Vec<ResolvedTaskDependency>,
    parallel: bool,
    reqs: &RunRequirements,
    depth: u8,
) -> (edges: Result<Vec<(Option<usize>, u8)>, ActionGraphError>)
    requires
        state_valid(old(state)@),
        scene_valid(scene@),
    ensures
        (final(state)@, told_tasks(edges)) == run_dependencies(
            scene@,
            old(state)@,
            views(dependencies@),
            parallel,
            *reqs,
            depth as nat,
        ),
        state_valid(final(state)@),
        old(state)@.nodes.is_prefix_of(final(state)@.nodes),
        old(state)@.graph.edges.is_prefix_of(final(state)@.graph.edges),
        edges is Ok ==> tasks_known(edges->Ok_0@, final(state)@.nodes.len()),
    decreases 255 - depth, 1nat, dependencies@.len(),
{
    let ghost start = state@;
    let ghost list = views(dependencies@);
    let mut edges: Vec<(Option<usize>, u8)> = Vec::new();
    let mut i: usize = 0;
    proof {
        assert(list.take(0) =~= Seq::empty());
        assert(edges@ =~= Seq::empty());
    }
    while i < dependencies.len()
        invariant
            i <= dependencies@.len(),
            start == old(state)@,
            scene_valid(scene@),
            list == views(dependencies@),
            state_valid(state@),
            start.nodes.is_prefix_of(state@.nodes),
            start.graph.edges.is_prefix_of(state@.graph.edges),
            tasks_known(edges@, state@.nodes.len()),
            (state@, Ok::<Seq<(Option<usize>, u8)>, ActionGraphFault>(edges@)) == run_dependencies(
                scene@,
                start,
                list.take(i as int),
                parallel,
                *reqs,
                depth as nat,
            ),
        decreases dependencies.len() - i,
    {
        proof {
            assert(list.take(i + 1).drop_last() =~= list.take(i as int));
            assert(list.take(i + 1).last() == dependencies@[i as int]@);
        }
        let dependency = &dependencies[i];
        let call = TaskCall {
            args: copy_texts(&dependency.args),
            env: copy_env(&dependency.env),
        };
        let ghost before = state@;
        match internal_run_task(scene, state, &dependency.task_key, reqs, &call, depth, true) {
            Err(error) => {
                proof {
                    run_dependencies_stops(
                        scene@,
                        start,
                        list,
                        parallel,
                        *reqs,
                        depth as nat,
                        i + 1,
                    );
                }
                return Err(error);
            },
            Ok(None) => {},
            Ok(Some(index)) => {
                if !parallel && edges.len() > 0 {
                    assert(edges@.last() == edges@[edges@.len() - 1]);
                    if let Some(previous) = edges[edges.len() - 1].0 {
                        state.link_serial_requirements(index, previous);
                    }
                }
                edges.push((Some(index), dependency.dependency_type.label()));
            },
        }
        i = i + 1;
    }
    assert(list.take(i as int) =~= list);
    Ok(edges)
}

/// Adds the runs of the dependents of a task, where they are wanted.
pub fn run_task_dependents(
    scene: &ActionScene,
    state: &mut ActionGraphState,
    task: &Task,
    reqs: &RunRequirements,
    depth: u8,
    wanted: bool,
    index: Option<usize>,
) -> (found: Result<Option<usize>, ActionGraphError>)
    requires
        state_valid(old(state)@),
        scene_valid(scene@),
        key_of_task(task@) is Some,
        scene@.tasks.nodes.dom().contains(key_of_task(task@)->0),
        index is Some ==> index->0 < old(state)@.nodes.len() && old(state)@.nodes[index->0 as int] is RunTask,
    ensures
        (final(state)@, told(found)) == dependents_then(
            scene@,
            old(state)@,
            task_neighbors(scene@.tasks, key_of_task(task@)->0, Direction::Incoming),
            *reqs,
            depth as nat,
            wanted,
            index,
        ),
        settles(old(state)@, final(state)@, told(found)),
        runs_task(final(state)@, told(found)),
    decreases
            255 - depth,
            1nat,
            task_neighbors(scene@.tasks, key_of_task(task@)->0, Direction::Incoming).len(),
{
    if !wanted {
        return Ok(index);
    }
    let keys = scene.tasks.dependents_of(task);
    let inner = RunRequirements { skip_affected: false, ..*reqs };
    let call = TaskCall::plain();
    let ghost start = state@;
    let ghost list = views(keys@);
    let mut i: usize = 0;
    proof {
        assert(list.take(0) =~= Seq::empty());
    }
    while i < keys.len()
        invariant
            i <= keys@.len(),
            start == old(state)@,
            scene_valid(scene@),
            list == views(keys@),
            list == task_neighbors(scene@.tasks, key_of_task(task@)->0, Direction::Incoming),
            inner == (RunRequirements { skip_affected: false, ..*reqs }),
            call@ == plain_call(),
            wanted,
            index is Some ==> index->0 < start.nodes.len() && start.nodes[index->0 as int] is RunTask,
            state_valid(state@),
            start.nodes.is_prefix_of(state@.nodes),
            start.graph.edges.is_prefix_of(state@.graph.edges),
            (state@, Ok::<Option<usize>, ActionGraphFault>(index)) == dependents_then(
                scene@,
                start,
                list.take(i as int),
                *reqs,
                depth as nat,
                true,
                index,
            ),
        decreases keys.len() - i,
    {
        proof {
            assert(list.take(i + 1).drop_last() =~= list.take(i as int));
            assert(list.take(i + 1).last() == keys@[i as int]@);
        }
        match internal_run_task(scene, state, &keys[i], &inner, &call, depth, false) {
            Err(error) => {
                proof {
                    dependents_stop(scene@, start, list, *reqs, depth as nat, index, i + 1);
                }
                return Err(error);
            },
            Ok(_) => {},
        }
        i = i + 1;
    }
    assert(list.take(i as int) =~= list);
    Ok(index)
}

} // verus!
