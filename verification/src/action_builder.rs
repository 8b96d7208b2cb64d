//! The builder of graphs of actions.

use crate::action_affected::{after_tracking, marks_of};
use crate::action_context::{
    held_states, ActionContext, LocatorView, TargetLocator, TargetState, TargetStateView,
};
use crate::action_install::{
    environment_root_step, install_all, install_dependencies, install_dependencies_by_toolchains,
    install_dependencies_root, install_root_step, install_step, setup_environment,
    setup_environment_root, setup_environment_step,
};
use crate::action_node::{ActionNode, NodeView, ToolchainSpec};
use crate::action_partition::{
    chosen_targets, part_of, part_size, take_part, wanted_job, TargetsBlock,
};
use crate::action_run::{
    is_task_affected, sync_project, sync_project_step, task_affected, RunRequirements,
};
use crate::action_scene::{
    key_view, project_spec, scene_valid, workspace_spec, ActionScene, SceneView,
};
use crate::action_setup::{
    setup_proto_for, setup_proto_step, setup_toolchain, setup_toolchain_step, sync_workspace_for,
    sync_workspace_step, told_all, Step,
};
use crate::action_state::{
    empty_state, may_wait, state_valid, told, ActionGraphError, ActionGraphFault, ActionGraphState,
    StateView,
};
use crate::action_tasks::{internal_run_task, plain_call, run_task_step, TaskCall};
use crate::affected::{DownstreamScope, UpstreamScope};
use crate::affected_tracker::{
    affected_so_far, fresh_tracker, AggregateAffectedTracker, Observations, TaskInputs,
    TrackerView, WorkspaceGraph,
};
use crate::changed_files::{
    qualify_changed_files_observation, ChangedFilesObservation, ChangedStatus, ImpactCompleteness,
    ObservationView,
};
use crate::action_targets::{
    all_locator_tasks, answer_known, locator_tasks, select_all_located, select_located,
    select_target, target_tasks, AnswerView, LocatorAnswer,
};
use crate::config::{key_of_project, Project};
use crate::dag::{DagView, DependencyDag};
use crate::id::Id;
use crate::invocation::InvocationView;
use crate::keys::{ProjectKey, TaskKey, TaskKeyView};
use crate::keyset::KeySet;
use crate::order::{view_of, views};
use crate::source::{SourcePathBuf, SourcePathView, SourceRegistry, SourceRootId};
use crate::table::{value_views, Duplicate, Key, Table};
use crate::task::{Target, TargetView};
use vstd::prelude::*;

verus! {

broadcast use {crate::order::group_views, crate::table::value_views_insert};

/// The run of a task that was asked for.
pub open spec fn run_primary_step(
    scene: SceneView,
    state: StateView,
    key: TaskKeyView,
    reqs: RunRequirements,
) -> Step {
    let (after, found) = run_task_step(scene, state, key, reqs, plain_call(), 0, false);
    match found {
        Ok(Some(index)) => (
            StateView { primary: after.primary.insert(key), ..after },
            Ok(Some(index)),
        ),
        _ => (after, found),
    }
}

/// The tasks that run, by the numbers of their actions.
pub type Targets = Map<usize, TaskKeyView>;

/// The runs of tasks that were asked for, one after the other.
pub open spec fn run_primary_all(
    scene: SceneView,
    state: StateView,
    keys: Seq<TaskKeyView>,
    reqs: RunRequirements,
) -> (StateView, Result<Targets, ActionGraphFault>)
    decreases keys.len(),
{
    if keys.len() == 0 {
        (state, Ok(Map::empty()))
    } else {
        let (before, targets) = run_primary_all(scene, state, keys.drop_last(), reqs);
        match targets {
            Err(fault) => (before, Err(fault)),
            Ok(targets) => {
                let (after, found) = run_primary_step(scene, before, keys.last(), reqs);
                match found {
                    Err(fault) => (after, Err(fault)),
                    Ok(Some(index)) => (after, Ok(targets.insert(index, keys.last()))),
                    Ok(None) => (after, Ok(targets)),
                }
            },
        }
    }
}

/// The tasks among some that count as affected.
pub open spec fn affected_among(
    scene: SceneView,
    keys: Seq<TaskKeyView>,
    reqs: RunRequirements,
) -> Seq<TaskKeyView>
    decreases keys.len(),
{
    if keys.len() == 0 {
        keys
    } else {
        let rest = affected_among(scene, keys.drop_last(), reqs);
        if task_affected(scene, reqs, keys.last()) {
            rest.push(keys.last())
        } else {
            rest
        }
    }
}

/// The tasks that run, and how many a job takes.
pub struct PartitionView {
    pub targets: Targets,
    pub size: Option<usize>,
}

/// The tasks that run, and how many a job takes.
#[derive(Debug)]
pub struct RunPartition {
    pub targets: Table<usize, TaskKey>,
    pub size: Option<usize>,
}

impl View for RunPartition {
    type V = PartitionView;

    open spec fn view(&self) -> PartitionView {
        PartitionView { targets: value_views(self.targets@), size: self.size }
    }
}

/// The tasks that a run consists of: all of them, or the part of one job. Jobs share out
/// what is affected only.
pub open spec fn tasks_to_run(scene: SceneView, keys: Seq<TaskKeyView>, reqs: RunRequirements) -> Result<
    (Seq<TaskKeyView>, Option<usize>),
    ActionGraphFault,
> {
    match wanted_job(reqs) {
        None => Ok((keys, None)),
        Some((index, total)) => if index >= total {
            Err(ActionGraphFault::InvalidJobIndex { index, total })
        } else {
            let chosen = if reqs.skip_affected {
                keys
            } else {
                affected_among(scene, keys, reqs)
            };
            Ok(
                (
                    part_of(chosen, index as nat, total as nat),
                    Some(part_size(chosen.len(), total as nat) as usize),
                ),
            )
        },
    }
}

/// What a run of tasks makes of the graph, and the tasks that run.
pub open spec fn run_tasks_step(
    scene: SceneView,
    state: StateView,
    keys: Seq<TaskKeyView>,
    reqs: RunRequirements,
) -> (StateView, Result<PartitionView, ActionGraphFault>) {
    match tasks_to_run(scene, keys, reqs) {
        Err(fault) => (state, Err(fault)),
        Ok((chosen, size)) => {
            let (after, targets) = run_primary_all(scene, state, chosen, reqs);
            match targets {
                Err(fault) => (after, Err(fault)),
                Ok(targets) => (after, Ok(PartitionView { targets, size })),
            }
        },
    }
}

/// What a run of the tasks that locators mean makes of the graph, given what was found for
/// each of them.
pub open spec fn run_located_step(
    scene: SceneView,
    state: StateView,
    locators: Seq<LocatorView>,
    answers: Seq<AnswerView>,
    reqs: RunRequirements,
) -> (StateView, Result<PartitionView, ActionGraphFault>) {
    match all_locator_tasks(scene, locators, answers) {
        Err(fault) => (state, Err(fault)),
        Ok(keys) => run_tasks_step(scene, state, keys, reqs),
    }
}

/// What the run of a plan makes of the graph, given what was found for each of the locators
/// that it asks for.
pub open spec fn run_plan_step(
    scene: SceneView,
    state: StateView,
    plan: TargetsBlock,
    answers: Seq<AnswerView>,
    reqs: RunRequirements,
) -> (StateView, Result<PartitionView, ActionGraphFault>) {
    match chosen_targets(plan, reqs) {
        Err(fault) => (state, Err(fault)),
        Ok(chosen) => {
            let (after, partition) = run_located_step(
                scene,
                state,
                chosen.locators,
                answers,
                chosen.reqs,
            );
            match partition {
                Err(fault) => (after, Err(fault)),
                Ok(partition) => (
                    after,
                    Ok(
                        PartitionView {
                            targets: partition.targets,
                            size: if chosen.size is Some {
                                chosen.size
                            } else {
                                partition.size
                            },
                        },
                    ),
                ),
            }
        },
    }
}

/// Something was found for each of the locators that a plan asks for.
pub open spec fn plan_answered(
    scene: SceneView,
    plan: TargetsBlock,
    answers: Seq<AnswerView>,
    reqs: RunRequirements,
) -> bool {
    &&& chosen_targets(plan, reqs) matches Ok(chosen) ==> chosen.locators.len() == answers.len()
    &&& forall|i: int| 0 <= i < answers.len() ==> answer_known(scene.tasks, #[trigger] answers[i])
}

/// The runs of the tasks that a locator means, given what was found for it.
pub open spec fn run_locator_step(
    scene: SceneView,
    state: StateView,
    locator: LocatorView,
    answer: AnswerView,
    reqs: RunRequirements,
) -> (StateView, Result<Targets, ActionGraphFault>) {
    match locator_tasks(scene, locator, answer) {
        Err(fault) => (state, Err(fault)),
        Ok(keys) => run_primary_all(scene, state, keys, reqs),
    }
}

proof fn run_primary_all_stops(
    scene: SceneView,
    state: StateView,
    keys: Seq<TaskKeyView>,
    reqs: RunRequirements,
    n: int,
)
    requires
        0 <= n <= keys.len(),
        run_primary_all(scene, state, keys.take(n), reqs).1 is Err,
    ensures
        run_primary_all(scene, state, keys, reqs) == run_primary_all(
            scene,
            state,
            keys.take(n),
            reqs,
        ),
    decreases keys.len(),
{
    if n == keys.len() {
        assert(keys.take(n) =~= keys);
    } else {
        assert(keys.drop_last().take(n) =~= keys.take(n));
        run_primary_all_stops(scene, state, keys.drop_last(), reqs, n);
    }
}

/// The builder of a graph of actions: what it is built from, and the graph so far.
pub struct ActionGraphBuilder {
    pub scene: ActionScene,
    pub state: ActionGraphState,
    pub changed_files: Option<KeySet<String>>,
    pub source_changed_files: Table<SourceRootId, KeySet<String>>,
    pub observations: Table<SourceRootId, ChangedFilesObservation<SourcePathBuf>>,
    pub aggregate_affected: Option<AggregateAffectedTracker>,
}

/// A tracker looks at the graphs that the actions are built from.
pub open spec fn tracks_scene(tracker: Option<AggregateAffectedTracker>, scene: SceneView) -> bool {
    tracker is Some ==> tracker->0@.projects == scene.projects && tracker->0@.tasks == scene.tasks
}

/// The tracker of a run: the one that there is, or a new one for what is known of the changes.
pub open spec fn tracker_for(
    tracker: Option<AggregateAffectedTracker>,
    scene: SceneView,
    observations: Observations,
    roots: Set<Seq<char>>,
) -> TrackerView {
    match tracker {
        Some(tracker) => tracker@,
        None => fresh_tracker(scene.projects, scene.tasks, observations, roots),
    }
}

/// What actions are built from, where a tracker says what is affected.
pub open spec fn with_marks(scene: SceneView, tracker: TrackerView) -> SceneView {
    SceneView { affected: Some(marks_of(affected_so_far(tracker))), ..scene }
}

impl ActionGraphBuilder {
    /// What holds of a builder at any time.
    pub open spec fn valid(self) -> bool {
        &&& scene_valid(self.scene@)
        &&& state_valid(self.state@)
        &&& tracks_scene(self.aggregate_affected, self.scene@)
    }

    /// What is known of changed files and of what they affect is as it was.
    pub open spec fn keeps_changes(self, before: Self) -> bool {
        &&& self.changed_files == before.changed_files
        &&& self.source_changed_files == before.source_changed_files
        &&& self.observations == before.observations
        &&& self.aggregate_affected == before.aggregate_affected
    }

    /// A builder without actions.
    pub fn new(scene: ActionScene) -> (builder: Self)
        requires
            scene_valid(scene@),
        ensures
            builder.valid(),
            builder.scene == scene,
            builder.state@ == empty_state(),
            builder.changed_files is None,
            builder.aggregate_affected is None,
            builder.source_changed_files@ == Map::<Seq<char>, KeySet<String>>::empty(),
            value_views(builder.observations@) == Map::<
                Seq<char>,
                ObservationView<SourcePathView>,
            >::empty(),
    {
        proof {
            crate::table::value_views_empty::<Seq<char>, ChangedFilesObservation<SourcePathBuf>>();
        }
        ActionGraphBuilder {
            scene,
            state: ActionGraphState::new(),
            changed_files: None,
            source_changed_files: Table::new(),
            observations: Table::new(),
            aggregate_affected: None,
        }
    }

    /// The toolchain as it is configured for a project, or for the workspace.
    pub fn get_spec(&self, toolchain_id: &Id, project: Option<&ProjectKey>) -> (spec: Option<
        ToolchainSpec,
    >)
        ensures
            view_of(spec) == match project {
                Some(key) => if crate::runtime::runtime_of(
                    self.scene@.runtimes.entries,
                    key@.source,
                ) is Ok {
                    project_spec(self.scene@, key@, toolchain_id@)
                } else {
                    None
                },
                None => workspace_spec(self.scene@, self.scene@.primary, toolchain_id@),
            },
    {
        match project {
            Some(key) => self.get_project_spec(toolchain_id, key),
            None => self.get_workspace_spec(toolchain_id),
        }
    }

    /// The toolchain as a project configures it, where its source root has services.
    pub fn get_project_spec(&self, toolchain_id: &Id, project: &ProjectKey) -> (spec: Option<
        ToolchainSpec,
    >)
        ensures
            view_of(spec) == if crate::runtime::runtime_of(
                self.scene@.runtimes.entries,
                project@.source,
            ) is Ok {
                project_spec(self.scene@, project@, toolchain_id@)
            } else {
                None
            },
    {
        match self.scene.runtimes.get(project.source_id()) {
            Ok(_) => self.scene.project_spec(project, toolchain_id),
            Err(_) => None,
        }
    }

    /// The toolchain as the primary source root configures it.
    pub fn get_workspace_spec(&self, toolchain_id: &Id) -> (spec: Option<ToolchainSpec>)
        ensures
            view_of(spec) == workspace_spec(self.scene@, self.scene@.primary, toolchain_id@),
    {
        self.scene.workspace_spec(&self.scene.primary, toolchain_id)
    }

    /// Adds the synchronisation of the primary workspace.
    pub fn sync_workspace(&mut self) -> (index: Result<Option<usize>, ActionGraphError>)
        requires
            old(self).valid(),
        ensures
            final(self).valid(),
            final(self).scene == old(self).scene,
            final(self).keeps_changes(*old(self)),
            (final(self).state@, told(index)) == sync_workspace_step(
                old(self).scene@,
                old(self).state@,
                old(self).scene@.primary,
            ),
    {
        sync_workspace_for(&self.scene, &mut self.state, &self.scene.primary)
    }

    /// Adds the setup of proto for the primary source root.
    pub fn setup_proto(&mut self) -> (index: Result<Option<usize>, ActionGraphError>)
        requires
            old(self).valid(),
        ensures
            final(self).valid(),
            final(self).scene == old(self).scene,
            final(self).keeps_changes(*old(self)),
            (final(self).state@, told(index)) == setup_proto_step(old(self).scene@, old(self).state@, old(self).scene@.primary),
    {
        setup_proto_for(&self.scene, &mut self.state, &self.scene.primary)
    }

    /// Adds the setup of a toolchain for a project, or for the workspace.
    pub fn setup_toolchain(&mut self, spec: &ToolchainSpec, project: Option<&ProjectKey>) -> (index: Result<Option<usize>, ActionGraphError>)
        requires
            old(self).valid(),
        ensures
            final(self).valid(),
            final(self).scene == old(self).scene,
            final(self).keeps_changes(*old(self)),
            (final(self).state@, told(index)) == setup_toolchain_step(
                old(self).scene@,
                old(self).state@,
                key_view(project),
                spec@,
                Set::empty(),
            ),
    {
        setup_toolchain(&self.scene, &mut self.state, project, spec)
    }

    /// Adds the setup of the environment of a toolchain in a root of a project.
    pub fn setup_environment(&mut self, spec: &ToolchainSpec, root: &String, project: &ProjectKey) -> (index: Result<Option<usize>, ActionGraphError>)
        requires
            old(self).valid(),
        ensures
            final(self).valid(),
            final(self).scene == old(self).scene,
            final(self).keeps_changes(*old(self)),
            (final(self).state@, told(index)) == setup_environment_step(
                old(self).scene@,
                old(self).state@,
                Some(project@),
                spec@,
                root@,
            ),
    {
        setup_environment(&self.scene, &mut self.state, Some(project), spec, root)
    }

    /// Adds the setup of the environment of the workspace, where it declares its dependencies
    /// itself.
    pub fn setup_environment_root(&mut self, spec: &ToolchainSpec) -> (index: Result<Option<usize>, ActionGraphError>)
        requires
            old(self).valid(),
        ensures
            final(self).valid(),
            final(self).scene == old(self).scene,
            final(self).keeps_changes(*old(self)),
            (final(self).state@, told(index)) == environment_root_step(old(self).scene@, old(self).state@, spec@),
    {
        setup_environment_root(&self.scene, &mut self.state, spec)
    }

    /// Adds the installation of the dependencies of a project.
    pub fn install_dependencies(&mut self, spec: &ToolchainSpec, project: &ProjectKey) -> (index: Result<Option<usize>, ActionGraphError>)
        requires
            old(self).valid(),
        ensures
            final(self).valid(),
            final(self).scene == old(self).scene,
            final(self).keeps_changes(*old(self)),
            (final(self).state@, told(index)) == install_step(
                old(self).scene@,
                old(self).state@,
                Some(project@),
                spec@,
            ),
    {
        install_dependencies(&self.scene, &mut self.state, Some(project), spec)
    }

    /// Adds the installation of the dependencies of the workspace, where it declares them
    /// itself.
    pub fn install_dependencies_root(&mut self, spec: &ToolchainSpec) -> (index: Result<Option<usize>, ActionGraphError>)
        requires
            old(self).valid(),
        ensures
            final(self).valid(),
            final(self).scene == old(self).scene,
            final(self).keeps_changes(*old(self)),
            (final(self).state@, told(index)) == install_root_step(old(self).scene@, old(self).state@, spec@),
    {
        install_dependencies_root(&self.scene, &mut self.state, spec)
    }

    /// Adds the synchronisation of a project.
    pub fn sync_project(&mut self, project: &Project, reqs: &RunRequirements) -> (index: Result<Option<usize>, ActionGraphError>)
        requires
            old(self).valid(),
            old(self).scene@.projects.nodes.dom().contains(key_of_project(project@)),
        ensures
            final(self).valid(),
            final(self).scene == old(self).scene,
            final(self).keeps_changes(*old(self)),
            (final(self).state@, told(index)) == sync_project_step(
                old(self).scene@,
                old(self).state@,
                key_of_project(project@),
                *reqs,
                Set::empty(),
            ),
    {
        sync_project(&self.scene, &mut self.state, project, reqs)
    }

    /// Adds the installation of the dependencies of a project, for several toolchains.
    pub fn install_dependencies_by_toolchains(&mut self, project: &ProjectKey, toolchains: &Vec<Id>) -> (
    edges: Result<Vec<Option<usize>>, ActionGraphError>)
        requires
            old(self).valid(),
        ensures
            final(self).valid(),
            final(self).scene == old(self).scene,
            final(self).keeps_changes(*old(self)),
            (final(self).state@, told_all(edges)) == install_all(
                old(self).scene@,
                old(self).state@,
                project@,
                views(toolchains@),
            ),
    {
        install_dependencies_by_toolchains(&self.scene, &mut self.state, project, toolchains)
    }

    /// Adds the installation of the dependencies of a project, for its own toolchains.
    pub fn install_dependencies_by_project(&mut self, project: &Project) -> (edges: Result<
        Vec<Option<usize>>,
        ActionGraphError,
    >)
        requires
            old(self).valid(),
            crate::id::valid_id(project@.id),
        ensures
            final(self).valid(),
            final(self).scene == old(self).scene,
            final(self).keeps_changes(*old(self)),
            (final(self).state@, told_all(edges)) == install_all(
                old(self).scene@,
                old(self).state@,
                key_of_project(project@),
                project@.toolchains,
            ),
    {
        install_dependencies_by_toolchains(
            &self.scene,
            &mut self.state,
            &project.key(),
            &project.toolchains,
        )
    }

    /// Adds the run of a task that was asked for.
    pub fn run_task(&mut self, key: &TaskKey, reqs: &RunRequirements) -> (index: Result<
        Option<usize>,
        ActionGraphError,
    >)
        requires
            old(self).valid(),
        ensures
            final(self).valid(),
            final(self).scene == old(self).scene,
            final(self).keeps_changes(*old(self)),
            (final(self).state@, told(index)) == run_primary_step(
                old(self).scene@,
                old(self).state@,
                key@,
                *reqs,
            ),
    {
        let call = TaskCall::plain();
        let found = internal_run_task(&self.scene, &mut self.state, key, reqs, &call, 0, false);
        let ghost before = self.state@;
        if let Ok(Some(_)) = found {
            self.state.primary_targets.insert(key.copy_key());
        }
        proof {
            assert(self.state@.nodes == before.nodes);
            assert(self.state@.graph == before.graph);
            assert(self.state@.tails == before.tails);
            assert(state_valid(self.state@));
        }
        found
    }

    /// Adds the run of a task with arguments and an environment. It does not count as asked
    /// for.
    pub fn run_task_with_config(&mut self, key: &TaskKey, reqs: &RunRequirements, call: &TaskCall) -> (
    index: Result<Option<usize>, ActionGraphError>)
        requires
            old(self).valid(),
        ensures
            final(self).valid(),
            final(self).scene == old(self).scene,
            final(self).keeps_changes(*old(self)),
            (final(self).state@, told(index)) == run_task_step(
                old(self).scene@,
                old(self).state@,
                key@,
                *reqs,
                call@,
                0,
                false,
            ),
    {
        internal_run_task(&self.scene, &mut self.state, key, reqs, call, 0, false)
    }

    /// The tasks among some that count as affected.
    fn affected_tasks(&self, keys: &Vec<TaskKey>, reqs: &RunRequirements) -> (chosen: Vec<TaskKey>)
        ensures
            views(chosen@) == affected_among(self.scene@, views(keys@), *reqs),
    {
        let ghost all = views(keys@);
        let mut chosen: Vec<TaskKey> = Vec::new();
        let mut i: usize = 0;
        proof {
            assert(all.take(0) =~= Seq::empty());
            assert(views(chosen@) =~= Seq::empty());
        }
        while i < keys.len()
            invariant
                i <= keys@.len(),
                all == views(keys@),
                views(chosen@) == affected_among(self.scene@, all.take(i as int), *reqs),
            decreases keys.len() - i,
        {
            proof {
                assert(all.take(i + 1).drop_last() =~= all.take(i as int));
                assert(all.take(i + 1).last() == keys@[i as int]@);
            }
            if is_task_affected(&self.scene, reqs, &keys[i]) {
                chosen.push(keys[i].copy_key());
            }
            i = i + 1;
        }
        assert(all.take(i as int) =~= all);
        chosen
    }

    /// Adds the runs of tasks that were asked for, one after the other.
    fn run_all(&mut self, keys: &Vec<TaskKey>, reqs: &RunRequirements) -> (targets: Result<
        Table<usize, TaskKey>,
        ActionGraphError,
    >)
        requires
            old(self).valid(),
        ensures
            final(self).valid(),
            final(self).scene == old(self).scene,
            final(self).keeps_changes(*old(self)),
            match targets {
                Ok(targets) => run_primary_all(
                    old(self).scene@,
                    old(self).state@,
                    views(keys@),
                    *reqs,
                ) == (
                    final(self).state@,
                    Ok::<Targets, ActionGraphFault>(value_views(targets@)),
                ),
                Err(error) => run_primary_all(
                    old(self).scene@,
                    old(self).state@,
                    views(keys@),
                    *reqs,
                ) == (final(self).state@, Err::<Targets, ActionGraphFault>(error@)),
            },
    {
        let ghost scene = self.scene@;
        let ghost start = self.state@;
        let ghost list = views(keys@);
        let mut targets: Table<usize, TaskKey> = Table::new();
        let mut i: usize = 0;
        proof {
            assert(list.take(0) =~= Seq::empty());
            assert(value_views(targets@) =~= Map::empty());
        }
        while i < keys.len()
            invariant
                i <= keys@.len(),
                self.valid(),
                self.scene == old(self).scene,
                self.keeps_changes(*old(self)),
                scene == old(self).scene@,
                start == old(self).state@,
                list == views(keys@),
                run_primary_all(scene, start, list.take(i as int), *reqs) == (
                    self.state@,
                    Ok::<Targets, ActionGraphFault>(value_views(targets@)),
                ),
            decreases keys.len() - i,
        {
            proof {
                assert(list.take(i + 1).drop_last() =~= list.take(i as int));
                assert(list.take(i + 1).last() == keys@[i as int]@);
            }
            match self.run_task(&keys[i], reqs) {
                Err(error) => {
                    proof {
                        run_primary_all_stops(scene, start, list, *reqs, i + 1);
                    }
                    return Err(error);
                },
                Ok(Some(index)) => {
                    targets.insert(index, keys[i].copy_key());
                },
                Ok(None) => {},
            }
            i = i + 1;
        }
        assert(list.take(i as int) =~= list);
        Ok(targets)
    }

    /// Adds the runs of the tasks that locators mean, given what was found for each of them: of
    /// all of these tasks, or of the part of one job.
    pub fn run_tasks(
        &mut self,
        locators: &Vec<TargetLocator>,
        answers: &Vec<LocatorAnswer>,
        reqs: RunRequirements,
    ) -> (partition: Result<RunPartition, ActionGraphError>)
        requires
            old(self).valid(),
            locators@.len() == answers@.len(),
            forall|i: int|
                0 <= i < answers@.len() ==> answer_known(
                    old(self).scene@.tasks,
                    #[trigger] views(answers@)[i],
                ),
        ensures
            final(self).valid(),
            final(self).scene == old(self).scene,
            final(self).keeps_changes(*old(self)),
            (final(self).state@, crate::order::outcome(partition)) == run_located_step(
                old(self).scene@,
                old(self).state@,
                views(locators@),
                views(answers@),
                reqs,
            ),
    {
        match select_all_located(&self.scene, locators, answers) {
            Err(error) => Err(error),
            Ok(tasks) => self.run_selected_tasks(tasks, reqs),
        }
    }

    /// Adds the runs of tasks that were asked for: of all of them, or of the part of one job.
    pub fn run_selected_tasks(&mut self, tasks: Vec<TaskKey>, reqs: RunRequirements) -> (partition: Result<
        RunPartition,
        ActionGraphError,
    >)
        requires
            old(self).valid(),
        ensures
            final(self).valid(),
            final(self).scene == old(self).scene,
            final(self).keeps_changes(*old(self)),
            (final(self).state@, crate::order::outcome(partition)) == run_tasks_step(
                old(self).scene@,
                old(self).state@,
                views(tasks@),
                reqs,
            ),
    {
        let mut tasks = tasks;
        let mut size: Option<usize> = None;
        if let (Some(index), Some(total)) = (reqs.job, reqs.job_total) {
            if total > 0 {
                if index > total - 1 {
                    return Err(ActionGraphError::InvalidJobIndex { index, total });
                }
                if !reqs.skip_affected {
                    tasks = self.affected_tasks(&tasks, &reqs);
                }
                let part = take_part(&tasks, index, total);
                tasks = part.0;
                size = Some(part.1);
            }
        }
        match self.run_all(&tasks, &reqs) {
            Err(error) => Err(error),
            Ok(targets) => Ok(RunPartition { targets, size }),
        }
    }

    /// Takes in the files that changed in the primary source root.
    pub fn set_changed_files(&mut self, changed_files: KeySet<String>)
        ensures
            final(self).scene == old(self).scene,
            final(self).state == old(self).state,
            final(self).aggregate_affected == old(self).aggregate_affected,
            final(self).changed_files is Some && final(self).changed_files->0@ == changed_files@,
            value_views(final(self).source_changed_files@) == value_views(
                old(self).source_changed_files@,
            ).insert(old(self).scene@.primary, changed_files@),
            value_views(final(self).observations@) == value_views(old(self).observations@).insert(
                old(self).scene@.primary,
                changed_only(old(self).scene@.primary, changed_files@),
            ),
    {
        let primary = self.scene.primary.copy_key();
        let mut files: Table<String, Vec<ChangedStatus>> = Table::new();
        let n = changed_files.len();
        let ghost keys = changed_files.keys();
        let mut i: usize = 0;
        while i < n
            invariant
                i <= n,
                n == keys.len(),
                keys == changed_files.keys(),
                forall|key: Seq<char>|
                    changed_files@.contains(key) <==> #[trigger] keys.contains(key),
                forall|key: Seq<char>| #[trigger]
                    files@.dom().contains(key) <==> keys.take(i as int).contains(key),
                forall|key: Seq<char>| #[trigger]
                    files@.dom().contains(key) ==> files@[key]@ == Seq::<ChangedStatus>::empty(),
            decreases n - i,
        {
            let key = changed_files.key_at(i);
            let ghost before = files@;
            proof {
                assert(keys.take(i + 1) =~= keys.take(i as int).push(keys[i as int]));
                assert forall|other: Seq<char>| keys.take(i + 1).contains(other) <==> (other == keys[i as int]
                    || keys.take(i as int).contains(other)) by {
                    vstd::seq_lib::lemma_seq_contains_after_push(
                        keys.take(i as int),
                        keys[i as int],
                        other,
                    );
                }
            }
            files.insert(key.clone(), Vec::new());
            proof {
                assert forall|other: Seq<char>| #[trigger]
                    files@.dom().contains(other) <==> keys.take(i + 1).contains(other) by {
                    assert(before.dom().contains(other) <==> keys.take(i as int).contains(other));
                }
            }
            i = i + 1;
        }
        proof {
            assert(keys.take(i as int) =~= keys);
        }
        let observation = qualify_changed_files_observation(
            &primary,
            ChangedFilesObservation::exact(files),
        );
        proof {
            assert(observation@.files =~= changed_only(primary@, changed_files@).files);
        }
        self.source_changed_files.insert(primary.copy_key(), changed_files.duplicate());
        self.observations.insert(primary, observation);
        self.changed_files = Some(changed_files);
    }

    /// Takes in what is known of the changes of all source roots.
    pub fn set_source_changed_files(
        &mut self,
        observations: Table<SourceRootId, ChangedFilesObservation<SourcePathBuf>>,
    )
        ensures
            final(self).scene == old(self).scene,
            final(self).state == old(self).state,
            final(self).aggregate_affected == old(self).aggregate_affected,
            value_views(final(self).observations@) == value_views(observations@),
            value_views(final(self).source_changed_files@) == files_by_source(
                value_views(observations@),
            ),
            final(self).changed_files is Some,
            final(self).changed_files->0@ == files_of_source(
                value_views(observations@),
                old(self).scene@.primary,
            ),
    {
        let ghost known = value_views(observations@);
        let ghost keys = observations.keys();
        let n = observations.len();
        let mut sources: Table<SourceRootId, KeySet<String>> = Table::new();
        let mut i: usize = 0;
        while i < n
            invariant
                i <= n,
                n == keys.len(),
                keys == observations.keys(),
                known == value_views(observations@),
                forall|id: Seq<char>| #[trigger]
                    sources@.dom().contains(id) <==> keys.take(i as int).contains(id),
                forall|id: Seq<char>| #[trigger]
                    sources@.dom().contains(id) ==> sources@[id]@ == observed_files(known[id]),
                forall|j: int|
                    0 <= j < keys.len() ==> observations@.dom().contains(#[trigger] keys[j]),
            decreases n - i,
        {
            let id = observations.key_at(i);
            let files = paths_of(observations.value_at(i));
            let ghost before = sources@;
            proof {
                assert(observations@.dom().contains(keys[i as int]));
                assert(keys.take(i + 1) =~= keys.take(i as int).push(keys[i as int]));
                assert forall|other: Seq<char>| keys.take(i + 1).contains(other) <==> (other == keys[i as int]
                    || keys.take(i as int).contains(other)) by {
                    vstd::seq_lib::lemma_seq_contains_after_push(
                        keys.take(i as int),
                        keys[i as int],
                        other,
                    );
                }
            }
            sources.insert(id.copy_key(), files);
            proof {
                assert forall|other: Seq<char>| #[trigger]
                    sources@.dom().contains(other) <==> keys.take(i + 1).contains(other) by {
                    assert(before.dom().contains(other) <==> keys.take(i as int).contains(other));
                }
            }
            i = i + 1;
        }
        proof {
            assert(keys.take(i as int) =~= keys);
            assert forall|id: Seq<char>| #[trigger]
                value_views(sources@).dom().contains(id) <==> files_by_source(known).dom().contains(
                    id,
                ) by {
                assert(sources@.dom().contains(id) <==> keys.contains(id));
                assert(observations@.dom().contains(id) <==> keys.contains(id));
            }
            assert(value_views(sources@) =~= files_by_source(known));
        }
        let changed = match sources.get(&self.scene.primary) {
            Some(files) => files.duplicate(),
            None => KeySet::new(),
        };
        self.source_changed_files = sources;
        self.observations = observations;
        self.changed_files = Some(changed);
    }

    /// Begins to track what is affected, where that was not done before, for the changes that
    /// are known. From then on only what is affected runs.
    pub fn set_affected(&mut self, sources: SourceRegistry)
        requires
            old(self).valid(),
        ensures
            final(self).valid(),
            final(self).state == old(self).state,
            final(self).aggregate_affected is Some,
            final(self).aggregate_affected->0@ == tracker_for(
                old(self).aggregate_affected,
                old(self).scene@,
                value_views(old(self).observations@),
                sources@.roots.dom(),
            ),
            final(self).scene@ == with_marks(old(self).scene@, final(self).aggregate_affected->0@),
            value_views(final(self).observations@) == if old(self).aggregate_affected is None {
                Map::empty()
            } else {
                value_views(old(self).observations@)
            },
            final(self).changed_files == old(self).changed_files,
            final(self).source_changed_files == old(self).source_changed_files,
    {
        let tracker = match self.aggregate_affected.take() {
            Some(tracker) => tracker,
            None => {
                let mut observations: Table<
                    SourceRootId,
                    ChangedFilesObservation<SourcePathBuf>,
                > = Table::new();
                std::mem::swap(&mut observations, &mut self.observations);
                assert(value_views(self.observations@) =~= Map::empty());
                let graph = WorkspaceGraph {
                    projects: self.scene.projects.clone(),
                    tasks: self.scene.tasks.clone(),
                    sources,
                    aggregate: true,
                };
                match AggregateAffectedTracker::new(&graph, observations) {
                    Ok(tracker) => tracker,
                    Err(_) => vstd::pervasive::unreached(),
                }
            },
        };
        self.scene.affected = Some(tracker.marks());
        self.aggregate_affected = Some(tracker);
    }

    /// Finds out what is affected, along relations as far as they are wanted. All projects are
    /// looked at before tasks are added, so that the order of the tasks does not matter.
    pub fn track_affected(
        &mut self,
        sources: SourceRegistry,
        inputs: &TaskInputs,
        upstream: UpstreamScope,
        downstream: DownstreamScope,
        ci_check: bool,
    )
        requires
            old(self).valid(),
        ensures
            final(self).valid(),
            final(self).state == old(self).state,
            final(self).aggregate_affected is Some,
            final(self).aggregate_affected->0@ == after_tracking(
                tracker_for(
                    old(self).aggregate_affected,
                    old(self).scene@,
                    value_views(old(self).observations@),
                    sources@.roots.dom(),
                ),
                inputs@,
                upstream,
                downstream,
                ci_check,
            ),
            final(self).scene@ == with_marks(old(self).scene@, final(self).aggregate_affected->0@),
            value_views(final(self).observations@) == if old(self).aggregate_affected is None {
                Map::empty()
            } else {
                value_views(old(self).observations@)
            },
            final(self).changed_files == old(self).changed_files,
            final(self).source_changed_files == old(self).source_changed_files,
    {
        self.set_affected(sources);
        if let Some(mut tracker) = self.aggregate_affected.take() {
            tracker.track_all(inputs, upstream, downstream, ci_check);
            self.scene.affected = Some(tracker.marks());
            self.aggregate_affected = Some(tracker);
        }
    }

    /// Adds the runs of the tasks that a plan asks for, given what was found for each of its
    /// locators. A plan that shares out the tasks itself says how many a job takes.
    pub fn run_tasks_with_plan(
        &mut self,
        plan: &TargetsBlock,
        answers: &Vec<LocatorAnswer>,
        reqs: RunRequirements,
    ) -> (partition: Result<RunPartition, ActionGraphError>)
        requires
            old(self).valid(),
            plan_answered(old(self).scene@, *plan, views(answers@), reqs),
        ensures
            final(self).valid(),
            final(self).scene == old(self).scene,
            final(self).keeps_changes(*old(self)),
            (final(self).state@, crate::order::outcome(partition)) == run_plan_step(
                old(self).scene@,
                old(self).state@,
                *plan,
                views(answers@),
                reqs,
            ),
    {
        let chosen = match plan.choose_targets(reqs) {
            Err(error) => {
                return Err(error);
            },
            Ok(chosen) => chosen,
        };
        let size = chosen.size;
        match self.run_tasks(chosen.locators, answers, chosen.reqs) {
            Err(error) => Err(error),
            Ok(partition) => match size {
                Some(size) => Ok(RunPartition { targets: partition.targets, size: Some(size) }),
                None => Ok(partition),
            },
        }
    }

    /// Adds the runs of the tasks that a locator means, given what was found for it.
    pub fn run_task_by_target_locator(
        &mut self,
        locator: &TargetLocator,
        answer: &LocatorAnswer,
        reqs: &RunRequirements,
    ) -> (targets: Result<Table<usize, TaskKey>, ActionGraphError>)
        requires
            old(self).valid(),
            answer_known(old(self).scene@.tasks, answer@),
        ensures
            final(self).valid(),
            final(self).scene == old(self).scene,
            final(self).keeps_changes(*old(self)),
            (final(self).state@, told_targets(targets)) == run_locator_step(
                old(self).scene@,
                old(self).state@,
                locator@,
                answer@,
                *reqs,
            ),
    {
        match select_located(&self.scene, locator, answer) {
            Err(error) => Err(error),
            Ok(tasks) => self.run_all(&tasks, reqs),
        }
    }

    /// Adds the runs of the tasks that a target means, given what was found for its queries.
    pub fn run_task_by_target(
        &mut self,
        target: &Target,
        answer: &LocatorAnswer,
        reqs: &RunRequirements,
    ) -> (targets: Result<Table<usize, TaskKey>, ActionGraphError>)
        requires
            old(self).valid(),
        ensures
            final(self).valid(),
            final(self).scene == old(self).scene,
            final(self).keeps_changes(*old(self)),
            (final(self).state@, told_targets(targets)) == run_target_step(
                old(self).scene@,
                old(self).state@,
                target@,
                answer@,
                *reqs,
            ),
    {
        match select_target(&self.scene, target, answer) {
            Err(error) => Err(error),
            Ok(tasks) => self.run_all(&tasks, reqs),
        }
    }

    /// The graph, and what the run of it starts from. Invocations that are not to run count
    /// as passed.
    pub fn build(self) -> (built: (ActionContext, ActionGraph))
        requires
            self.valid(),
        ensures
            built.1@ == (BuiltView { nodes: self.state@.nodes, graph: self.state@.graph }),
            built.0.primary_source_id@ == self.scene@.primary,
            built.0.primary_targets@ == self.state@.primary,
            value_views(built.0.ignored_dependencies@) == self.state@.ignored_dependencies,
            forall|key: InvocationView| #[trigger]
                built.0.invocation_states@.dom().contains(key) <==> self.state@.passthrough.contains(
                    key,
                ),
            forall|key: InvocationView| #[trigger]
                built.0.invocation_states@.dom().contains(key)
                    ==> built.0.invocation_states@[key]@ is Passthrough,
            built.0.changed_files@ == (match self.changed_files {
                Some(files) => files@,
                None => Set::empty(),
            }),
            built.0.source_changed_files == self.source_changed_files,
            views(built.0.passthrough_args@) == Seq::<Seq<char>>::empty(),
            views(built.0.initial_targets@) == Seq::<LocatorView>::empty(),
            held_states(built.0.target_states) == Map::<TaskKeyView, TargetStateView>::empty(),
            view_of(built.0.aggregate_affected) == (match self.aggregate_affected {
                Some(tracker) => Some(affected_so_far(tracker@)),
                None => None,
            }),
    {
        let mut context = ActionContext::new(self.scene.primary.copy_key());
        let n = self.state.passthrough_targets.len();
        let ghost keys = self.state.passthrough_targets.keys();
        let ghost passed = self.state@.passthrough;
        let mut i: usize = 0;
        while i < n
            invariant
                i <= n,
                n == keys.len(),
                keys == self.state.passthrough_targets.keys(),
                forall|key: InvocationView| passed.contains(key) <==> #[trigger] keys.contains(key),
                context.primary_source_id@ == self.scene@.primary,
                views(context.passthrough_args@) == Seq::<Seq<char>>::empty(),
                views(context.initial_targets@) == Seq::<LocatorView>::empty(),
                held_states(context.target_states) == Map::<
                    TaskKeyView,
                    TargetStateView,
                >::empty(),
                forall|key: InvocationView| #[trigger]
                    context.invocation_states@.dom().contains(key) <==> keys.take(i as int).contains(
                        key,
                    ),
                forall|key: InvocationView| #[trigger]
                    context.invocation_states@.dom().contains(key)
                        ==> context.invocation_states@[key]@ is Passthrough,
            decreases n - i,
        {
            let key = self.state.passthrough_targets.key_at(i);
            let ghost before = context.invocation_states@;
            proof {
                assert(keys.take(i + 1) =~= keys.take(i as int).push(keys[i as int]));
                assert forall|other: InvocationView| keys.take(i + 1).contains(other) <==> (other
                    == keys[i as int] || keys.take(i as int).contains(other)) by {
                    vstd::seq_lib::lemma_seq_contains_after_push(
                        keys.take(i as int),
                        keys[i as int],
                        other,
                    );
                }
            }
            context.set_invocation_state(key.copy_key(), TargetState::Passthrough);
            proof {
                assert forall|other: InvocationView| #[trigger]
                    context.invocation_states@.dom().contains(other) <==> keys.take(
                        i + 1,
                    ).contains(other) by {
                    assert(before.dom().contains(other) <==> keys.take(i as int).contains(other));
                }
            }
            i = i + 1;
        }
        proof {
            assert(keys.take(i as int) =~= keys);
        }
        let root = self.state.get_index_from_node(
            &ActionNode::sync_workspace(self.scene.primary.copy_key()),
        );
        let ActionGraphBuilder {
            scene: _,
            state,
            changed_files,
            source_changed_files,
            observations: _,
            aggregate_affected,
        } = self;
        context.aggregate_affected = match aggregate_affected {
            Some(tracker) => Some(tracker.build()),
            None => None,
        };
        let ActionGraphState {
            nodes,
            graph,
            serial: _,
            ignored_dependencies,
            ignored_dependents: _,
            passthrough_targets: _,
            primary_targets,
            setup_tails: _,
        } = state;
        let mut graph = graph;
        if let Some(root) = root {
            assert forall|j: int| 0 <= j < graph@.edges.len() implies (#[trigger] graph@.edges[j]).0
                != root by {
                assert(may_wait(self.state@.nodes, self.state@.graph.edges[j].0));
            }
            graph.reduce_from(root);
        }
        context.ignored_dependencies = ignored_dependencies;
        context.primary_targets = primary_targets;
        context.source_changed_files = source_changed_files;
        if let Some(files) = changed_files {
            context.changed_files = files;
        } else {
            context.changed_files = KeySet::new();
        }
        (context, ActionGraph { nodes, graph })
    }
}

/// The runs of the tasks that a target means, given what was found for its queries.
pub open spec fn run_target_step(
    scene: SceneView,
    state: StateView,
    target: TargetView,
    answer: AnswerView,
    reqs: RunRequirements,
) -> (StateView, Result<Targets, ActionGraphFault>) {
    match target_tasks(scene, target, answer) {
        Err(fault) => (state, Err(fault)),
        Ok(keys) => run_primary_all(scene, state, keys, reqs),
    }
}

/// The tasks that run, or what the first that failed reports.
pub open spec fn told_targets(result: Result<Table<usize, TaskKey>, ActionGraphError>) -> Result<
    Targets,
    ActionGraphFault,
> {
    match result {
        Ok(targets) => Ok(value_views(targets@)),
        Err(error) => Err(error@),
    }
}

/// A graph of actions.
pub struct BuiltView {
    pub nodes: Seq<NodeView>,
    pub graph: DagView,
}

/// A graph of actions: what each number stands for, and what each action waits for.
pub struct ActionGraph {
    pub nodes: Vec<ActionNode>,
    pub graph: DependencyDag,
}

impl View for ActionGraph {
    type V = BuiltView;

    open spec fn view(&self) -> BuiltView {
        BuiltView { nodes: views(self.nodes@), graph: self.graph@ }
    }
}

/// The paths of the files that are known to have changed.
pub open spec fn observed_files(observation: ObservationView<SourcePathView>) -> Set<Seq<char>> {
    Set::new(
        |path: Seq<char>|
            exists|file: SourcePathView| #[trigger]
                observation.files.dom().contains(file) && file.path == path,
    )
}

/// The files that are known to have changed in every source root.
pub open spec fn files_by_source(
    observations: Map<Seq<char>, ObservationView<SourcePathView>>,
) -> Map<Seq<char>, Set<Seq<char>>> {
    Map::new(
        |id: Seq<char>| observations.dom().contains(id),
        |id: Seq<char>| observed_files(observations[id]),
    )
}

/// The files that are known to have changed in one source root.
pub open spec fn files_of_source(
    observations: Map<Seq<char>, ObservationView<SourcePathView>>,
    id: Seq<char>,
) -> Set<Seq<char>> {
    if observations.dom().contains(id) {
        observed_files(observations[id])
    } else {
        Set::empty()
    }
}

/// The paths of the files that are known to have changed.
fn paths_of(observation: &ChangedFilesObservation<SourcePathBuf>) -> (paths: KeySet<String>)
    ensures
        paths@ == observed_files(observation@),
{
    let mut paths: KeySet<String> = KeySet::new();
    let n = observation.files.len();
    let ghost keys = observation.files.keys();
    let mut i: usize = 0;
    while i < n
        invariant
            i <= n,
            n == keys.len(),
            keys == observation.files.keys(),
            forall|path: Seq<char>| #[trigger]
                paths@.contains(path) <==> exists|j: int|
                    0 <= j < i && (#[trigger] keys[j]).path == path,
        decreases n - i,
    {
        let file = observation.files.key_at(i);
        let ghost before = paths@;
        paths.insert(file.path.clone());
        proof {
            assert forall|path: Seq<char>| #[trigger]
                paths@.contains(path) <==> exists|j: int|
                    0 <= j < i + 1 && (#[trigger] keys[j]).path == path by {
                if before.contains(path) {
                    let j = choose|j: int| 0 <= j < i && (#[trigger] keys[j]).path == path;
                    assert(keys[j].path == path);
                }
                assert(keys[i as int].path == file@.path);
            }
        }
        i = i + 1;
    }
    proof {
        assert forall|path: Seq<char>| paths@.contains(path) <==> observed_files(
            observation@,
        ).contains(path) by {
            if paths@.contains(path) {
                let j = choose|j: int| 0 <= j < n && (#[trigger] keys[j]).path == path;
                assert(observation.files@.dom().contains(keys[j]));
                assert(observation@.files.dom().contains(keys[j]));
            }
            if observed_files(observation@).contains(path) {
                let file = choose|file: SourcePathView| #[trigger]
                    observation@.files.dom().contains(file) && file.path == path;
                assert(keys.contains(file));
                let j = choose|j: int| 0 <= j < keys.len() && keys[j] == file;
                assert(keys[j].path == path);
            }
        }
        assert(paths@ =~= observed_files(observation@));
    }
    paths
}

/// What is known where all changed files of a source root are known, and nothing of how they
/// changed.
pub open spec fn changed_only(source: Seq<char>, files: Set<Seq<char>>) -> ObservationView<
    SourcePathView,
> {
    ObservationView {
        files: Map::new(
            |file: SourcePathView| file.source == source && files.contains(file.path),
            |file: SourcePathView| Seq::empty(),
        ),
        completeness: ImpactCompleteness::Exact,
        diagnostics: Seq::empty(),
    }
}

} // verus!
