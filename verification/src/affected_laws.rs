//! What holds of everything that changed files affect.

use crate::affected_tracker::{
    first_where, has_changes, is_set, project_cause, task_cause, track_project, track_task,
    InputsView, Observations, ProjectStates, TaskStates, TrackerView,
};
use crate::changed_files::{source_paths_rank, ImpactCompleteness, ObservationView};
use crate::fold::fold;
use crate::keys::{ProjectKeyView, TaskKeyView};
use crate::order::{arranged, arranged_holds};
use crate::project_graph::ProjectGraphView;
use crate::source::{SourcePathBuf, SourcePathView};
use crate::task::TaskOptionRunInCI;
use crate::task_graph::TaskGraphView;
use vstd::prelude::*;

verus! {

/// It is known exactly that nothing changed.
pub open spec fn is_unchanged(observation: ObservationView<SourcePathView>) -> bool {
    observation.completeness == ImpactCompleteness::Exact && observation.files.dom()
        == Set::<SourcePathView>::empty()
}

/// There is no first file without files.
proof fn no_file_without_files()
    ensures
        arranged::<SourcePathBuf>(Set::empty()) == Seq::<SourcePathView>::empty(),
{
    source_paths_rank();
    arranged_holds::<SourcePathBuf>(Set::empty());
    let list = arranged::<SourcePathBuf>(Set::empty());
    if list.len() > 0 {
        assert(list.contains(list[0]));
    }
    assert(list =~= Seq::empty());
}

/// A project whose source root did not change is not affected by itself, whatever
/// changed in other source roots.
pub proof fn projects_answer_to_their_source(
    projects: ProjectGraphView,
    observations: Observations,
    key: ProjectKeyView,
)
    requires
        observations.dom().contains(key.source) ==> is_unchanged(observations[key.source]),
    ensures
        project_cause(projects, observations, key) is None,
{
    no_file_without_files();
}

/// A task whose source root did not change is not affected by itself, whatever changed
/// in other source roots, unless a variable that it reads has a value or it always runs
/// in continuous integration.
pub proof fn tasks_answer_to_their_source(
    tasks: TaskGraphView,
    observations: Observations,
    ci: bool,
    inputs: InputsView,
    key: TaskKeyView,
)
    requires
        observations.dom().contains(key.project.source) ==> is_unchanged(
            observations[key.project.source],
        ),
        !(ci && tasks.nodes[key].task.options.run_in_ci == TaskOptionRunInCI::Always),
        first_where(tasks.nodes[key].task.input_env, is_set(inputs)) is None,
    ensures
        task_cause(tasks, observations, ci, inputs, key) is None,
{
    no_file_without_files();
}

/// All source roots are known exactly not to have changed.
pub open spec fn nothing_changed(observations: Observations) -> bool {
    forall|id: Seq<char>| #[trigger]
        observations.dom().contains(id) ==> is_unchanged(observations[id])
}

/// Where nothing changed, no project is affected, and nothing needs to be checked.
pub proof fn no_changes_affect_no_project(
    tracker: TrackerView,
    keys: Seq<ProjectKeyView>,
    states: ProjectStates,
)
    requires
        nothing_changed(tracker.observations),
    ensures
        fold(keys, states, track_project(tracker)) == states,
        !has_changes(tracker.observations),
    decreases keys.len(),
{
    if keys.len() > 0 {
        no_changes_affect_no_project(tracker, keys.drop_last(), states);
        projects_answer_to_their_source(tracker.projects, tracker.observations, keys.last());
    }
}

/// Where nothing changed and no variable that a task reads has a value, no task is
/// affected outside of continuous integration.
pub proof fn no_changes_affect_no_task(
    tracker: TrackerView,
    inputs: InputsView,
    keys: Seq<TaskKeyView>,
    states: (ProjectStates, TaskStates),
)
    requires
        nothing_changed(tracker.observations),
        !tracker.ci,
        forall|i: int|
            0 <= i < keys.len() ==> first_where(
                tracker.tasks.nodes[#[trigger] keys[i]].task.input_env,
                is_set(inputs),
            ) is None,
    ensures
        fold(keys, states, track_task(tracker, inputs)) == states,
    decreases keys.len(),
{
    if keys.len() > 0 {
        let rest = keys.drop_last();
        assert forall|i: int| 0 <= i < rest.len() implies first_where(
            tracker.tasks.nodes[#[trigger] rest[i]].task.input_env,
            is_set(inputs),
        ) is None by {
            assert(rest[i] == keys[i]);
        }
        no_changes_affect_no_task(tracker, inputs, rest, states);
        assert(keys[keys.len() - 1] == keys.last());
        tasks_answer_to_their_source(
            tracker.tasks,
            tracker.observations,
            false,
            inputs,
            keys.last(),
        );
    }
}

} // verus!
