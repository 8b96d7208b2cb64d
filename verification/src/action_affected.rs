//! Which projects and tasks count as affected in a run.

use crate::action_scene::{AffectedMarks, MarksView};
use crate::affected::{Causes, DownstreamScope, UpstreamScope};
use crate::affected_tracker::{
    affected_so_far, track_project, track_task, AffectedView,
    AggregateAffectedTracker, InputsView, ProjectCauses, ProjectStates, TaskCauses, TaskInputs,
    TaskStates, TrackerView,
};
use crate::fold::fold;
use crate::keys::{ProjectKey, ProjectKeyView, TaskKey, TaskKeyView};
use crate::keyset::KeySet;
use crate::order::arranged;
use crate::project_compose::keys_in_order;
use crate::project_queries::graph_valid;
use crate::table::{value_views, Key};
use crate::task_graph::task_graph_valid;
use vstd::prelude::*;

verus! {

broadcast use {crate::order::group_views, crate::table::value_views_insert};

/// The projects that are affected by themselves.
pub open spec fn projects_alone(states: ProjectStates) -> Set<ProjectKeyView> {
    states.dom().filter(|key: ProjectKeyView| states[key].causes != ProjectCauses::none())
}

/// The tasks that are affected by themselves.
pub open spec fn tasks_alone(states: TaskStates) -> Set<TaskKeyView> {
    states.dom().filter(|key: TaskKeyView| states[key].causes != TaskCauses::none())
}

/// What counts as affected in a run. Where nothing needs to be checked, nothing does.
pub open spec fn marks_of(affected: AffectedView) -> MarksView {
    if affected.should_check {
        MarksView {
            projects: affected.projects.dom(),
            projects_alone: projects_alone(affected.projects),
            tasks: affected.tasks.dom(),
            tasks_alone: tasks_alone(affected.tasks),
        }
    } else {
        MarksView {
            projects: Set::empty(),
            projects_alone: Set::empty(),
            tasks: Set::empty(),
            tasks_alone: Set::empty(),
        }
    }
}

/// A tracker that has looked at all projects, and then at all tasks.
pub open spec fn after_tracking(
    tracker: TrackerView,
    inputs: InputsView,
    upstream: UpstreamScope,
    downstream: DownstreamScope,
    ci: bool,
) -> TrackerView {
    let scoped = TrackerView {
        ci,
        project_upstream: upstream,
        project_downstream: downstream,
        task_upstream: upstream,
        task_downstream: downstream,
        ..tracker
    };
    let projects = fold(
        keys_in_order(scoped.projects.nodes),
        scoped.affected.projects,
        track_project(scoped),
    );
    let seen = TrackerView {
        affected: AffectedView { projects, ..scoped.affected },
        ..scoped
    };
    let states = fold(
        arranged::<TaskKey>(seen.tasks.nodes.dom()),
        (seen.affected.projects, seen.affected.tasks),
        track_task(seen, inputs),
    );
    TrackerView {
        affected: AffectedView { projects: states.0, tasks: states.1, ..seen.affected },
        ..seen
    }
}

/// Whether a project is affected by itself.
fn has_project_causes(causes: &ProjectCauses) -> (r: bool)
    ensures
        r == (causes@ != ProjectCauses::none()),
{
    let files = causes.files.len();
    let tasks = causes.tasks.len();
    proof {
        if files == 0 {
            assert(causes.files@ =~= Set::empty());
        } else {
            assert(causes.files.keys().contains(causes.files.keys()[0]));
            assert(causes.files@.contains(causes.files.keys()[0]));
        }
        if tasks == 0 {
            assert(causes.tasks@ =~= Set::empty());
        } else {
            assert(causes.tasks.keys().contains(causes.tasks.keys()[0]));
            assert(causes.tasks@.contains(causes.tasks.keys()[0]));
        }
    }
    files > 0 || tasks > 0 || causes.other
}

/// Whether a task is affected by itself.
fn has_task_causes(causes: &TaskCauses) -> (r: bool)
    ensures
        r == (causes@ != TaskCauses::none()),
{
    let env = causes.env.len();
    let files = causes.files.len();
    proof {
        if env == 0 {
            assert(causes.env@ =~= Set::empty());
        } else {
            assert(causes.env.keys().contains(causes.env.keys()[0]));
            assert(causes.env@.contains(causes.env.keys()[0]));
        }
        if files == 0 {
            assert(causes.files@ =~= Set::empty());
        } else {
            assert(causes.files.keys().contains(causes.files.keys()[0]));
            assert(causes.files@.contains(causes.files.keys()[0]));
        }
    }
    env > 0 || files > 0 || causes.other
}

impl AggregateAffectedTracker {
    /// The projects that were marked, and those among them that are affected by themselves.
    fn marked_projects(&self) -> (marks: (KeySet<ProjectKey>, KeySet<ProjectKey>))
        ensures
            marks.0@ == self@.affected.projects.dom(),
            marks.1@ == projects_alone(self@.affected.projects),
    {
        let table = &self.affected.projects;
        let ghost states = self@.affected.projects;
        let n = table.len();
        let ghost keys = table.keys();
        let mut all: KeySet<ProjectKey> = KeySet::new();
        let mut alone: KeySet<ProjectKey> = KeySet::new();
        let mut i: usize = 0;
        while i < n
            invariant
                i <= n,
                n == keys.len(),
                keys == table.keys(),
                states == value_views(table@),
                forall|key: ProjectKeyView|
                    table@.dom().contains(key) <==> #[trigger] keys.contains(key),
                forall|key: ProjectKeyView| #[trigger]
                    all@.contains(key) <==> exists|j: int| 0 <= j < i && #[trigger] keys[j] == key,
                forall|key: ProjectKeyView| #[trigger]
                    alone@.contains(key) <==> exists|j: int|
                        0 <= j < i && #[trigger] keys[j] == key && states[key].causes
                            != ProjectCauses::none(),
            decreases n - i,
        {
            let key = table.key_at(i);
            let state = table.value_at(i);
            assert(states[keys[i as int]] == state@);
            if has_project_causes(&state.causes) {
                alone.insert(key.copy_key());
            }
            all.insert(key.copy_key());
            i = i + 1;
        }
        assert(all@ =~= states.dom()) by {
            assert forall|key: ProjectKeyView| all@.contains(key) <==> states.dom().contains(
                key,
            ) by {
                assert(table@.dom().contains(key) <==> keys.contains(key));
            }
        }
        assert(alone@ =~= projects_alone(states)) by {
            assert forall|key: ProjectKeyView| alone@.contains(key) <==> projects_alone(
                states,
            ).contains(key) by {
                assert(table@.dom().contains(key) <==> keys.contains(key));
            }
        }
        (all, alone)
    }

    /// The tasks that were marked, and those among them that are affected by themselves.
    fn marked_tasks(&self) -> (marks: (KeySet<TaskKey>, KeySet<TaskKey>))
        ensures
            marks.0@ == self@.affected.tasks.dom(),
            marks.1@ == tasks_alone(self@.affected.tasks),
    {
        let table = &self.affected.tasks;
        let ghost states = self@.affected.tasks;
        let n = table.len();
        let ghost keys = table.keys();
        let mut all: KeySet<TaskKey> = KeySet::new();
        let mut alone: KeySet<TaskKey> = KeySet::new();
        let mut i: usize = 0;
        while i < n
            invariant
                i <= n,
                n == keys.len(),
                keys == table.keys(),
                states == value_views(table@),
                forall|key: TaskKeyView|
                    table@.dom().contains(key) <==> #[trigger] keys.contains(key),
                forall|key: TaskKeyView| #[trigger]
                    all@.contains(key) <==> exists|j: int| 0 <= j < i && #[trigger] keys[j] == key,
                forall|key: TaskKeyView| #[trigger]
                    alone@.contains(key) <==> exists|j: int|
                        0 <= j < i && #[trigger] keys[j] == key && states[key].causes
                            != TaskCauses::none(),
            decreases n - i,
        {
            let key = table.key_at(i);
            let state = table.value_at(i);
            assert(states[keys[i as int]] == state@);
            if has_task_causes(&state.causes) {
                alone.insert(key.copy_key());
            }
            all.insert(key.copy_key());
            i = i + 1;
        }
        assert(all@ =~= states.dom()) by {
            assert forall|key: TaskKeyView| all@.contains(key) <==> states.dom().contains(key) by {
                assert(table@.dom().contains(key) <==> keys.contains(key));
            }
        }
        assert(alone@ =~= tasks_alone(states)) by {
            assert forall|key: TaskKeyView| alone@.contains(key) <==> tasks_alone(
                states,
            ).contains(key) by {
                assert(table@.dom().contains(key) <==> keys.contains(key));
            }
        }
        (all, alone)
    }

    /// What counts as affected in a run, as far as the tracker has looked.
    pub fn marks(&self) -> (marks: AffectedMarks)
        ensures
            marks@ == marks_of(affected_so_far(self@)),
    {
        if self.needs_check() {
            let (projects, projects_alone) = self.marked_projects();
            let (tasks, tasks_alone) = self.marked_tasks();
            AffectedMarks { projects, projects_alone, tasks, tasks_alone }
        } else {
            AffectedMarks {
                projects: KeySet::new(),
                projects_alone: KeySet::new(),
                tasks: KeySet::new(),
                tasks_alone: KeySet::new(),
            }
        }
    }

    /// Looks at all projects and tasks, along relations as far as they are wanted.
    pub fn track_all(
        &mut self,
        inputs: &TaskInputs,
        upstream: UpstreamScope,
        downstream: DownstreamScope,
        ci: bool,
    )
        requires
            graph_valid(old(self)@.projects),
            task_graph_valid(old(self)@.tasks),
        ensures
            final(self)@ == after_tracking(old(self)@, inputs@, upstream, downstream, ci),
    {
        self.set_ci_check(ci);
        self.set_scopes(upstream, downstream);
        self.track_projects();
        self.track_tasks(inputs);
    }
}

/// Without changes nothing counts as affected in a run, however far relations are followed.
pub proof fn no_changes_mark_nothing(
    tracker: TrackerView,
    inputs: InputsView,
    upstream: UpstreamScope,
    downstream: DownstreamScope,
    ci: bool,
)
    requires
        !crate::affected_tracker::has_changes(tracker.observations),
    ensures
        marks_of(affected_so_far(after_tracking(tracker, inputs, upstream, downstream, ci))) == (
        MarksView {
            projects: Set::empty(),
            projects_alone: Set::empty(),
            tasks: Set::empty(),
            tasks_alone: Set::empty(),
        }),
{
}

/// What is affected by itself is affected.
pub proof fn marks_alone_are_marks(affected: AffectedView)
    ensures
        marks_of(affected).projects_alone.subset_of(marks_of(affected).projects),
        marks_of(affected).tasks_alone.subset_of(marks_of(affected).tasks),
{
}

} // verus!
