//! What the actions of a run are built from.

use crate::action_affected::marks_of;
use crate::action_node::SpecView;
use crate::action_partition::{chosen_targets, ChosenView, TargetsBlock};
use crate::action_run::RunRequirements;
use crate::action_scene::{
    all_options, facts_of, project_spec, ready_task, setting_of, spec_for, FactsView, ProjectSettingView,
    SceneView,
};
use crate::action_state::ActionGraphFault;
use crate::action_tasks::{run_node, CallView};
use crate::affected_tracker::{AffectedView, ProjectCausesView, TaskCausesView};
use crate::keys::{ProjectKeyView, TaskKeyView};
use crate::order::views;
use crate::task::{TaskOptions, TaskView};
use crate::wait_laws::is_on;
use vstd::prelude::*;

verus! {

/// The first setting of a project for a toolchain stands at a place.
pub open spec fn is_first_setting(
    settings: Seq<ProjectSettingView>,
    project: ProjectKeyView,
    id: Seq<char>,
    at: int,
) -> bool {
    &&& 0 <= at < settings.len()
    &&& settings[at].project == project
    &&& settings[at].toolchain == id
    &&& forall|i: int|
        0 <= i < at ==> (#[trigger] settings[i]).project != project || settings[i].toolchain != id
}

proof fn the_first_setting_counts(
    settings: Seq<ProjectSettingView>,
    project: ProjectKeyView,
    id: Seq<char>,
)
    ensures
        match setting_of(settings, project, id) {
            Some(config) => exists|at: int| #[trigger]
                is_first_setting(settings, project, id, at) && settings[at].config == config,
            None => forall|i: int|
                0 <= i < settings.len() ==> (#[trigger] settings[i]).project != project
                    || settings[i].toolchain != id,
        },
    decreases settings.len(),
{
    if settings.len() > 0 {
        let rest = settings.drop_last();
        let last = settings.len() - 1;
        the_first_setting_counts(rest, project, id);
        match setting_of(rest, project, id) {
            Some(config) => {
                let at = choose|at: int| #[trigger]
                    is_first_setting(rest, project, id, at) && rest[at].config == config;
                assert(settings[at] == rest[at]);
                assert forall|i: int| 0 <= i < at implies (#[trigger] settings[i]).project
                    != project || settings[i].toolchain != id by {
                    assert(rest[i] == settings[i]);
                }
                assert(is_first_setting(settings, project, id, at));
            },
            None => {
                assert forall|i: int| 0 <= i < last implies (#[trigger] settings[i]).project
                    != project || settings[i].toolchain != id by {
                    assert(rest[i] == settings[i]);
                }
                if setting_of(settings, project, id) is Some {
                    assert(is_first_setting(settings, project, id, last));
                }
            },
        }
    }
}

/// A workspace configures a toolchain in a version.
pub open spec fn is_configured(
    scene: SceneView,
    source: Seq<char>,
    id: Seq<char>,
    version: Option<Seq<char>>,
) -> bool {
    &&& scene.configs.dom().contains(source)
    &&& scene.configs[source].plugins.dom().contains(id)
    &&& scene.configs[source].plugins[id].version == version
}

/// A project has a toolchain unless its first setting disables it: in the version of that
/// setting where it has one, and else in that of its workspace, where that configures it.
pub proof fn projects_choose_their_toolchains(
    scene: SceneView,
    project: ProjectKeyView,
    id: Seq<char>,
    at: int,
)
    ensures
        is_first_setting(scene.settings, project, id, at) ==> {
            let config = scene.settings[at].config;
            &&& !config.enabled ==> project_spec(scene, project, id) is None
            &&& config.enabled && config.version is Some ==> project_spec(scene, project, id)
                == Some(SpecView { id, req: config.version })
            &&& config.enabled && config.version is None ==> forall|version: Option<Seq<char>>|
                project_spec(scene, project, id) == Some(SpecView { id, req: version })
                    <==> #[trigger] is_configured(scene, project.source, id, version)
        },
        (forall|i: int|
            0 <= i < scene.settings.len() ==> (#[trigger] scene.settings[i]).project != project
                || scene.settings[i].toolchain != id) ==> forall|version: Option<Seq<char>>|
            project_spec(scene, project, id) == Some(SpecView { id, req: version })
                <==> #[trigger] is_configured(scene, project.source, id, version),
        project_spec(scene, project, id) matches Some(spec) ==> spec.id == id,
        spec_for(scene, Some(project), id) == project_spec(scene, project, id),
        forall|version: Option<Seq<char>>|
            spec_for(scene, None, id) == Some(SpecView { id, req: version })
                <==> #[trigger] is_configured(scene, scene.primary, id, version),
{
    the_first_setting_counts(scene.settings, project, id);
    if is_first_setting(scene.settings, project, id, at) {
        assert(scene.settings[at].project == project);
        let found = choose|found: int| #[trigger]
            is_first_setting(scene.settings, project, id, found) && scene.settings[found].config
                == setting_of(scene.settings, project, id)->0;
        assert(scene.settings[found].project == project);
        assert(found == at);
    } else if setting_of(scene.settings, project, id) is Some {
        let found = choose|found: int| #[trigger]
            is_first_setting(scene.settings, project, id, found) && scene.settings[found].config
                == setting_of(scene.settings, project, id)->0;
        assert(scene.settings[found].project == project);
    }
}

/// What the plugin of a toolchain says is the first that is said of it there.
pub proof fn the_first_facts_count(
    facts: Seq<FactsView>,
    source: Seq<char>,
    project: Option<ProjectKeyView>,
    id: Seq<char>,
)
    ensures
        match facts_of(facts, source, project, id) {
            Some(found) => exists|at: int|
                0 <= at < facts.len() && #[trigger] facts[at] == found && found.source == source
                    && found.project == project && found.toolchain == id && forall|i: int|
                    0 <= i < at ==> (#[trigger] facts[i]).source != source || facts[i].project
                        != project || facts[i].toolchain != id,
            None => forall|i: int|
                0 <= i < facts.len() ==> (#[trigger] facts[i]).source != source || facts[i].project
                    != project || facts[i].toolchain != id,
        },
    decreases facts.len(),
{
    if facts.len() > 0 {
        let rest = facts.drop_last();
        let last = facts.len() - 1;
        the_first_facts_count(rest, source, project, id);
        match facts_of(rest, source, project, id) {
            Some(found) => {
                let at = choose|at: int|
                    0 <= at < rest.len() && #[trigger] rest[at] == found && found.source == source
                        && found.project == project && found.toolchain == id && forall|i: int|
                        0 <= i < at ==> (#[trigger] rest[i]).source != source || rest[i].project
                            != project || rest[i].toolchain != id;
                assert(facts[at] == rest[at]);
                assert forall|i: int| 0 <= i < at implies (#[trigger] facts[i]).source != source
                    || facts[i].project != project || facts[i].toolchain != id by {
                    assert(rest[i] == facts[i]);
                }
            },
            None => {
                assert forall|i: int| 0 <= i < last implies (#[trigger] facts[i]).source != source
                    || facts[i].project != project || facts[i].toolchain != id by {
                    assert(rest[i] == facts[i]);
                }
                if facts_of(facts, source, project, id) is Some {
                    assert(facts[last] == facts.last());
                }
            },
        }
    }
}

/// A task is ready exactly where it is one of the graph and could be expanded, and then it is
/// as it was configured.
pub proof fn tasks_are_ready_where_they_are_known(scene: SceneView, key: TaskKeyView)
    ensures
        ready_task(scene, key) is Ok <==> scene.tasks.nodes.dom().contains(key)
            && !scene.unready.dom().contains(key),
        ready_task(scene, key) matches Ok(task) ==> task == scene.tasks.nodes[key].task,
        scene.tasks.nodes.dom().contains(key) && scene.unready.dom().contains(key) ==> ready_task(
            scene,
            key,
        ) == Err::<TaskView, ActionGraphFault>(
            ActionGraphFault::Expansion { reason: scene.unready[key] },
        ),
{
}

/// A run takes its task as it is configured, with the arguments and the environment of the
/// call, and is interactive where the task or the whole run is.
pub proof fn runs_take_their_task_as_it_is(
    task: TaskView,
    key: TaskKeyView,
    reqs: RunRequirements,
    call: CallView,
)
    ensures
        ({
            let run = run_node(task, key, reqs, call)->RunTask_0;
            &&& run_node(task, key, reqs, call) is RunTask
            &&& run.key == key
            &&& run.target == task.target
            &&& run.args == call.args
            &&& forall|entry| run.env.contains(entry) <==> #[trigger] call.env.contains(entry)
            &&& run.persistent == task.options.persistent
            &&& run.priority == task.options.priority
            &&& run.interactive <==> task.options.interactive || reqs.interactive
            &&& run.numbered
        }),
{
    let run = run_node(task, key, reqs, call)->RunTask_0;
    assert forall|entry| run.env.contains(entry) <==> #[trigger] call.env.contains(entry) by {
        assert(call.env.to_set().contains(entry) <==> call.env.contains(entry));
    }
}

/// What is affected counts in a run where something needs to be checked, by itself only where
/// it has a cause of its own.
pub proof fn marks_are_what_is_affected(
    affected: AffectedView,
    project: ProjectKeyView,
    task: TaskKeyView,
)
    ensures
        ({
            let marks = marks_of(affected);
            &&& marks.projects.contains(project) <==> affected.should_check
                && affected.projects.dom().contains(project)
            &&& marks.tasks.contains(task) <==> affected.should_check
                && affected.tasks.dom().contains(task)
            &&& marks.projects_alone.contains(project) <==> marks.projects.contains(project)
                && affected.projects[project].causes != (ProjectCausesView {
                files: Set::empty(),
                tasks: Set::empty(),
                other: false,
            })
            &&& marks.tasks_alone.contains(task) <==> marks.tasks.contains(task)
                && affected.tasks[task].causes != (TaskCausesView {
                env: Set::empty(),
                files: Set::empty(),
                other: false,
            })
        }),
{
}

/// A plan that shares out the tasks gives a job the targets that it lists for it, and is
/// refused where the job is not said, is not there, or where it knows of another number of
/// jobs. Any other plan gives what it lists.
pub proof fn plans_give_what_they_list(block: TargetsBlock, reqs: RunRequirements)
    ensures
        match block {
            TargetsBlock::Partitioned { jobs } => match (reqs.job, reqs.job_total) {
                (Some(index), Some(total)) => {
                    &&& total == 0 ==> chosen_targets(block, reqs) is Err
                    &&& total > 0 && index >= total ==> chosen_targets(block, reqs) == Err::<
                        ChosenView,
                        ActionGraphFault,
                    >(ActionGraphFault::InvalidJobIndex { index, total })
                    &&& index < total && jobs@.len() != total ==> chosen_targets(block, reqs)
                        == Err::<ChosenView, ActionGraphFault>(
                        ActionGraphFault::MismatchedPlanJobTotals {
                            plan_total: jobs@.len() as usize,
                            total,
                        },
                    )
                    &&& index < total && jobs@.len() == total ==> {
                        let chosen = chosen_targets(block, reqs)->Ok_0;
                        &&& chosen_targets(block, reqs) is Ok
                        &&& chosen.locators == views(jobs@[index as int]@)
                        &&& chosen.size == Some(jobs@[index as int]@.len() as usize)
                        &&& chosen.reqs.job is None && chosen.reqs.job_total is None
                        &&& chosen.reqs == (RunRequirements {
                            job: chosen.reqs.job,
                            job_total: chosen.reqs.job_total,
                            ..reqs
                        })
                    }
                },
                _ => chosen_targets(block, reqs) == Err::<ChosenView, ActionGraphFault>(
                    ActionGraphFault::InvalidPlanJobs,
                ),
            },
            TargetsBlock::Filtered { included } => chosen_targets(block, reqs) == Ok::<
                ChosenView,
                ActionGraphFault,
            >(ChosenView { locators: views(included@), reqs, size: None }),
            TargetsBlock::Included(targets) => chosen_targets(block, reqs) == Ok::<
                ChosenView,
                ActionGraphFault,
            >(ChosenView { locators: views(targets@), reqs, size: None }),
        },
{
}

/// A run that asks for nothing else runs what is affected by itself with all that it depends
/// on, and nothing that depends on it; it is not interactive and no part of several jobs.
pub proof fn plain_runs_follow_dependencies_alone(ci: bool)
    ensures
        ({
            let reqs = RunRequirements::defaults(ci);
            &&& reqs.ci == ci
            &&& !reqs.ci_check && !reqs.interactive && !reqs.include_relations
                && !reqs.skip_affected
            &&& reqs.dependencies is Deep
            &&& reqs.dependents is Nothing
            &&& reqs.job is None && reqs.job_total is None
        }),
{
}

/// A task that configures nothing may run everywhere and be asked for, ends by itself, must not
/// fail, and runs what it depends on in parallel.
pub proof fn plain_tasks_run_everywhere(ci: bool)
    ensures
        ({
            let options = TaskOptions::defaults();
            &&& crate::task::runs_in(options, ci)
            &&& !options.allow_failure && !options.persistent && !options.interactive
                && !options.internal
            &&& options.run_deps_in_parallel
            &&& options.priority == 2
        }),
{
}

/// A run of all kinds of actions has every kind for everything, and one of none has none.
pub proof fn all_actions_or_none(on: bool, id: Seq<char>)
    ensures
        ({
            let options = all_options(on);
            &&& is_on(options.install_dependencies, id) <==> on
            &&& is_on(options.setup_environment, id) <==> on
            &&& is_on(options.setup_toolchains, id) <==> on
            &&& is_on(options.sync_projects, id) <==> on
            &&& options.sync_project_dependencies <==> on
            &&& options.sync_workspace <==> on
        }),
{
}

} // verus!
