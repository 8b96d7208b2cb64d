//! What targets and locators mean.

use crate::action_context::{inherits_args, LocatorView};
use crate::action_scene::{ready_task, SceneView};
use crate::action_state::ActionGraphFault;
use crate::action_targets::{
    all_locator_tasks, keys_of_source, locator_tasks, selected_tasks, tagged_among, target_projects,
    target_tasks, task_in_project, tasks_of_project, tasks_of_projects, without_internal,
    AnswerView,
};
use crate::config::key_of_project;
use crate::keys::{ProjectKeyView, TaskKeyView};
use crate::project_graph::{get_project, ProjectGraphView};
use crate::task::{
    runs_in, ProjectSelector, TargetView,
    TaskOptionRunInCI, TaskOptions, TaskSelector,
};
use crate::task_graph::TaskGraphView;
use vstd::prelude::*;

verus! {

/// A task that may only be run for another.
pub open spec fn is_internal(graph: TaskGraphView, key: TaskKeyView) -> bool {
    graph.nodes[key].task.options.internal
}

/// A task of a project is selected: by its identifier, or by a tag that it has.
pub open spec fn is_selected(
    scene: SceneView,
    project: ProjectKeyView,
    selector: TaskSelector,
    key: TaskKeyView,
) -> bool {
    &&& key.project == project
    &&& ready_task(scene, key) is Ok
    &&& match selector {
        TaskSelector::Id(id) => key.task == id,
        TaskSelector::Tag(tag) => scene.tasks.indexes.contains(key) && ready_task(
            scene,
            key,
        )->Ok_0.tags.contains(tag),
    }
}

/// Leaving out internal tasks keeps exactly the others, and fails exactly where there is one
/// among the tasks of a project that was named.
pub proof fn internal_tasks_are_left_out(
    graph: TaskGraphView,
    keys: Seq<TaskKeyView>,
    allow_internal: bool,
    named: bool,
)
    ensures
        match without_internal(graph, keys, allow_internal, named) {
            Ok(kept) => {
                &&& forall|key: TaskKeyView| #[trigger]
                    kept.contains(key) <==> keys.contains(key) && (allow_internal || !is_internal(
                        graph,
                        key,
                    ))
                &&& named && !allow_internal ==> forall|key: TaskKeyView| #[trigger]
                    keys.contains(key) ==> !is_internal(graph, key)
            },
            Err(_) => named && !allow_internal && exists|key: TaskKeyView| #[trigger]
                keys.contains(key) && is_internal(graph, key),
        },
    decreases keys.len(),
{
    if keys.len() > 0 {
        let rest = keys.drop_last();
        internal_tasks_are_left_out(graph, rest, allow_internal, named);
        assert(keys =~= rest.push(keys.last()));
        assert forall|key: TaskKeyView| #[trigger] keys.contains(key) <==> rest.contains(key)
            || key == keys.last() by {
            contains_pushed(rest, keys.last(), key);
        }
        match without_internal(graph, rest, allow_internal, named) {
            Ok(kept) => {
                assert forall|key: TaskKeyView| #[trigger]
                    kept.push(keys.last()).contains(key) <==> kept.contains(key) || key
                    == keys.last() by {
                    contains_pushed(kept, keys.last(), key);
                }
                if without_internal(graph, keys, allow_internal, named) is Err {
                    assert(keys.contains(keys.last()));
                }
            },
            Err(_) => {
                let key = choose|key: TaskKeyView| #[trigger]
                    rest.contains(key) && is_internal(graph, key);
                assert(keys.contains(key));
            },
        }
    }
}

proof fn contains_pushed<A>(items: Seq<A>, item: A, other: A)
    ensures
        items.push(item).contains(other) <==> items.contains(other) || other == item,
{
    let more = items.push(item);
    if items.contains(other) {
        let i = choose|i: int| 0 <= i < items.len() && items[i] == other;
        assert(more[i] == other);
    }
    if other == item {
        assert(more[items.len() as int] == other);
    }
    if more.contains(other) && other != item {
        let i = choose|i: int| 0 <= i < more.len() && more[i] == other;
        assert(items[i] == other);
    }
}

proof fn contains_joined<A>(items: Seq<A>, others: Seq<A>, item: A)
    ensures
        (items + others).contains(item) <==> items.contains(item) || others.contains(item),
{
    let all = items + others;
    if items.contains(item) {
        let i = choose|i: int| 0 <= i < items.len() && items[i] == item;
        assert(all[i] == item);
    }
    if others.contains(item) {
        let i = choose|i: int| 0 <= i < others.len() && others[i] == item;
        assert(all[items.len() + i] == item);
    }
    if all.contains(item) {
        let i = choose|i: int| 0 <= i < all.len() && all[i] == item;
        if i < items.len() {
            assert(items[i] == item);
        } else {
            assert(others[i - items.len()] == item);
        }
    }
}

proof fn tagged_are_selected(
    scene: SceneView,
    keys: Seq<TaskKeyView>,
    project: ProjectKeyView,
    tag: Seq<char>,
)
    ensures
        match tagged_among(scene, keys, project, tag) {
            Ok(found) => {
                &&& forall|key: TaskKeyView| #[trigger]
                    found.contains(key) <==> keys.contains(key) && key.project == project
                        && ready_task(scene, key) is Ok && ready_task(
                        scene,
                        key,
                    )->Ok_0.tags.contains(tag)
                &&& forall|key: TaskKeyView| #[trigger]
                    keys.contains(key) && key.project == project ==> ready_task(scene, key) is Ok
            },
            Err(_) => exists|key: TaskKeyView| #[trigger]
                keys.contains(key) && key.project == project && ready_task(scene, key) is Err,
        },
    decreases keys.len(),
{
    if keys.len() > 0 {
        let rest = keys.drop_last();
        tagged_are_selected(scene, rest, project, tag);
        assert(keys =~= rest.push(keys.last()));
        assert forall|key: TaskKeyView| #[trigger] keys.contains(key) <==> rest.contains(key)
            || key == keys.last() by {
            contains_pushed(rest, keys.last(), key);
        }
        match tagged_among(scene, rest, project, tag) {
            Ok(found) => {
                assert forall|key: TaskKeyView| #[trigger]
                    found.push(keys.last()).contains(key) <==> found.contains(key) || key
                    == keys.last() by {
                    contains_pushed(found, keys.last(), key);
                }
                if tagged_among(scene, keys, project, tag) is Err {
                    assert(keys.contains(keys.last()));
                }
            },
            Err(_) => {
                let key = choose|key: TaskKeyView| #[trigger]
                    rest.contains(key) && key.project == project && ready_task(scene, key) is Err;
                assert(keys.contains(key));
            },
        }
    }
}

/// The tasks of a project that a target means are exactly those that it selects and that may
/// be run from outside.
pub proof fn tasks_of_projects_are_those_selected(
    scene: SceneView,
    project: ProjectKeyView,
    selector: TaskSelector,
    allow_internal: bool,
    named: bool,
)
    ensures
        tasks_of_project(scene, project, selector, allow_internal, named) matches Ok(found)
            ==> forall|key: TaskKeyView| #[trigger]
            found.contains(key) <==> is_selected(scene, project, selector, key) && (allow_internal
                || !is_internal(scene.tasks, key)),
{
    match selected_tasks(scene, project, selector, named) {
        Ok(found) => {
            internal_tasks_are_left_out(scene.tasks, found, allow_internal, named);
            match selector {
                TaskSelector::Id(task) => {
                    let only = TaskKeyView { project, task };
                    assert forall|key: TaskKeyView| #[trigger] found.contains(key) <==> is_selected(
                        scene,
                        project,
                        selector,
                        key,
                    ) by {
                        if is_selected(scene, project, selector, key) {
                            assert(key == only);
                            assert(found[0] == key);
                        }
                    }
                },
                TaskSelector::Tag(tag) => {
                    tagged_are_selected(scene, scene.tasks.indexes, project, tag);
                },
            }
        },
        Err(_) => {},
    }
}

proof fn tasks_of_all_are_those_selected(
    scene: SceneView,
    projects: Seq<ProjectKeyView>,
    selector: TaskSelector,
    allow_internal: bool,
    named: bool,
)
    ensures
        tasks_of_projects(scene, projects, selector, allow_internal, named) matches Ok(found)
            ==> forall|key: TaskKeyView| #[trigger]
            found.contains(key) <==> projects.contains(key.project) && is_selected(
                scene,
                key.project,
                selector,
                key,
            ) && (allow_internal || !is_internal(scene.tasks, key)),
    decreases projects.len(),
{
    if projects.len() > 0 {
        let rest = projects.drop_last();
        tasks_of_all_are_those_selected(scene, rest, selector, allow_internal, named);
        let last = projects.last();
        assert(projects =~= rest.push(last));
        tasks_of_projects_are_those_selected(scene, last, selector, allow_internal, named);
        if let Ok(all) = tasks_of_projects(scene, projects, selector, allow_internal, named) {
            let before = tasks_of_projects(scene, rest, selector, allow_internal, named)->Ok_0;
            let found = tasks_of_project(scene, last, selector, allow_internal, named)->Ok_0;
            assert forall|key: TaskKeyView| #[trigger] all.contains(key) <==> projects.contains(
                key.project,
            ) && is_selected(scene, key.project, selector, key) && (allow_internal
                || !is_internal(scene.tasks, key)) by {
                contains_joined(before, found, key);
                contains_pushed(rest, last, key.project);
                assert(before.contains(key) <==> rest.contains(key.project) && is_selected(
                    scene,
                    key.project,
                    selector,
                    key,
                ) && (allow_internal || !is_internal(scene.tasks, key)));
                assert(found.contains(key) <==> is_selected(scene, last, selector, key) && (
                allow_internal || !is_internal(scene.tasks, key)));
            }
        }
    }
}

/// A project is among those whose tasks a target means: any of the primary source root, or any
/// that the query of the run found; the one that is named; or any that has the tag.
pub open spec fn is_meant(
    graph: ProjectGraphView,
    target: TargetView,
    answer: AnswerView,
    key: ProjectKeyView,
) -> bool {
    match target.project {
        ProjectSelector::All => match answer.all {
            Some(keys) => keys.contains(key),
            None => graph.indexes.contains(key) && key.source == graph.context.registry.primary,
        },
        ProjectSelector::Id(id) => get_project(graph, id) matches Ok(project) && key
            == key_of_project(project),
        ProjectSelector::Tag(_) => answer.projects.contains(key),
        _ => false,
    }
}

proof fn sources_are_kept(keys: Seq<ProjectKeyView>, source: Seq<char>)
    ensures
        forall|key: ProjectKeyView| #[trigger]
            keys_of_source(keys, source).contains(key) <==> keys.contains(key) && key.source
                == source,
    decreases keys.len(),
{
    if keys.len() > 0 {
        let rest = keys.drop_last();
        sources_are_kept(rest, source);
        assert(keys =~= rest.push(keys.last()));
        let kept = keys_of_source(rest, source);
        assert forall|key: ProjectKeyView| #[trigger]
            keys_of_source(keys, source).contains(key) <==> keys.contains(key) && key.source
            == source by {
            contains_pushed(rest, keys.last(), key);
            contains_pushed(kept, keys.last(), key);
            assert(kept.contains(key) <==> rest.contains(key) && key.source == source);
        }
    }
}

/// A target means exactly the tasks that it selects in the projects that it means, without
/// internal ones.
pub proof fn targets_mean_what_they_select(
    scene: SceneView,
    target: TargetView,
    answer: AnswerView,
)
    ensures
        target_tasks(scene, target, answer) matches Ok(found) ==> forall|key: TaskKeyView|
            #[trigger] found.contains(key) <==> is_meant(
                scene.projects,
                target,
                answer,
                key.project,
            ) && is_selected(scene, key.project, target.task, key) && !is_internal(
                scene.tasks,
                key,
            ),
{
    if let Ok(projects) = target_projects(scene.projects, target, answer) {
        tasks_of_all_are_those_selected(scene, projects, target.task, false, target.project is Id);
        sources_are_kept(scene.projects.indexes, scene.projects.context.registry.primary);
        assert forall|key: ProjectKeyView| #[trigger] projects.contains(key) <==> is_meant(
            scene.projects,
            target,
            answer,
            key,
        ) by {
            if target.project is Id && is_meant(scene.projects, target, answer, key) {
                assert(projects[0] == key);
            }
        }
        if let Ok(found) = target_tasks(scene, target, answer) {
            assert forall|key: TaskKeyView| #[trigger] found.contains(key) <==> is_meant(
                scene.projects,
                target,
                answer,
                key.project,
            ) && is_selected(scene, key.project, target.task, key) && !is_internal(
                scene.tasks,
                key,
            ) by {
                assert(projects.contains(key.project) <==> is_meant(
                    scene.projects,
                    target,
                    answer,
                    key.project,
                ));
            }
        }
    }
}

/// A target that needs a project around it means nothing in a run, and a task of a project that
/// is named must be there and must not be internal.
pub proof fn targets_are_refused_for_a_reason(
    scene: SceneView,
    target: TargetView,
    answer: AnswerView,
)
    ensures
        target.project is Deps || target.project is DepsOf ==> target_tasks(scene, target, answer)
            == Err::<Seq<TaskKeyView>, ActionGraphFault>(ActionGraphFault::NoDepsInRunContext),
        target.project is OwnSelf ==> target_tasks(scene, target, answer) == Err::<
            Seq<TaskKeyView>,
            ActionGraphFault,
        >(ActionGraphFault::NoSelfInRunContext),
        match (target.project, target.task) {
            (ProjectSelector::Id(id), TaskSelector::Id(task)) => match get_project(
                scene.projects,
                id,
            ) {
                Err(fault) => target_tasks(scene, target, answer) == Err::<
                    Seq<TaskKeyView>,
                    ActionGraphFault,
                >(ActionGraphFault::Project(fault)),
                Ok(project) => {
                    let key = TaskKeyView { project: key_of_project(project), task };
                    target_tasks(scene, target, answer) is Ok <==> ready_task(scene, key) is Ok
                        && !is_internal(scene.tasks, key)
                },
            },
            (ProjectSelector::All, TaskSelector::Id(_)) => target_tasks(
                scene,
                target,
                answer,
            ) is Ok,
            (ProjectSelector::Tag(_), TaskSelector::Id(_)) => target_tasks(
                scene,
                target,
                answer,
            ) is Ok,
            _ => true,
        },
{
    match (target.project, target.task) {
        (ProjectSelector::Id(id), TaskSelector::Id(task)) => {
            if let Ok(project) = get_project(scene.projects, id) {
                let owner = key_of_project(project);
                let key = TaskKeyView { project: owner, task };
                let projects = target_projects(scene.projects, target, answer)->Ok_0;
                assert(projects =~= seq![owner]);
                assert(projects.drop_last() =~= Seq::empty());
                assert(projects.last() == owner);
                reveal_with_fuel(tasks_of_projects, 2);
                if let Ok(found) = selected_tasks(scene, owner, target.task, true) {
                    internal_tasks_are_left_out(scene.tasks, found, false, true);
                    assert(found =~= seq![key]);
                    assert(found[0] == key);
                    assert(found.contains(key));
                }
            }
        },
        (_, TaskSelector::Id(task)) => {
            if let Ok(projects) = target_projects(scene.projects, target, answer) {
                all_projects_may_lack_a_task(scene, projects, task);
            }
        },
        _ => {},
    }
}

proof fn all_projects_may_lack_a_task(
    scene: SceneView,
    projects: Seq<ProjectKeyView>,
    task: Seq<char>,
)
    ensures
        tasks_of_projects(scene, projects, TaskSelector::Id(task), false, false) is Ok,
    decreases projects.len(),
{
    if projects.len() > 0 {
        all_projects_may_lack_a_task(scene, projects.drop_last(), task);
        let found = selected_tasks(scene, projects.last(), TaskSelector::Id(task), false)->Ok_0;
        internal_tasks_are_left_out(scene.tasks, found, false, false);
    }
}

/// No locator leads to the run of an internal task.
pub proof fn internal_tasks_cannot_be_asked_for(
    scene: SceneView,
    locators: Seq<LocatorView>,
    answers: Seq<AnswerView>,
)
    requires
        locators.len() == answers.len(),
    ensures
        all_locator_tasks(scene, locators, answers) matches Ok(found) ==> forall|key: TaskKeyView|
            #[trigger] found.contains(key) ==> !is_internal(scene.tasks, key),
    decreases locators.len(),
{
    if locators.len() > 0 {
        internal_tasks_cannot_be_asked_for(scene, locators.drop_last(), answers.drop_last());
        a_locator_leads_to_no_internal_task(scene, locators.last(), answers.last());
        if let Ok(found) = all_locator_tasks(scene, locators, answers) {
            let before = all_locator_tasks(scene, locators.drop_last(), answers.drop_last())->Ok_0;
            let last = locator_tasks(scene, locators.last(), answers.last())->Ok_0;
            assert forall|key: TaskKeyView| #[trigger] found.contains(key) implies !is_internal(
                scene.tasks,
                key,
            ) by {
                contains_joined(before, last, key);
            }
        }
    }
}

proof fn a_locator_leads_to_no_internal_task(
    scene: SceneView,
    locator: LocatorView,
    answer: AnswerView,
)
    ensures
        locator_tasks(scene, locator, answer) matches Ok(found) ==> forall|key: TaskKeyView|
            #[trigger] found.contains(key) ==> !is_internal(scene.tasks, key),
{
    internal_tasks_are_left_out(scene.tasks, answer.tasks, false, false);
    assert forall|target: TargetView| #![trigger target_tasks(scene, target, answer)]
        target_tasks(scene, target, answer) matches Ok(found) ==> forall|key: TaskKeyView|
            #[trigger] found.contains(key) ==> !is_internal(scene.tasks, key) by {
        targets_mean_what_they_select(scene, target, answer);
    }
}

/// A qualified locator means what its target means, and one of several locators means as much
/// in all of them.
pub proof fn locators_mean_their_targets(
    scene: SceneView,
    target: TargetView,
    answer: AnswerView,
    locators: Seq<LocatorView>,
    answers: Seq<AnswerView>,
)
    requires
        locators.len() == answers.len(),
    ensures
        !(target.project is OwnSelf) ==> locator_tasks(
            scene,
            LocatorView::Qualified(target),
            answer,
        ) == target_tasks(scene, target, answer),
        all_locator_tasks(scene, locators, answers) matches Ok(found) ==> forall|i: int|
            0 <= i < locators.len() ==> {
                let one = #[trigger] locator_tasks(scene, locators[i], answers[i]);
                &&& one is Ok
                &&& forall|key: TaskKeyView| #[trigger]
                    one->Ok_0.contains(key) ==> found.contains(key)
            },
    decreases locators.len(),
{
    if locators.len() > 0 {
        let last = locators.len() - 1;
        locators_mean_their_targets(
            scene,
            target,
            answer,
            locators.drop_last(),
            answers.drop_last(),
        );
        if let Ok(found) = all_locator_tasks(scene, locators, answers) {
            let before = all_locator_tasks(scene, locators.drop_last(), answers.drop_last())->Ok_0;
            let added = locator_tasks(scene, locators.last(), answers.last())->Ok_0;
            assert forall|i: int| 0 <= i < locators.len() implies {
                let one = #[trigger] locator_tasks(scene, locators[i], answers[i]);
                &&& one is Ok
                &&& forall|key: TaskKeyView| #[trigger]
                    one->Ok_0.contains(key) ==> found.contains(key)
            } by {
                let one = locator_tasks(scene, locators[i], answers[i]);
                if i < last {
                    assert(locators.drop_last()[i] == locators[i]);
                    assert(answers.drop_last()[i] == answers[i]);
                }
                assert(one is Ok);
                assert forall|key: TaskKeyView| #[trigger]
                    one->Ok_0.contains(key) implies found.contains(key) by {
                    contains_joined(before, added, key);
                }
            }
        }
    }
}

/// The task of the default project, and that of the project around the caller, mean the same
/// as if the project was named.
pub proof fn short_locators_name_their_project(
    scene: SceneView,
    task: Seq<char>,
    answer: AnswerView,
)
    ensures
        match scene.projects.default_key {
            Some(key) => get_project(scene.projects, key.project) matches Ok(project)
                ==> locator_tasks(scene, LocatorView::DefaultProject(task), answer)
                == task_in_project(scene, project.id, task, answer),
            None => locator_tasks(scene, LocatorView::DefaultProject(task), answer) == Err::<
                Seq<TaskKeyView>,
                ActionGraphFault,
            >(ActionGraphFault::NoDefaultProjectForTask { task_id: task }),
        },
        ({
            let own = LocatorView::Qualified(
                TargetView { project: ProjectSelector::OwnSelf, task: TaskSelector::Id(task) },
            );
            if answer.projects.len() == 0 {
                locator_tasks(scene, own, answer) == Err::<Seq<TaskKeyView>, ActionGraphFault>(
                    ActionGraphFault::NoProjectAtPath,
                )
            } else {
                locator_tasks(scene, own, answer) == task_in_project(
                    scene,
                    answer.projects[0].project,
                    task,
                    answer,
                )
            }
        }),
{
}

/// Patterns select among what was found, and none without a project.
pub proof fn patterns_select_what_was_found(
    scene: SceneView,
    project: Option<ProjectSelector>,
    project_glob: Option<Seq<char>>,
    task_glob: Seq<char>,
    answer: AnswerView,
)
    ensures
        ({
            let found = locator_tasks(
                scene,
                LocatorView::GlobMatch { project, project_glob, task_glob },
                answer,
            );
            &&& found is Ok
            &&& forall|key: TaskKeyView| #[trigger]
                found->Ok_0.contains(key) <==> answer.tasks.contains(key) && !is_internal(
                    scene.tasks,
                    key,
                ) && (project_glob is Some ==> answer.projects.len() > 0) && (project_glob is None
                    ==> project == Some(ProjectSelector::All))
        }),
{
    internal_tasks_are_left_out(scene.tasks, answer.tasks, false, false);
}

/// On CI a task runs unless it says that it is off or to be skipped there; elsewhere it runs
/// unless it says that it is for CI only.
pub proof fn tasks_say_where_they_run(options: TaskOptions)
    ensures
        !runs_in(options, true) <==> options.run_in_ci == TaskOptionRunInCI::Enabled(false)
            || options.run_in_ci is Skip,
        !runs_in(options, false) <==> options.run_in_ci is Only,
{
}

/// Arguments of a run reach the tasks that were asked for and no others.
pub proof fn arguments_reach_what_was_asked_for(
    args: nat,
    primary: Set<TaskKeyView>,
    initial: Seq<LocatorView>,
    key: TaskKeyView,
    target: TargetView,
)
    ensures
        args == 0 ==> !inherits_args(args, primary, initial, key, target),
        args > 0 && primary.contains(key) ==> inherits_args(args, primary, initial, key, target),
        args > 0 ==> forall|i: int|
            0 <= i < initial.len() && (#[trigger] initial[i]) == LocatorView::Qualified(
                TargetView { project: ProjectSelector::All, task: target.task },
            ) && target.task is Id ==> inherits_args(args, primary, initial, key, target),
        inherits_args(args, primary, initial, key, target) && !primary.contains(key) ==> exists|
            i: int,
        |
            0 <= i < initial.len() && #[trigger] initial[i] == LocatorView::Qualified(
                TargetView { project: ProjectSelector::All, task: target.task },
            ),
{
    if args > 0 {
        assert forall|i: int|
            0 <= i < initial.len() && (#[trigger] initial[i]) == LocatorView::Qualified(
                TargetView { project: ProjectSelector::All, task: target.task },
            ) && target.task is Id implies inherits_args(
            args,
            primary,
            initial,
            key,
            target,
        ) by {
            assert(crate::action_context::asks_all(initial[i], target.task->Id_0));
        }
    }
    if inherits_args(args, primary, initial, key, target) && !primary.contains(key) {
        let i = choose|i: int|
            0 <= i < initial.len() && crate::action_context::asks_all(
                #[trigger] initial[i],
                target.task->Id_0,
            );
        assert(initial[i] == LocatorView::Qualified(
            TargetView { project: ProjectSelector::All, task: target.task },
        ));
    }
}

} // verus!
