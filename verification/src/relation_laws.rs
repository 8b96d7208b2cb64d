//! What holds of everything that changed files affect, and of what is related to it.

use crate::affected::{has_link, is_related, relate_all, RelationScope};
use crate::affected_tracker::{
    affected_so_far, belongs_to, cause_project, cause_task, complete_observations, first_where,
    fresh_tracker, has_changes, is_set, project_cause, projects_linked, task_cause, tasks_linked,
    touches, track_project, track_task, InputsView, Observations, ProjectCause, ProjectCauses,
    ProjectStates, TaskCause, TaskCauses, TaskStates, TrackerView,
};
use crate::changed_files::{source_path_less, source_paths_rank, ImpactCompleteness};
use crate::fold::fold;
use crate::graph::{
    connected, connected_reflexive, connected_transitive, edge_connects, edges_within, has_edge, walk,
    Direction,
};
use crate::keys::{ProjectKey, ProjectKeyView, TaskKey, TaskKeyView};
use crate::order::{arranged, arranged_holds};
use crate::path::relative_components;
use crate::project_compose::{keys_in_order, project_keys_rank};
use crate::project_graph::ProjectGraphView;
use crate::source::{SourcePathBuf, SourcePathView};
use crate::task::{TaskOptionRunInCI, TaskView};
use crate::task_compose::task_keys_rank;
use crate::task_graph::TaskGraphView;
use crate::walks::walk_ends_with;
use vstd::prelude::*;

verus! {

/// Finitely many files changed in every source root.
pub open spec fn observations_are_finite(observations: Observations) -> bool {
    forall|id: Seq<char>| #[trigger]
        observations.dom().contains(id) ==> observations[id].files.dom().finite()
}

/// A changed file lies in a project: anywhere that is not hidden where the project is the
/// source root itself, and otherwise at the path of the project or below it.
pub open spec fn lies_in_project(source: Seq<char>, path: Seq<char>) -> bool {
    if source == Seq::<char>::empty() || source == "."@ {
        path.len() == 0 || path[0] != '.'
    } else {
        let outer = relative_components(source);
        let inner = relative_components(path);
        outer.len() <= inner.len() && forall|i: int|
            0 <= i < outer.len() ==> #[trigger] outer[i] == inner[i]
    }
}

/// A project changed itself: the changes of its source root are not known, or one lies in it.
pub open spec fn project_is_touched(tracker: TrackerView, key: ProjectKeyView) -> bool {
    &&& tracker.projects.nodes.dom().contains(key)
    &&& tracker.observations.dom().contains(key.source)
    &&& {
        ||| tracker.observations[key.source].completeness == ImpactCompleteness::Unavailable
        ||| exists|file: SourcePathView| #[trigger]
            tracker.observations[key.source].files.dom().contains(file) && lies_in_project(
                tracker.projects.nodes[key].project.source,
                file.path,
            )
    }
}

/// A task is looked at: it has inputs, and it may run where the run is.
pub open spec fn may_be_touched(task: TaskView, ci: bool) -> bool {
    !task.empty_inputs && match task.options.run_in_ci {
        TaskOptionRunInCI::Enabled(enabled) => enabled || !ci,
        TaskOptionRunInCI::Skip => !ci,
        TaskOptionRunInCI::Only => ci,
        TaskOptionRunInCI::Always => true,
        TaskOptionRunInCI::Affected => true,
    }
}

/// A file is an input of a task: it is listed, and its content matches where it has to, or it
/// is not listed and a pattern matches it.
pub open spec fn is_input(inputs: InputsView, key: TaskKeyView, path: Seq<char>) -> bool {
    if inputs.listed.dom().contains(key) && inputs.listed[key].dom().contains(path) {
        inputs.listed[key][path] != Some(false)
    } else {
        inputs.matched.dom().contains(key) && inputs.matched[key].contains(path)
    }
}

/// A task changed itself: the changes of its source root are not known, it always runs where
/// the run is, or it is looked at and one of its variables or files is there.
pub open spec fn task_is_touched(
    tracker: TrackerView,
    inputs: InputsView,
    key: TaskKeyView,
) -> bool {
    let task = tracker.tasks.nodes[key].task;
    let known = tracker.observations[key.project.source];
    &&& tracker.tasks.nodes.dom().contains(key)
    &&& tracker.observations.dom().contains(key.project.source)
    &&& {
        ||| known.completeness == ImpactCompleteness::Unavailable
        ||| tracker.ci && task.options.run_in_ci == TaskOptionRunInCI::Always
        ||| may_be_touched(task, tracker.ci) && {
            ||| exists|name: Seq<char>| #[trigger]
                task.input_env.contains(name) && inputs.env.contains(name)
            ||| exists|file: SourcePathView| #[trigger]
                known.files.dom().contains(file) && is_input(inputs, key, file.path)
        }
    }
}

/// The first item with a property is one, none before it has the property, and there is one
/// where any item has it.
proof fn first_is_first<T>(items: Seq<T>, holds: spec_fn(T) -> bool)
    ensures
        match first_where(items, holds) {
            Some(item) => holds(item) && exists|i: int|
                0 <= i < items.len() && #[trigger] items[i] == item && forall|j: int|
                    0 <= j < i ==> !holds(#[trigger] items[j]),
            None => forall|i: int| 0 <= i < items.len() ==> !holds(#[trigger] items[i]),
        },
    decreases items.len(),
{
    if items.len() > 0 {
        let rest = items.skip(1);
        first_is_first(rest, holds);
        if holds(items[0]) {
            assert(items[0] == items[0]);
        } else {
            match first_where(rest, holds) {
                Some(item) => {
                    let i = choose|i: int|
                        0 <= i < rest.len() && #[trigger] rest[i] == item && forall|j: int|
                            0 <= j < i ==> !holds(#[trigger] rest[j]);
                    assert(items[i + 1] == item);
                    assert forall|j: int| 0 <= j < i + 1 implies !holds(#[trigger] items[j]) by {
                        if j > 0 {
                            assert(rest[j - 1] == items[j]);
                        }
                    }
                },
                None => {
                    assert forall|i: int| 0 <= i < items.len() implies !holds(
                        #[trigger] items[i],
                    ) by {
                        if i > 0 {
                            assert(rest[i - 1] == items[i]);
                        }
                    }
                },
            }
        }
    }
}

/// The first changed file with a property comes before all others that have it.
proof fn first_file_is_least<S>(files: Map<SourcePathView, S>, holds: spec_fn(SourcePathView) -> bool)
    requires
        files.dom().finite(),
    ensures
        match crate::affected_tracker::first_file(files, holds) {
            Some(file) => {
                &&& files.dom().contains(file)
                &&& holds(file)
                &&& forall|other: SourcePathView| #[trigger]
                    files.dom().contains(other) && holds(other) ==> !source_path_less(other, file)
            },
            None => forall|file: SourcePathView| #[trigger]
                files.dom().contains(file) ==> !holds(file),
        },
{
    let list = arranged::<SourcePathBuf>(files.dom());
    source_paths_rank();
    arranged_holds::<SourcePathBuf>(files.dom());
    first_is_first(list, holds);
    match first_where(list, holds) {
        Some(file) => {
            let i = choose|i: int|
                0 <= i < list.len() && #[trigger] list[i] == file && forall|j: int|
                    0 <= j < i ==> !holds(#[trigger] list[j]);
            assert(list.contains(file));
            assert forall|other: SourcePathView| #[trigger]
                files.dom().contains(other) && holds(other) implies !source_path_less(
                other,
                file,
            ) by {
                assert(list.contains(other));
                let k = choose|k: int| 0 <= k < list.len() && list[k] == other;
                if k > i {
                    assert(!<SourcePathBuf as crate::order::Ranked>::before(list[k], list[i]));
                } else {
                    assert(k == i);
                    <SourcePathBuf as crate::order::Ranked>::before_irreflexive(file);
                }
            }
        },
        None => {
            assert forall|file: SourcePathView| #[trigger]
                files.dom().contains(file) implies !holds(file) by {
                assert(list.contains(file));
                let k = choose|k: int| 0 <= k < list.len() && list[k] == file;
                assert(!holds(list[k]));
            }
        },
    }
}

/// Why a project is affected by itself: because nothing is known, or because of the first
/// changed file that lies in it. There is a reason exactly where it changed itself.
pub proof fn a_touched_project_has_a_cause(tracker: TrackerView, key: ProjectKeyView)
    requires
        tracker.projects.nodes.dom().contains(key),
        observations_are_finite(tracker.observations),
    ensures
        ({
            let known = tracker.observations[key.source];
            let source = tracker.projects.nodes[key].project.source;
            match project_cause(tracker.projects, tracker.observations, key) {
                None => !project_is_touched(tracker, key),
                Some(ProjectCause::Unavailable) => project_is_touched(tracker, key)
                    && known.completeness == ImpactCompleteness::Unavailable,
                Some(ProjectCause::File(file)) => {
                    &&& project_is_touched(tracker, key)
                    &&& known.completeness != ImpactCompleteness::Unavailable
                    &&& known.files.dom().contains(file)
                    &&& lies_in_project(source, file.path)
                    &&& forall|other: SourcePathView| #[trigger]
                        known.files.dom().contains(other) && lies_in_project(source, other.path)
                            ==> !source_path_less(other, file)
                },
            }
        }),
{
    if tracker.observations.dom().contains(key.source) {
        let known = tracker.observations[key.source];
        let source = tracker.projects.nodes[key].project.source;
        let holds = belongs_to(source);
        first_file_is_least(known.files, holds);
        assert forall|file: SourcePathView| #[trigger] holds(file) == lies_in_project(
            source,
            file.path,
        ) by {
            if source.len() == 0 {
                assert(source =~= Seq::<char>::empty());
            }
            let outer = relative_components(source);
            let inner = relative_components(file.path);
            if outer.is_prefix_of(inner) {
                assert forall|i: int| 0 <= i < outer.len() implies #[trigger] outer[i]
                    == inner[i] by {
                    assert(outer =~= inner.subrange(0, outer.len() as int));
                }
            }
            if outer.len() <= inner.len() && (forall|i: int|
                0 <= i < outer.len() ==> #[trigger] outer[i] == inner[i]) {
                assert(outer =~= inner.subrange(0, outer.len() as int));
            }
        }
    }
}

/// Why a task is affected by itself: because nothing is known or it always runs, because of a
/// variable that it reads, or else because of the first changed file that is an input of it.
/// There is a reason exactly where it changed itself.
pub proof fn a_touched_task_has_a_cause(
    tracker: TrackerView,
    inputs: InputsView,
    key: TaskKeyView,
)
    requires
        tracker.tasks.nodes.dom().contains(key),
        observations_are_finite(tracker.observations),
    ensures
        ({
            let known = tracker.observations[key.project.source];
            let task = tracker.tasks.nodes[key].task;
            match task_cause(tracker.tasks, tracker.observations, tracker.ci, inputs, key) {
                None => !task_is_touched(tracker, inputs, key),
                Some(TaskCause::Unavailable) => {
                    &&& task_is_touched(tracker, inputs, key)
                    &&& {
                        ||| known.completeness == ImpactCompleteness::Unavailable
                        ||| tracker.ci && task.options.run_in_ci == TaskOptionRunInCI::Always
                    }
                },
                Some(TaskCause::Env(name)) => {
                    &&& task_is_touched(tracker, inputs, key)
                    &&& may_be_touched(task, tracker.ci)
                    &&& task.input_env.contains(name)
                    &&& inputs.env.contains(name)
                },
                Some(TaskCause::File(file)) => {
                    &&& task_is_touched(tracker, inputs, key)
                    &&& may_be_touched(task, tracker.ci)
                    &&& known.files.dom().contains(file)
                    &&& is_input(inputs, key, file.path)
                    &&& forall|name: Seq<char>| #[trigger]
                        task.input_env.contains(name) ==> !inputs.env.contains(name)
                    &&& forall|other: SourcePathView| #[trigger]
                        known.files.dom().contains(other) && is_input(inputs, key, other.path)
                            ==> !source_path_less(other, file)
                },
            }
        }),
{
    if tracker.observations.dom().contains(key.project.source) {
        let known = tracker.observations[key.project.source];
        let task = tracker.tasks.nodes[key].task;
        let set = is_set(inputs);
        let holds = touches(inputs, key);
        first_is_first(task.input_env, set);
        first_file_is_least(known.files, holds);
        assert forall|file: SourcePathView| #[trigger] holds(file) == is_input(
            inputs,
            key,
            file.path,
        ) by {}
        match first_where(task.input_env, set) {
            Some(name) => {
                let i = choose|i: int|
                    0 <= i < task.input_env.len() && #[trigger] task.input_env[i] == name
                        && forall|j: int| 0 <= j < i ==> !set(#[trigger] task.input_env[j]);
                assert(task.input_env.contains(name));
            },
            None => {
                assert forall|name: Seq<char>| #[trigger]
                    task.input_env.contains(name) implies !inputs.env.contains(name) by {
                    let i = choose|i: int| 0 <= i < task.input_env.len() && task.input_env[i] == name;
                    assert(!set(task.input_env[i]));
                }
            },
        }
    }
}

/// Every project has a number of its own, under which its key is listed, and every dependency
/// leads from a number to another.
pub open spec fn projects_are_numbered(graph: ProjectGraphView) -> bool {
    &&& graph.nodes.dom().finite()
    &&& forall|i: int|
        0 <= i < graph.indexes.len() ==> graph.nodes.dom().contains(#[trigger] graph.indexes[i])
            && graph.nodes[graph.indexes[i]].index == i
    &&& forall|key: ProjectKeyView| #[trigger]
        graph.nodes.dom().contains(key) ==> graph.nodes[key].index < graph.indexes.len()
            && graph.indexes[graph.nodes[key].index as int] == key
    &&& edges_within(graph.graph.edges, graph.indexes.len())
}

/// A project depends on another directly.
pub open spec fn project_needs(graph: ProjectGraphView, key: ProjectKeyView, other: ProjectKeyView) -> bool {
    &&& graph.nodes.dom().contains(key)
    &&& graph.nodes.dom().contains(other)
    &&& has_edge(graph.graph.edges, graph.nodes[key].index, graph.nodes[other].index)
}

/// A path of dependencies leads from a project to another. One leads from each to itself.
pub open spec fn project_leads_to(graph: ProjectGraphView, key: ProjectKeyView, other: ProjectKeyView) -> bool {
    &&& graph.nodes.dom().contains(key)
    &&& graph.nodes.dom().contains(other)
    &&& connected(graph.graph.edges, graph.nodes[key].index, graph.nodes[other].index)
}

/// A project is a dependent that hears of a changed one through a dependency of its own: the
/// changed one itself, or with a deep scope any from which a path leads to it.
pub open spec fn project_hears_below(
    graph: ProjectGraphView,
    scope: RelationScope,
    changed: ProjectKeyView,
    through: ProjectKeyView,
    key: ProjectKeyView,
) -> bool {
    project_needs(graph, key, through) && match scope {
        RelationScope::Nothing => false,
        RelationScope::Direct => through == changed,
        RelationScope::Deep => project_leads_to(graph, through, changed),
    }
}

/// A project is a dependency that hears of a changed one through a dependent of its own: the
/// changed one itself, or with a deep scope any to which a path leads from it.
pub open spec fn project_hears_above(
    graph: ProjectGraphView,
    scope: RelationScope,
    changed: ProjectKeyView,
    through: ProjectKeyView,
    key: ProjectKeyView,
) -> bool {
    project_needs(graph, through, key) && match scope {
        RelationScope::Nothing => false,
        RelationScope::Direct => through == changed,
        RelationScope::Deep => project_leads_to(graph, changed, through),
    }
}

proof fn projects_linked_below(
    graph: ProjectGraphView,
    scope: RelationScope,
    changed: ProjectKeyView,
    through: ProjectKeyView,
    key: ProjectKeyView,
)
    requires
        projects_are_numbered(graph),
        graph.nodes.dom().contains(changed),
    ensures
        projects_linked(graph, changed, Direction::Incoming, scope)(through, key)
            <==> project_hears_below(graph, scope, changed, through, key),
        projects_linked(graph, changed, Direction::Outgoing, scope)(through, key)
            <==> project_hears_above(graph, scope, changed, through, key),
{
    let edges = graph.graph.edges;
    let start = graph.nodes[changed].index;
    assert(graph.indexes[start as int] == changed);
    if graph.nodes.dom().contains(through) && graph.nodes.dom().contains(key) {
        let a = graph.nodes[through].index;
        let b = graph.nodes[key].index;
        assert(graph.indexes[a as int] == through && graph.indexes[b as int] == key);
        if project_hears_below(graph, scope, changed, through, key) {
            assert(is_related(edges, start, Direction::Incoming, scope, a, b));
        }
        if project_hears_above(graph, scope, changed, through, key) {
            assert(is_related(edges, start, Direction::Outgoing, scope, a, b));
        }
    }
    if projects_linked(graph, changed, Direction::Incoming, scope)(through, key) {
        let (a, b) = choose|a: usize, b: usize|
            a < graph.indexes.len() && b < graph.indexes.len() && #[trigger] is_related(
                edges,
                start,
                Direction::Incoming,
                scope,
                a,
                b,
            ) && graph.indexes[a as int] == through && graph.indexes[b as int] == key;
        assert(graph.nodes[graph.indexes[a as int]].index == a);
        assert(graph.nodes[graph.indexes[b as int]].index == b);
    }
    if projects_linked(graph, changed, Direction::Outgoing, scope)(through, key) {
        let (a, b) = choose|a: usize, b: usize|
            a < graph.indexes.len() && b < graph.indexes.len() && #[trigger] is_related(
                edges,
                start,
                Direction::Outgoing,
                scope,
                a,
                b,
            ) && graph.indexes[a as int] == through && graph.indexes[b as int] == key;
        assert(graph.nodes[graph.indexes[a as int]].index == a);
        assert(graph.nodes[graph.indexes[b as int]].index == b);
    }
}

/// A project hears, as a dependent, of a changed one among some through one of its dependencies.
pub open spec fn project_told_below(
    tracker: TrackerView,
    keys: Seq<ProjectKeyView>,
    through: ProjectKeyView,
    key: ProjectKeyView,
) -> bool {
    exists|changed: ProjectKeyView|
        keys.contains(changed) && #[trigger] project_is_touched(tracker, changed)
            && project_hears_below(
            tracker.projects,
            tracker.project_downstream,
            changed,
            through,
            key,
        )
}

/// A project hears, as a dependency, of a changed one among some through one of its dependents.
pub open spec fn project_told_above(
    tracker: TrackerView,
    keys: Seq<ProjectKeyView>,
    through: ProjectKeyView,
    key: ProjectKeyView,
) -> bool {
    exists|changed: ProjectKeyView|
        keys.contains(changed) && #[trigger] project_is_touched(tracker, changed)
            && project_hears_above(
            tracker.projects,
            tracker.project_upstream,
            changed,
            through,
            key,
        )
}

/// A project hears of a changed one among some.
pub open spec fn project_hears(
    tracker: TrackerView,
    keys: Seq<ProjectKeyView>,
    key: ProjectKeyView,
) -> bool {
    exists|through: ProjectKeyView|
        #![trigger project_told_below(tracker, keys, through, key)]
        #![trigger project_told_above(tracker, keys, through, key)]
        project_told_below(tracker, keys, through, key) || project_told_above(
            tracker,
            keys,
            through,
            key,
        )
}

/// What looking at some projects makes of the states: exactly those that changed themselves
/// and those that hear of one are affected besides those that were, and each knows exactly
/// through which ones it heard.
pub open spec fn projects_are_told(
    tracker: TrackerView,
    keys: Seq<ProjectKeyView>,
    before: ProjectStates,
    after: ProjectStates,
) -> bool {
    &&& forall|key: ProjectKeyView| #[trigger]
        after.dom().contains(key) <==> {
            ||| before.dom().contains(key)
            ||| keys.contains(key) && project_is_touched(tracker, key)
            ||| project_hears(tracker, keys, key)
        }
    &&& forall|key: ProjectKeyView, through: ProjectKeyView|
        after.dom().contains(key) ==> (#[trigger] after[key].upstream.contains(through) <==> (
        before.dom().contains(key) && before[key].upstream.contains(through)) || project_told_below(
            tracker,
            keys,
            through,
            key,
        ))
    &&& forall|key: ProjectKeyView, through: ProjectKeyView|
        after.dom().contains(key) ==> (#[trigger] after[key].downstream.contains(through) <==> (
        before.dom().contains(key) && before[key].downstream.contains(through))
            || project_told_above(tracker, keys, through, key))
}

proof fn projects_told_step(
    tracker: TrackerView,
    keys: Seq<ProjectKeyView>,
    through: ProjectKeyView,
    key: ProjectKeyView,
)
    requires
        keys.len() > 0,
    ensures
        project_told_below(tracker, keys, through, key) <==> project_told_below(
            tracker,
            keys.drop_last(),
            through,
            key,
        ) || (project_is_touched(tracker, keys.last()) && project_hears_below(
            tracker.projects,
            tracker.project_downstream,
            keys.last(),
            through,
            key,
        )),
        project_told_above(tracker, keys, through, key) <==> project_told_above(
            tracker,
            keys.drop_last(),
            through,
            key,
        ) || (project_is_touched(tracker, keys.last()) && project_hears_above(
            tracker.projects,
            tracker.project_upstream,
            keys.last(),
            through,
            key,
        )),
{
    let rest = keys.drop_last();
    assert forall|changed: ProjectKeyView| keys.contains(changed) <==> rest.contains(changed) || changed
        == keys.last() by {
        if keys.contains(changed) {
            let i = choose|i: int| 0 <= i < keys.len() && keys[i] == changed;
            if i < rest.len() {
                assert(rest[i] == changed);
            }
        }
        if rest.contains(changed) {
            let i = choose|i: int| 0 <= i < rest.len() && rest[i] == changed;
            assert(keys[i] == changed);
        }
        assert(keys[keys.len() - 1] == keys.last());
    }
}

proof fn looking_tells_projects(
    tracker: TrackerView,
    keys: Seq<ProjectKeyView>,
    before: ProjectStates,
)
    requires
        projects_are_numbered(tracker.projects),
        observations_are_finite(tracker.observations),
        forall|i: int|
            0 <= i < keys.len() ==> tracker.projects.nodes.dom().contains(#[trigger] keys[i]),
    ensures
        projects_are_told(
            tracker,
            keys,
            before,
            fold(keys, before, track_project(tracker)),
        ),
    decreases keys.len(),
{
    let after = fold(keys, before, track_project(tracker));
    if keys.len() == 0 {
        assert forall|key: ProjectKeyView, through: ProjectKeyView| !(#[trigger] project_told_below(
            tracker,
            keys,
            through,
            key,
        )) && !(#[trigger] project_told_above(tracker, keys, through, key)) by {}
    } else {
        let rest = keys.drop_last();
        let last = keys.last();
        assert forall|i: int| 0 <= i < rest.len() implies tracker.projects.nodes.dom().contains(
            #[trigger] rest[i],
        ) by {
            assert(rest[i] == keys[i]);
        }
        assert(keys[keys.len() - 1] == last);
        looking_tells_projects(tracker, rest, before);
        let middle = fold(rest, before, track_project(tracker));
        a_touched_project_has_a_cause(tracker, last);
        let cause = project_cause(tracker.projects, tracker.observations, last);
        let below = projects_linked(
            tracker.projects,
            last,
            Direction::Incoming,
            tracker.project_downstream,
        );
        let above = projects_linked(
            tracker.projects,
            last,
            Direction::Outgoing,
            tracker.project_upstream,
        );
        assert forall|key: ProjectKeyView| keys.contains(key) <==> rest.contains(key) || key == last by {
            if keys.contains(key) {
                let i = choose|i: int| 0 <= i < keys.len() && keys[i] == key;
                if i < rest.len() {
                    assert(rest[i] == key);
                }
            }
            if rest.contains(key) {
                let i = choose|i: int| 0 <= i < rest.len() && rest[i] == key;
                assert(keys[i] == key);
            }
        }
        assert forall|key: ProjectKeyView, through: ProjectKeyView| {
            &&& #[trigger] below(through, key) <==> project_hears_below(
                tracker.projects,
                tracker.project_downstream,
                last,
                through,
                key,
            )
        } by {
            projects_linked_below(
                tracker.projects,
                tracker.project_downstream,
                last,
                through,
                key,
            );
        }
        assert forall|key: ProjectKeyView, through: ProjectKeyView| {
            &&& #[trigger] above(through, key) <==> project_hears_above(
                tracker.projects,
                tracker.project_upstream,
                last,
                through,
                key,
            )
        } by {
            projects_linked_below(
                tracker.projects,
                tracker.project_upstream,
                last,
                through,
                key,
            );
        }
        assert forall|key: ProjectKeyView, through: ProjectKeyView| {
            &&& #[trigger] project_told_below(tracker, keys, through, key)
                <==> project_told_below(tracker, rest, through, key) || (cause is Some
                && below(through, key))
        } by {
            projects_told_step(tracker, keys, through, key);
            assert(below(through, key) <==> project_hears_below(
                tracker.projects,
                tracker.project_downstream,
                last,
                through,
                key,
            ));
        }
        assert forall|key: ProjectKeyView, through: ProjectKeyView| {
            &&& #[trigger] project_told_above(tracker, keys, through, key)
                <==> project_told_above(tracker, rest, through, key) || (cause is Some
                && above(through, key))
        } by {
            projects_told_step(tracker, keys, through, key);
            assert(above(through, key) <==> project_hears_above(
                tracker.projects,
                tracker.project_upstream,
                last,
                through,
                key,
            ));
        }
        assert forall|key: ProjectKeyView| {
            &&& #[trigger] project_hears(tracker, keys, key) <==> project_hears(
                tracker,
                rest,
                key,
            ) || (cause is Some && (has_link(above, key) || has_link(below, key)))
        } by {
            if project_hears(tracker, keys, key) {
                let through = choose|through: ProjectKeyView|
                    #![trigger project_told_below(tracker, keys, through, key)]
                    #![trigger project_told_above(tracker, keys, through, key)]
                    project_told_below(tracker, keys, through, key)
                        || project_told_above(tracker, keys, through, key);
                assert(project_told_below(tracker, rest, through, key)
                    || project_told_above(tracker, rest, through, key) || below(
                    through,
                    key,
                ) || above(through, key));
            }
            if project_hears(tracker, rest, key) {
                let through = choose|through: ProjectKeyView|
                    #![trigger project_told_below(tracker, rest, through, key)]
                    #![trigger project_told_above(tracker, rest, through, key)]
                    project_told_below(tracker, rest, through, key)
                        || project_told_above(tracker, rest, through, key);
                assert(project_told_below(tracker, keys, through, key)
                    || project_told_above(tracker, keys, through, key));
            }
            if cause is Some && has_link(above, key) {
                let through = choose|through: ProjectKeyView| #[trigger] above(through, key);
                assert(project_told_above(tracker, keys, through, key));
            }
            if cause is Some && has_link(below, key) {
                let through = choose|through: ProjectKeyView| #[trigger] below(through, key);
                assert(project_told_below(tracker, keys, through, key));
            }
        }
        if cause is None {
            assert(after == middle);
        } else {
            let caused = cause_project(middle, last, cause->0);
            let first = relate_all::<ProjectKey, ProjectCauses>(caused, true, above);
            assert(after == relate_all::<ProjectKey, ProjectCauses>(first, false, below));
            assert forall|key: ProjectKeyView, through: ProjectKeyView|
                after.dom().contains(key) implies (#[trigger] after[key].upstream.contains(through)
                <==> (before.dom().contains(key) && before[key].upstream.contains(through))
                || project_told_below(tracker, keys, through, key)) by {
                assert(after[key].upstream.contains(through) <==> (middle.dom().contains(key)
                    && middle[key].upstream.contains(through)) || below(through, key));
                if project_told_below(tracker, rest, through, key) {
                    assert(middle.dom().contains(key));
                }
                if middle.dom().contains(key) {
                    assert(middle[key].upstream.contains(through) <==> (before.dom().contains(key)
                        && before[key].upstream.contains(through)) || project_told_below(
                        tracker,
                        rest,
                        through,
                        key,
                    ));
                }
            }
            assert forall|key: ProjectKeyView, through: ProjectKeyView|
                after.dom().contains(key) implies (#[trigger] after[key].downstream.contains(
                through,
            ) <==> (before.dom().contains(key) && before[key].downstream.contains(through))
                || project_told_above(tracker, keys, through, key)) by {
                assert(after[key].downstream.contains(through) <==> (middle.dom().contains(key)
                    && middle[key].downstream.contains(through)) || above(through, key));
                if project_told_above(tracker, rest, through, key) {
                    assert(middle.dom().contains(key));
                }
                if middle.dom().contains(key) {
                    assert(middle[key].downstream.contains(through) <==> (before.dom().contains(
                        key,
                    ) && before[key].downstream.contains(through)) || project_told_above(
                        tracker,
                        rest,
                        through,
                        key,
                    ));
                }
            }
        }
    }
}

/// Every task has a number of its own, under which its key is listed, and every dependency
/// leads from a number to another.
pub open spec fn tasks_are_numbered(graph: TaskGraphView) -> bool {
    &&& graph.nodes.dom().finite()
    &&& forall|i: int|
        0 <= i < graph.indexes.len() ==> graph.nodes.dom().contains(#[trigger] graph.indexes[i])
            && graph.nodes[graph.indexes[i]].index == i
    &&& forall|key: TaskKeyView| #[trigger]
        graph.nodes.dom().contains(key) ==> graph.nodes[key].index < graph.indexes.len()
            && graph.indexes[graph.nodes[key].index as int] == key
    &&& edges_within(graph.graph.edges, graph.indexes.len())
}

/// A task depends on another directly.
pub open spec fn task_needs(graph: TaskGraphView, key: TaskKeyView, other: TaskKeyView) -> bool {
    &&& graph.nodes.dom().contains(key)
    &&& graph.nodes.dom().contains(other)
    &&& has_edge(graph.graph.edges, graph.nodes[key].index, graph.nodes[other].index)
}

/// A path of dependencies leads from a task to another. One leads from each to itself.
pub open spec fn task_leads_to(graph: TaskGraphView, key: TaskKeyView, other: TaskKeyView) -> bool {
    &&& graph.nodes.dom().contains(key)
    &&& graph.nodes.dom().contains(other)
    &&& connected(graph.graph.edges, graph.nodes[key].index, graph.nodes[other].index)
}

/// A task is a dependent that hears of a changed one through a dependency of its own: the
/// changed one itself, or with a deep scope any from which a path leads to it.
pub open spec fn task_hears_below(
    graph: TaskGraphView,
    scope: RelationScope,
    changed: TaskKeyView,
    through: TaskKeyView,
    key: TaskKeyView,
) -> bool {
    task_needs(graph, key, through) && match scope {
        RelationScope::Nothing => false,
        RelationScope::Direct => through == changed,
        RelationScope::Deep => task_leads_to(graph, through, changed),
    }
}

/// A task is a dependency that hears of a changed one through a dependent of its own: the
/// changed one itself, or with a deep scope any to which a path leads from it.
pub open spec fn task_hears_above(
    graph: TaskGraphView,
    scope: RelationScope,
    changed: TaskKeyView,
    through: TaskKeyView,
    key: TaskKeyView,
) -> bool {
    task_needs(graph, through, key) && match scope {
        RelationScope::Nothing => false,
        RelationScope::Direct => through == changed,
        RelationScope::Deep => task_leads_to(graph, changed, through),
    }
}

proof fn tasks_linked_below(
    graph: TaskGraphView,
    scope: RelationScope,
    changed: TaskKeyView,
    through: TaskKeyView,
    key: TaskKeyView,
)
    requires
        tasks_are_numbered(graph),
        graph.nodes.dom().contains(changed),
    ensures
        tasks_linked(graph, changed, Direction::Incoming, scope)(through, key)
            <==> task_hears_below(graph, scope, changed, through, key),
        tasks_linked(graph, changed, Direction::Outgoing, scope)(through, key)
            <==> task_hears_above(graph, scope, changed, through, key),
{
    let edges = graph.graph.edges;
    let start = graph.nodes[changed].index;
    assert(graph.indexes[start as int] == changed);
    if graph.nodes.dom().contains(through) && graph.nodes.dom().contains(key) {
        let a = graph.nodes[through].index;
        let b = graph.nodes[key].index;
        assert(graph.indexes[a as int] == through && graph.indexes[b as int] == key);
        if task_hears_below(graph, scope, changed, through, key) {
            assert(is_related(edges, start, Direction::Incoming, scope, a, b));
        }
        if task_hears_above(graph, scope, changed, through, key) {
            assert(is_related(edges, start, Direction::Outgoing, scope, a, b));
        }
    }
    if tasks_linked(graph, changed, Direction::Incoming, scope)(through, key) {
        let (a, b) = choose|a: usize, b: usize|
            a < graph.indexes.len() && b < graph.indexes.len() && #[trigger] is_related(
                edges,
                start,
                Direction::Incoming,
                scope,
                a,
                b,
            ) && graph.indexes[a as int] == through && graph.indexes[b as int] == key;
        assert(graph.nodes[graph.indexes[a as int]].index == a);
        assert(graph.nodes[graph.indexes[b as int]].index == b);
    }
    if tasks_linked(graph, changed, Direction::Outgoing, scope)(through, key) {
        let (a, b) = choose|a: usize, b: usize|
            a < graph.indexes.len() && b < graph.indexes.len() && #[trigger] is_related(
                edges,
                start,
                Direction::Outgoing,
                scope,
                a,
                b,
            ) && graph.indexes[a as int] == through && graph.indexes[b as int] == key;
        assert(graph.nodes[graph.indexes[a as int]].index == a);
        assert(graph.nodes[graph.indexes[b as int]].index == b);
    }
}

/// A task hears, as a dependent, of a changed one among some through one of its dependencies.
pub open spec fn task_told_below(
    tracker: TrackerView, inputs: InputsView,
    keys: Seq<TaskKeyView>,
    through: TaskKeyView,
    key: TaskKeyView,
) -> bool {
    exists|changed: TaskKeyView|
        keys.contains(changed) && #[trigger] task_is_touched(tracker, inputs, changed)
            && task_hears_below(
            tracker.tasks,
            tracker.task_downstream,
            changed,
            through,
            key,
        )
}

/// A task hears, as a dependency, of a changed one among some through one of its dependents.
pub open spec fn task_told_above(
    tracker: TrackerView, inputs: InputsView,
    keys: Seq<TaskKeyView>,
    through: TaskKeyView,
    key: TaskKeyView,
) -> bool {
    exists|changed: TaskKeyView|
        keys.contains(changed) && #[trigger] task_is_touched(tracker, inputs, changed)
            && task_hears_above(
            tracker.tasks,
            tracker.task_upstream,
            changed,
            through,
            key,
        )
}

/// A task hears of a changed one among some.
pub open spec fn task_hears(
    tracker: TrackerView, inputs: InputsView,
    keys: Seq<TaskKeyView>,
    key: TaskKeyView,
) -> bool {
    exists|through: TaskKeyView|
        #![trigger task_told_below(tracker, inputs, keys, through, key)]
        #![trigger task_told_above(tracker, inputs, keys, through, key)]
        task_told_below(tracker, inputs, keys, through, key) || task_told_above(
            tracker, inputs,
            keys,
            through,
            key,
        )
}

/// What looking at some tasks makes of the states: exactly those that changed themselves
/// and those that hear of one are affected besides those that were, and each knows exactly
/// through which ones it heard.
pub open spec fn tasks_are_told(
    tracker: TrackerView, inputs: InputsView,
    keys: Seq<TaskKeyView>,
    before: TaskStates,
    after: TaskStates,
) -> bool {
    &&& forall|key: TaskKeyView| #[trigger]
        after.dom().contains(key) <==> {
            ||| before.dom().contains(key)
            ||| keys.contains(key) && task_is_touched(tracker, inputs, key)
            ||| task_hears(tracker, inputs, keys, key)
        }
    &&& forall|key: TaskKeyView, through: TaskKeyView|
        after.dom().contains(key) ==> (#[trigger] after[key].upstream.contains(through) <==> (
        before.dom().contains(key) && before[key].upstream.contains(through)) || task_told_below(
            tracker, inputs,
            keys,
            through,
            key,
        ))
    &&& forall|key: TaskKeyView, through: TaskKeyView|
        after.dom().contains(key) ==> (#[trigger] after[key].downstream.contains(through) <==> (
        before.dom().contains(key) && before[key].downstream.contains(through))
            || task_told_above(tracker, inputs, keys, through, key))
}

proof fn tasks_told_step(
    tracker: TrackerView, inputs: InputsView,
    keys: Seq<TaskKeyView>,
    through: TaskKeyView,
    key: TaskKeyView,
)
    requires
        keys.len() > 0,
    ensures
        task_told_below(tracker, inputs, keys, through, key) <==> task_told_below(
            tracker, inputs,
            keys.drop_last(),
            through,
            key,
        ) || (task_is_touched(tracker, inputs, keys.last()) && task_hears_below(
            tracker.tasks,
            tracker.task_downstream,
            keys.last(),
            through,
            key,
        )),
        task_told_above(tracker, inputs, keys, through, key) <==> task_told_above(
            tracker, inputs,
            keys.drop_last(),
            through,
            key,
        ) || (task_is_touched(tracker, inputs, keys.last()) && task_hears_above(
            tracker.tasks,
            tracker.task_upstream,
            keys.last(),
            through,
            key,
        )),
{
    let rest = keys.drop_last();
    assert forall|changed: TaskKeyView| keys.contains(changed) <==> rest.contains(changed) || changed
        == keys.last() by {
        if keys.contains(changed) {
            let i = choose|i: int| 0 <= i < keys.len() && keys[i] == changed;
            if i < rest.len() {
                assert(rest[i] == changed);
            }
        }
        if rest.contains(changed) {
            let i = choose|i: int| 0 <= i < rest.len() && rest[i] == changed;
            assert(keys[i] == changed);
        }
        assert(keys[keys.len() - 1] == keys.last());
    }
}

proof fn looking_tells_tasks(
    tracker: TrackerView, inputs: InputsView,
    keys: Seq<TaskKeyView>,
    before: (ProjectStates, TaskStates),
)
    requires
        tasks_are_numbered(tracker.tasks),
        observations_are_finite(tracker.observations),
        forall|i: int|
            0 <= i < keys.len() ==> tracker.tasks.nodes.dom().contains(#[trigger] keys[i]),
    ensures
        tasks_are_told(
            tracker, inputs,
            keys,
            before.1,
            fold(keys, before, track_task(tracker, inputs)).1,
        ),
    decreases keys.len(),
{
    let after = fold(keys, before, track_task(tracker, inputs)).1;
    if keys.len() == 0 {
        assert forall|key: TaskKeyView, through: TaskKeyView| !(#[trigger] task_told_below(
            tracker, inputs,
            keys,
            through,
            key,
        )) && !(#[trigger] task_told_above(tracker, inputs, keys, through, key)) by {}
    } else {
        let rest = keys.drop_last();
        let last = keys.last();
        assert forall|i: int| 0 <= i < rest.len() implies tracker.tasks.nodes.dom().contains(
            #[trigger] rest[i],
        ) by {
            assert(rest[i] == keys[i]);
        }
        assert(keys[keys.len() - 1] == last);
        looking_tells_tasks(tracker, inputs, rest, before);
        let middle = fold(rest, before, track_task(tracker, inputs)).1;
        a_touched_task_has_a_cause(tracker, inputs, last);
        let cause = task_cause(tracker.tasks, tracker.observations, tracker.ci, inputs, last);
        let below = tasks_linked(
            tracker.tasks,
            last,
            Direction::Incoming,
            tracker.task_downstream,
        );
        let above = tasks_linked(
            tracker.tasks,
            last,
            Direction::Outgoing,
            tracker.task_upstream,
        );
        assert forall|key: TaskKeyView| keys.contains(key) <==> rest.contains(key) || key == last by {
            if keys.contains(key) {
                let i = choose|i: int| 0 <= i < keys.len() && keys[i] == key;
                if i < rest.len() {
                    assert(rest[i] == key);
                }
            }
            if rest.contains(key) {
                let i = choose|i: int| 0 <= i < rest.len() && rest[i] == key;
                assert(keys[i] == key);
            }
        }
        assert forall|key: TaskKeyView, through: TaskKeyView| {
            &&& #[trigger] below(through, key) <==> task_hears_below(
                tracker.tasks,
                tracker.task_downstream,
                last,
                through,
                key,
            )
        } by {
            tasks_linked_below(
                tracker.tasks,
                tracker.task_downstream,
                last,
                through,
                key,
            );
        }
        assert forall|key: TaskKeyView, through: TaskKeyView| {
            &&& #[trigger] above(through, key) <==> task_hears_above(
                tracker.tasks,
                tracker.task_upstream,
                last,
                through,
                key,
            )
        } by {
            tasks_linked_below(
                tracker.tasks,
                tracker.task_upstream,
                last,
                through,
                key,
            );
        }
        assert forall|key: TaskKeyView, through: TaskKeyView| {
            &&& #[trigger] task_told_below(tracker, inputs, keys, through, key)
                <==> task_told_below(tracker, inputs, rest, through, key) || (cause is Some
                && below(through, key))
        } by {
            tasks_told_step(tracker, inputs, keys, through, key);
            assert(below(through, key) <==> task_hears_below(
                tracker.tasks,
                tracker.task_downstream,
                last,
                through,
                key,
            ));
        }
        assert forall|key: TaskKeyView, through: TaskKeyView| {
            &&& #[trigger] task_told_above(tracker, inputs, keys, through, key)
                <==> task_told_above(tracker, inputs, rest, through, key) || (cause is Some
                && above(through, key))
        } by {
            tasks_told_step(tracker, inputs, keys, through, key);
            assert(above(through, key) <==> task_hears_above(
                tracker.tasks,
                tracker.task_upstream,
                last,
                through,
                key,
            ));
        }
        assert forall|key: TaskKeyView| {
            &&& #[trigger] task_hears(tracker, inputs, keys, key) <==> task_hears(
                tracker, inputs,
                rest,
                key,
            ) || (cause is Some && (has_link(above, key) || has_link(below, key)))
        } by {
            if task_hears(tracker, inputs, keys, key) {
                let through = choose|through: TaskKeyView|
                    #![trigger task_told_below(tracker, inputs, keys, through, key)]
                    #![trigger task_told_above(tracker, inputs, keys, through, key)]
                    task_told_below(tracker, inputs, keys, through, key)
                        || task_told_above(tracker, inputs, keys, through, key);
                assert(task_told_below(tracker, inputs, rest, through, key)
                    || task_told_above(tracker, inputs, rest, through, key) || below(
                    through,
                    key,
                ) || above(through, key));
            }
            if task_hears(tracker, inputs, rest, key) {
                let through = choose|through: TaskKeyView|
                    #![trigger task_told_below(tracker, inputs, rest, through, key)]
                    #![trigger task_told_above(tracker, inputs, rest, through, key)]
                    task_told_below(tracker, inputs, rest, through, key)
                        || task_told_above(tracker, inputs, rest, through, key);
                assert(task_told_below(tracker, inputs, keys, through, key)
                    || task_told_above(tracker, inputs, keys, through, key));
            }
            if cause is Some && has_link(above, key) {
                let through = choose|through: TaskKeyView| #[trigger] above(through, key);
                assert(task_told_above(tracker, inputs, keys, through, key));
            }
            if cause is Some && has_link(below, key) {
                let through = choose|through: TaskKeyView| #[trigger] below(through, key);
                assert(task_told_below(tracker, inputs, keys, through, key));
            }
        }
        if cause is None {
            assert(after == middle);
        } else {
            let caused = cause_task(middle, last, cause->0);
            let first = relate_all::<TaskKey, TaskCauses>(caused, true, above);
            assert(after == relate_all::<TaskKey, TaskCauses>(first, false, below));
            assert forall|key: TaskKeyView, through: TaskKeyView|
                after.dom().contains(key) implies (#[trigger] after[key].upstream.contains(through)
                <==> (before.1.dom().contains(key) && before.1[key].upstream.contains(through))
                || task_told_below(tracker, inputs, keys, through, key)) by {
                assert(after[key].upstream.contains(through) <==> (middle.dom().contains(key)
                    && middle[key].upstream.contains(through)) || below(through, key));
                if task_told_below(tracker, inputs, rest, through, key) {
                    assert(middle.dom().contains(key));
                }
                if middle.dom().contains(key) {
                    assert(middle[key].upstream.contains(through) <==> (before.1.dom().contains(key)
                        && before.1[key].upstream.contains(through)) || task_told_below(
                        tracker, inputs,
                        rest,
                        through,
                        key,
                    ));
                }
            }
            assert forall|key: TaskKeyView, through: TaskKeyView|
                after.dom().contains(key) implies (#[trigger] after[key].downstream.contains(
                through,
            ) <==> (before.1.dom().contains(key) && before.1[key].downstream.contains(through))
                || task_told_above(tracker, inputs, keys, through, key)) by {
                assert(after[key].downstream.contains(through) <==> (middle.dom().contains(key)
                    && middle[key].downstream.contains(through)) || above(through, key));
                if task_told_above(tracker, inputs, rest, through, key) {
                    assert(middle.dom().contains(key));
                }
                if middle.dom().contains(key) {
                    assert(middle[key].downstream.contains(through) <==> (before.1.dom().contains(
                        key,
                    ) && before.1[key].downstream.contains(through)) || task_told_above(
                        tracker, inputs,
                        rest,
                        through,
                        key,
                    ));
                }
            }
        }
    }
}

/// Exactly those projects are affected that were before, that changed themselves, or that are
/// related to one that did as far as the scopes reach; and each knows exactly through which
/// ones it is.
pub proof fn affected_projects_are_exact(
    tracker: TrackerView,
    before: ProjectStates,
    key: ProjectKeyView,
)
    requires
        projects_are_numbered(tracker.projects),
        observations_are_finite(tracker.observations),
    ensures
        ({
            let after = fold(
                keys_in_order(tracker.projects.nodes),
                before,
                track_project(tracker),
            );
            let all = tracker.projects;
            &&& after.dom().contains(key) <==> {
                ||| before.dom().contains(key)
                ||| project_is_touched(tracker, key)
                ||| exists|changed: ProjectKeyView, through: ProjectKeyView| #[trigger]
                    project_is_touched(tracker, changed) && #[trigger] project_hears_below(
                        all,
                        tracker.project_downstream,
                        changed,
                        through,
                        key,
                    )
                ||| exists|changed: ProjectKeyView, through: ProjectKeyView| #[trigger]
                    project_is_touched(tracker, changed) && #[trigger] project_hears_above(
                        all,
                        tracker.project_upstream,
                        changed,
                        through,
                        key,
                    )
            }
            &&& after.dom().contains(key) ==> forall|through: ProjectKeyView| #[trigger]
                after[key].upstream.contains(through) <==> {
                    ||| before.dom().contains(key) && before[key].upstream.contains(through)
                    ||| exists|changed: ProjectKeyView| #[trigger]
                        project_is_touched(tracker, changed) && project_hears_below(
                            all,
                            tracker.project_downstream,
                            changed,
                            through,
                            key,
                        )
                }
            &&& after.dom().contains(key) ==> forall|through: ProjectKeyView| #[trigger]
                after[key].downstream.contains(through) <==> {
                    ||| before.dom().contains(key) && before[key].downstream.contains(through)
                    ||| exists|changed: ProjectKeyView| #[trigger]
                        project_is_touched(tracker, changed) && project_hears_above(
                            all,
                            tracker.project_upstream,
                            changed,
                            through,
                            key,
                        )
                }
        }),
{
    let all = tracker.projects;
    let keys = keys_in_order(tracker.projects.nodes);
    let after = fold(keys, before, track_project(tracker));
    project_keys_are_all(all);
    looking_tells_projects(tracker, keys, before);
    assert forall|through: ProjectKeyView| {
        &&& #[trigger] project_told_below(tracker, keys, through, key) <==> exists|
            changed: ProjectKeyView,
        | #[trigger]
            project_is_touched(tracker, changed) && project_hears_below(
                all,
                tracker.project_downstream,
                changed,
                through,
                key,
            )
    } by {
        if exists|changed: ProjectKeyView| #[trigger]
            project_is_touched(tracker, changed) && project_hears_below(
                all,
                tracker.project_downstream,
                changed,
                through,
                key,
            ) {
            let changed = choose|changed: ProjectKeyView| #[trigger]
                project_is_touched(tracker, changed) && project_hears_below(
                    all,
                    tracker.project_downstream,
                    changed,
                    through,
                    key,
                );
            assert(keys.contains(changed));
        }
    }
    assert forall|through: ProjectKeyView| {
        &&& #[trigger] project_told_above(tracker, keys, through, key) <==> exists|
            changed: ProjectKeyView,
        | #[trigger]
            project_is_touched(tracker, changed) && project_hears_above(
                all,
                tracker.project_upstream,
                changed,
                through,
                key,
            )
    } by {
        if exists|changed: ProjectKeyView| #[trigger]
            project_is_touched(tracker, changed) && project_hears_above(
                all,
                tracker.project_upstream,
                changed,
                through,
                key,
            ) {
            let changed = choose|changed: ProjectKeyView| #[trigger]
                project_is_touched(tracker, changed) && project_hears_above(
                    all,
                    tracker.project_upstream,
                    changed,
                    through,
                    key,
                );
            assert(keys.contains(changed));
        }
    }
    assert(project_is_touched(tracker, key) ==> keys.contains(key));
    if project_hears(tracker, keys, key) {
        let through = choose|through: ProjectKeyView|
            #![trigger project_told_below(tracker, keys, through, key)]
            #![trigger project_told_above(tracker, keys, through, key)]
            project_told_below(tracker, keys, through, key) || project_told_above(
                tracker,
                keys,
                through,
                key,
            );
        if project_told_below(tracker, keys, through, key) {
            let changed = choose|changed: ProjectKeyView| #[trigger]
                project_is_touched(tracker, changed) && project_hears_below(
                    all,
                    tracker.project_downstream,
                    changed,
                    through,
                    key,
                );
            assert(project_hears_below(all, tracker.project_downstream, changed, through, key));
        } else {
            let changed = choose|changed: ProjectKeyView| #[trigger]
                project_is_touched(tracker, changed) && project_hears_above(
                    all,
                    tracker.project_upstream,
                    changed,
                    through,
                    key,
                );
            assert(project_hears_above(all, tracker.project_upstream, changed, through, key));
        }
    }
    if exists|changed: ProjectKeyView, through: ProjectKeyView| #[trigger]
        project_is_touched(tracker, changed) && #[trigger] project_hears_below(
            all,
            tracker.project_downstream,
            changed,
            through,
            key,
        ) {
        let (changed, through) = choose|changed: ProjectKeyView, through: ProjectKeyView| #[trigger]
            project_is_touched(tracker, changed) && #[trigger] project_hears_below(
                all,
                tracker.project_downstream,
                changed,
                through,
                key,
            );
        assert(project_told_below(tracker, keys, through, key));
    }
    if exists|changed: ProjectKeyView, through: ProjectKeyView| #[trigger]
        project_is_touched(tracker, changed) && #[trigger] project_hears_above(
            all,
            tracker.project_upstream,
            changed,
            through,
            key,
        ) {
        let (changed, through) = choose|changed: ProjectKeyView, through: ProjectKeyView| #[trigger]
            project_is_touched(tracker, changed) && #[trigger] project_hears_above(
                all,
                tracker.project_upstream,
                changed,
                through,
                key,
            );
        assert(project_told_above(tracker, keys, through, key));
    }
}

proof fn project_keys_are_all(graph: ProjectGraphView)
    requires
        projects_are_numbered(graph),
    ensures
        ({
            let keys = keys_in_order(graph.nodes);
            &&& forall|key: ProjectKeyView| #[trigger]
                keys.contains(key) <==> graph.nodes.dom().contains(key)
            &&& forall|i: int|
                0 <= i < keys.len() ==> graph.nodes.dom().contains(#[trigger] keys[i])
            &&& keys.no_duplicates()
        }),
{
    let keys = keys_in_order(graph.nodes);
    project_keys_rank();
    arranged_holds::<ProjectKey>(graph.nodes.dom());
    assert forall|i: int| 0 <= i < keys.len() implies graph.nodes.dom().contains(
        #[trigger] keys[i],
    ) by {
        assert(keys.contains(keys[i]));
    }
}

/// What depends on a project that changed is affected: with a deep scope everything from which
/// a path of dependencies leads to it, and with a direct one everything that depends on it
/// directly, which then names it among what it depends on.
pub proof fn dependents_of_changed_projects_are_affected(
    tracker: TrackerView,
    before: ProjectStates,
    changed: ProjectKeyView,
    key: ProjectKeyView,
)
    requires
        projects_are_numbered(tracker.projects),
        observations_are_finite(tracker.observations),
        project_is_touched(tracker, changed),
    ensures
        ({
            let after = fold(
                keys_in_order(tracker.projects.nodes),
                before,
                track_project(tracker),
            );
            let all = tracker.projects;
            &&& tracker.project_downstream == RelationScope::Deep && project_leads_to(
                all,
                key,
                changed,
            ) ==> after.dom().contains(key)
            &&& tracker.project_downstream != RelationScope::Nothing && project_needs(
                all,
                key,
                changed,
            ) ==> after.dom().contains(key) && after[key].upstream.contains(changed)
        }),
{
    let all = tracker.projects;
    let edges = all.graph.edges;
    affected_projects_are_exact(tracker, before, key);
    if tracker.project_downstream == RelationScope::Deep && project_leads_to(all, key, changed)
        && key != changed {
        let from = all.nodes[key].index;
        let to = all.nodes[changed].index;
        let steps = choose|steps: nat| walk(edges, from, to, steps);
        assert(from != to) by {
            assert(all.indexes[from as int] == key && all.indexes[to as int] == changed);
        }
        let middle = choose|middle: usize|
            #[trigger] has_edge(edges, from, middle) && walk(edges, middle, to, (steps - 1) as nat);
        assert(walk(edges, middle, to, (steps - 1) as nat));
        let through = all.indexes[middle as int];
        assert(middle < all.indexes.len());
        assert(project_hears_below(all, tracker.project_downstream, changed, through, key));
    }
    if tracker.project_downstream != RelationScope::Nothing && project_needs(all, key, changed) {
        let to = all.nodes[changed].index;
        assert(walk(edges, to, to, 0));
        assert(project_hears_below(all, tracker.project_downstream, changed, changed, key));
    }
}

/// What a project that changed depends on is affected: with a deep scope everything to which
/// a path of dependencies leads from it, and with a direct one everything that it depends on
/// directly, which then names it among what depends on it.
pub proof fn dependencies_of_changed_projects_are_affected(
    tracker: TrackerView,
    before: ProjectStates,
    changed: ProjectKeyView,
    key: ProjectKeyView,
)
    requires
        projects_are_numbered(tracker.projects),
        observations_are_finite(tracker.observations),
        project_is_touched(tracker, changed),
    ensures
        ({
            let after = fold(
                keys_in_order(tracker.projects.nodes),
                before,
                track_project(tracker),
            );
            let all = tracker.projects;
            &&& tracker.project_upstream == RelationScope::Deep && project_leads_to(
                all,
                changed,
                key,
            ) ==> after.dom().contains(key)
            &&& tracker.project_upstream != RelationScope::Nothing && project_needs(
                all,
                changed,
                key,
            ) ==> after.dom().contains(key) && after[key].downstream.contains(changed)
        }),
{
    let all = tracker.projects;
    let edges = all.graph.edges;
    affected_projects_are_exact(tracker, before, key);
    if tracker.project_upstream == RelationScope::Deep && project_leads_to(all, changed, key) && key
        != changed {
        let from = all.nodes[changed].index;
        let to = all.nodes[key].index;
        let steps = choose|steps: nat| walk(edges, from, to, steps);
        assert(from != to) by {
            assert(all.indexes[from as int] == changed && all.indexes[to as int] == key);
        }
        let middle = walk_ends_with(edges, from, to, steps);
        let through = all.indexes[middle as int];
        assert(middle < all.indexes.len());
        assert(project_hears_above(all, tracker.project_upstream, changed, through, key));
    }
    if tracker.project_upstream != RelationScope::Nothing && project_needs(all, changed, key) {
        let from = all.nodes[changed].index;
        assert(walk(edges, from, from, 0));
        assert(project_hears_above(all, tracker.project_upstream, changed, changed, key));
    }
}

/// What is affected without having changed is related to something that did change, and then a
/// scope asks for relations of that kind.
pub proof fn affected_projects_have_a_reason(
    tracker: TrackerView,
    before: ProjectStates,
    key: ProjectKeyView,
)
    requires
        projects_are_numbered(tracker.projects),
        observations_are_finite(tracker.observations),
        !before.dom().contains(key),
        !project_is_touched(tracker, key),
        fold(
            keys_in_order(tracker.projects.nodes),
            before,
            track_project(tracker),
        ).dom().contains(key),
    ensures
        exists|changed: ProjectKeyView| #[trigger]
            project_is_touched(tracker, changed) && {
                ||| tracker.project_downstream != RelationScope::Nothing && project_leads_to(
                    tracker.projects,
                    key,
                    changed,
                )
                ||| tracker.project_upstream != RelationScope::Nothing && project_leads_to(
                    tracker.projects,
                    changed,
                    key,
                )
            },
{
    let all = tracker.projects;
    let edges = all.graph.edges;
    affected_projects_are_exact(tracker, before, key);
    if exists|changed: ProjectKeyView, through: ProjectKeyView| #[trigger]
        project_is_touched(tracker, changed) && #[trigger] project_hears_below(
            all,
            tracker.project_downstream,
            changed,
            through,
            key,
        ) {
        let (changed, through) = choose|changed: ProjectKeyView, through: ProjectKeyView| #[trigger]
            project_is_touched(tracker, changed) && #[trigger] project_hears_below(
                all,
                tracker.project_downstream,
                changed,
                through,
                key,
            );
        let (a, b, c) = (all.nodes[key].index, all.nodes[through].index, all.nodes[changed].index);
        edge_connects(edges, a, b);
        if through == changed {
            connected_reflexive(edges, b);
        }
        connected_transitive(edges, a, b, c);
        assert(project_is_touched(tracker, changed));
    } else {
        let (changed, through) = choose|changed: ProjectKeyView, through: ProjectKeyView| #[trigger]
            project_is_touched(tracker, changed) && #[trigger] project_hears_above(
                all,
                tracker.project_upstream,
                changed,
                through,
                key,
            );
        let (a, b, c) = (all.nodes[changed].index, all.nodes[through].index, all.nodes[key].index);
        edge_connects(edges, b, c);
        if through == changed {
            connected_reflexive(edges, a);
        }
        connected_transitive(edges, a, b, c);
        assert(project_is_touched(tracker, changed));
    }
}

/// Exactly those tasks are affected that were before, that changed themselves, or that are
/// related to one that did as far as the scopes reach; and each knows exactly through which
/// ones it is.
pub proof fn affected_tasks_are_exact(
    tracker: TrackerView, inputs: InputsView,
    before: (ProjectStates, TaskStates),
    key: TaskKeyView,
)
    requires
        tasks_are_numbered(tracker.tasks),
        observations_are_finite(tracker.observations),
    ensures
        ({
            let after = fold(
                arranged::<TaskKey>(tracker.tasks.nodes.dom()),
                before,
                track_task(tracker, inputs),
            ).1;
            let all = tracker.tasks;
            &&& after.dom().contains(key) <==> {
                ||| before.1.dom().contains(key)
                ||| task_is_touched(tracker, inputs, key)
                ||| exists|changed: TaskKeyView, through: TaskKeyView| #[trigger]
                    task_is_touched(tracker, inputs, changed) && #[trigger] task_hears_below(
                        all,
                        tracker.task_downstream,
                        changed,
                        through,
                        key,
                    )
                ||| exists|changed: TaskKeyView, through: TaskKeyView| #[trigger]
                    task_is_touched(tracker, inputs, changed) && #[trigger] task_hears_above(
                        all,
                        tracker.task_upstream,
                        changed,
                        through,
                        key,
                    )
            }
            &&& after.dom().contains(key) ==> forall|through: TaskKeyView| #[trigger]
                after[key].upstream.contains(through) <==> {
                    ||| before.1.dom().contains(key) && before.1[key].upstream.contains(through)
                    ||| exists|changed: TaskKeyView| #[trigger]
                        task_is_touched(tracker, inputs, changed) && task_hears_below(
                            all,
                            tracker.task_downstream,
                            changed,
                            through,
                            key,
                        )
                }
            &&& after.dom().contains(key) ==> forall|through: TaskKeyView| #[trigger]
                after[key].downstream.contains(through) <==> {
                    ||| before.1.dom().contains(key) && before.1[key].downstream.contains(through)
                    ||| exists|changed: TaskKeyView| #[trigger]
                        task_is_touched(tracker, inputs, changed) && task_hears_above(
                            all,
                            tracker.task_upstream,
                            changed,
                            through,
                            key,
                        )
                }
        }),
{
    let all = tracker.tasks;
    let keys = arranged::<TaskKey>(tracker.tasks.nodes.dom());
    let after = fold(keys, before, track_task(tracker, inputs)).1;
    task_keys_are_all(all);
    looking_tells_tasks(tracker, inputs, keys, before);
    assert forall|through: TaskKeyView| {
        &&& #[trigger] task_told_below(tracker, inputs, keys, through, key) <==> exists|
            changed: TaskKeyView,
        | #[trigger]
            task_is_touched(tracker, inputs, changed) && task_hears_below(
                all,
                tracker.task_downstream,
                changed,
                through,
                key,
            )
    } by {
        if exists|changed: TaskKeyView| #[trigger]
            task_is_touched(tracker, inputs, changed) && task_hears_below(
                all,
                tracker.task_downstream,
                changed,
                through,
                key,
            ) {
            let changed = choose|changed: TaskKeyView| #[trigger]
                task_is_touched(tracker, inputs, changed) && task_hears_below(
                    all,
                    tracker.task_downstream,
                    changed,
                    through,
                    key,
                );
            assert(keys.contains(changed));
        }
    }
    assert forall|through: TaskKeyView| {
        &&& #[trigger] task_told_above(tracker, inputs, keys, through, key) <==> exists|
            changed: TaskKeyView,
        | #[trigger]
            task_is_touched(tracker, inputs, changed) && task_hears_above(
                all,
                tracker.task_upstream,
                changed,
                through,
                key,
            )
    } by {
        if exists|changed: TaskKeyView| #[trigger]
            task_is_touched(tracker, inputs, changed) && task_hears_above(
                all,
                tracker.task_upstream,
                changed,
                through,
                key,
            ) {
            let changed = choose|changed: TaskKeyView| #[trigger]
                task_is_touched(tracker, inputs, changed) && task_hears_above(
                    all,
                    tracker.task_upstream,
                    changed,
                    through,
                    key,
                );
            assert(keys.contains(changed));
        }
    }
    assert(task_is_touched(tracker, inputs, key) ==> keys.contains(key));
    if task_hears(tracker, inputs, keys, key) {
        let through = choose|through: TaskKeyView|
            #![trigger task_told_below(tracker, inputs, keys, through, key)]
            #![trigger task_told_above(tracker, inputs, keys, through, key)]
            task_told_below(tracker, inputs, keys, through, key) || task_told_above(
                tracker, inputs,
                keys,
                through,
                key,
            );
        if task_told_below(tracker, inputs, keys, through, key) {
            let changed = choose|changed: TaskKeyView| #[trigger]
                task_is_touched(tracker, inputs, changed) && task_hears_below(
                    all,
                    tracker.task_downstream,
                    changed,
                    through,
                    key,
                );
            assert(task_hears_below(all, tracker.task_downstream, changed, through, key));
        } else {
            let changed = choose|changed: TaskKeyView| #[trigger]
                task_is_touched(tracker, inputs, changed) && task_hears_above(
                    all,
                    tracker.task_upstream,
                    changed,
                    through,
                    key,
                );
            assert(task_hears_above(all, tracker.task_upstream, changed, through, key));
        }
    }
    if exists|changed: TaskKeyView, through: TaskKeyView| #[trigger]
        task_is_touched(tracker, inputs, changed) && #[trigger] task_hears_below(
            all,
            tracker.task_downstream,
            changed,
            through,
            key,
        ) {
        let (changed, through) = choose|changed: TaskKeyView, through: TaskKeyView| #[trigger]
            task_is_touched(tracker, inputs, changed) && #[trigger] task_hears_below(
                all,
                tracker.task_downstream,
                changed,
                through,
                key,
            );
        assert(task_told_below(tracker, inputs, keys, through, key));
    }
    if exists|changed: TaskKeyView, through: TaskKeyView| #[trigger]
        task_is_touched(tracker, inputs, changed) && #[trigger] task_hears_above(
            all,
            tracker.task_upstream,
            changed,
            through,
            key,
        ) {
        let (changed, through) = choose|changed: TaskKeyView, through: TaskKeyView| #[trigger]
            task_is_touched(tracker, inputs, changed) && #[trigger] task_hears_above(
                all,
                tracker.task_upstream,
                changed,
                through,
                key,
            );
        assert(task_told_above(tracker, inputs, keys, through, key));
    }
}

proof fn task_keys_are_all(graph: TaskGraphView)
    requires
        tasks_are_numbered(graph),
    ensures
        ({
            let keys = arranged::<TaskKey>(graph.nodes.dom());
            &&& forall|key: TaskKeyView| #[trigger]
                keys.contains(key) <==> graph.nodes.dom().contains(key)
            &&& forall|i: int|
                0 <= i < keys.len() ==> graph.nodes.dom().contains(#[trigger] keys[i])
            &&& keys.no_duplicates()
        }),
{
    let keys = arranged::<TaskKey>(graph.nodes.dom());
    task_keys_rank();
    arranged_holds::<TaskKey>(graph.nodes.dom());
    assert forall|i: int| 0 <= i < keys.len() implies graph.nodes.dom().contains(
        #[trigger] keys[i],
    ) by {
        assert(keys.contains(keys[i]));
    }
}

/// What depends on a task that changed is affected: with a deep scope everything from which
/// a path of dependencies leads to it, and with a direct one everything that depends on it
/// directly, which then names it among what it depends on.
pub proof fn dependents_of_changed_tasks_are_affected(
    tracker: TrackerView, inputs: InputsView,
    before: (ProjectStates, TaskStates),
    changed: TaskKeyView,
    key: TaskKeyView,
)
    requires
        tasks_are_numbered(tracker.tasks),
        observations_are_finite(tracker.observations),
        task_is_touched(tracker, inputs, changed),
    ensures
        ({
            let after = fold(
                arranged::<TaskKey>(tracker.tasks.nodes.dom()),
                before,
                track_task(tracker, inputs),
            ).1;
            let all = tracker.tasks;
            &&& tracker.task_downstream == RelationScope::Deep && task_leads_to(
                all,
                key,
                changed,
            ) ==> after.dom().contains(key)
            &&& tracker.task_downstream != RelationScope::Nothing && task_needs(
                all,
                key,
                changed,
            ) ==> after.dom().contains(key) && after[key].upstream.contains(changed)
        }),
{
    let all = tracker.tasks;
    let edges = all.graph.edges;
    affected_tasks_are_exact(tracker, inputs, before, key);
    if tracker.task_downstream == RelationScope::Deep && task_leads_to(all, key, changed)
        && key != changed {
        let from = all.nodes[key].index;
        let to = all.nodes[changed].index;
        let steps = choose|steps: nat| walk(edges, from, to, steps);
        assert(from != to) by {
            assert(all.indexes[from as int] == key && all.indexes[to as int] == changed);
        }
        let middle = choose|middle: usize|
            #[trigger] has_edge(edges, from, middle) && walk(edges, middle, to, (steps - 1) as nat);
        assert(walk(edges, middle, to, (steps - 1) as nat));
        let through = all.indexes[middle as int];
        assert(middle < all.indexes.len());
        assert(task_hears_below(all, tracker.task_downstream, changed, through, key));
    }
    if tracker.task_downstream != RelationScope::Nothing && task_needs(all, key, changed) {
        let to = all.nodes[changed].index;
        assert(walk(edges, to, to, 0));
        assert(task_hears_below(all, tracker.task_downstream, changed, changed, key));
    }
}

/// What a task that changed depends on is affected: with a deep scope everything to which
/// a path of dependencies leads from it, and with a direct one everything that it depends on
/// directly, which then names it among what depends on it.
pub proof fn dependencies_of_changed_tasks_are_affected(
    tracker: TrackerView, inputs: InputsView,
    before: (ProjectStates, TaskStates),
    changed: TaskKeyView,
    key: TaskKeyView,
)
    requires
        tasks_are_numbered(tracker.tasks),
        observations_are_finite(tracker.observations),
        task_is_touched(tracker, inputs, changed),
    ensures
        ({
            let after = fold(
                arranged::<TaskKey>(tracker.tasks.nodes.dom()),
                before,
                track_task(tracker, inputs),
            ).1;
            let all = tracker.tasks;
            &&& tracker.task_upstream == RelationScope::Deep && task_leads_to(
                all,
                changed,
                key,
            ) ==> after.dom().contains(key)
            &&& tracker.task_upstream != RelationScope::Nothing && task_needs(
                all,
                changed,
                key,
            ) ==> after.dom().contains(key) && after[key].downstream.contains(changed)
        }),
{
    let all = tracker.tasks;
    let edges = all.graph.edges;
    affected_tasks_are_exact(tracker, inputs, before, key);
    if tracker.task_upstream == RelationScope::Deep && task_leads_to(all, changed, key) && key
        != changed {
        let from = all.nodes[changed].index;
        let to = all.nodes[key].index;
        let steps = choose|steps: nat| walk(edges, from, to, steps);
        assert(from != to) by {
            assert(all.indexes[from as int] == changed && all.indexes[to as int] == key);
        }
        let middle = walk_ends_with(edges, from, to, steps);
        let through = all.indexes[middle as int];
        assert(middle < all.indexes.len());
        assert(task_hears_above(all, tracker.task_upstream, changed, through, key));
    }
    if tracker.task_upstream != RelationScope::Nothing && task_needs(all, changed, key) {
        let from = all.nodes[changed].index;
        assert(walk(edges, from, from, 0));
        assert(task_hears_above(all, tracker.task_upstream, changed, changed, key));
    }
}

/// What is affected without having changed is related to something that did change, and then a
/// scope asks for relations of that kind.
pub proof fn affected_tasks_have_a_reason(
    tracker: TrackerView, inputs: InputsView,
    before: (ProjectStates, TaskStates),
    key: TaskKeyView,
)
    requires
        tasks_are_numbered(tracker.tasks),
        observations_are_finite(tracker.observations),
        !before.1.dom().contains(key),
        !task_is_touched(tracker, inputs, key),
        fold(
            arranged::<TaskKey>(tracker.tasks.nodes.dom()),
            before,
            track_task(tracker, inputs),
        ).1.dom().contains(key),
    ensures
        exists|changed: TaskKeyView| #[trigger]
            task_is_touched(tracker, inputs, changed) && {
                ||| tracker.task_downstream != RelationScope::Nothing && task_leads_to(
                    tracker.tasks,
                    key,
                    changed,
                )
                ||| tracker.task_upstream != RelationScope::Nothing && task_leads_to(
                    tracker.tasks,
                    changed,
                    key,
                )
            },
{
    let all = tracker.tasks;
    let edges = all.graph.edges;
    affected_tasks_are_exact(tracker, inputs, before, key);
    if exists|changed: TaskKeyView, through: TaskKeyView| #[trigger]
        task_is_touched(tracker, inputs, changed) && #[trigger] task_hears_below(
            all,
            tracker.task_downstream,
            changed,
            through,
            key,
        ) {
        let (changed, through) = choose|changed: TaskKeyView, through: TaskKeyView| #[trigger]
            task_is_touched(tracker, inputs, changed) && #[trigger] task_hears_below(
                all,
                tracker.task_downstream,
                changed,
                through,
                key,
            );
        let (a, b, c) = (all.nodes[key].index, all.nodes[through].index, all.nodes[changed].index);
        edge_connects(edges, a, b);
        if through == changed {
            connected_reflexive(edges, b);
        }
        connected_transitive(edges, a, b, c);
        assert(task_is_touched(tracker, inputs, changed));
    } else {
        let (changed, through) = choose|changed: TaskKeyView, through: TaskKeyView| #[trigger]
            task_is_touched(tracker, inputs, changed) && #[trigger] task_hears_above(
                all,
                tracker.task_upstream,
                changed,
                through,
                key,
            );
        let (a, b, c) = (all.nodes[changed].index, all.nodes[through].index, all.nodes[key].index);
        edge_connects(edges, b, c);
        if through == changed {
            connected_reflexive(edges, a);
        }
        connected_transitive(edges, a, b, c);
        assert(task_is_touched(tracker, inputs, changed));
    }
}

/// What a task changed by, where it is told: a run that always includes it or knows nothing, a
/// variable, or a file.
pub open spec fn task_cause_is_kept(
    tracker: TrackerView,
    inputs: InputsView,
    key: TaskKeyView,
    states: TaskStates,
) -> bool {
    match task_cause(tracker.tasks, tracker.observations, tracker.ci, inputs, key) {
        None => true,
        Some(TaskCause::Unavailable) => states.dom().contains(key) && states[key].causes.other,
        Some(TaskCause::Env(name)) => states.dom().contains(key)
            && states[key].causes.env.contains(name),
        Some(TaskCause::File(file)) => states.dom().contains(key)
            && states[key].causes.files.contains(file),
    }
}

/// Looking at tasks keeps why each changed, and tells the project of each that changed.
proof fn looking_keeps_causes(
    tracker: TrackerView,
    inputs: InputsView,
    keys: Seq<TaskKeyView>,
    before: (ProjectStates, TaskStates),
)
    requires
        keys.no_duplicates(),
    ensures
        ({
            let after = fold(keys, before, track_task(tracker, inputs));
            &&& forall|key: TaskKeyView| #[trigger]
                keys.contains(key) ==> task_cause_is_kept(tracker, inputs, key, after.1)
            &&& forall|key: TaskKeyView| #[trigger]
                before.1.dom().contains(key) ==> after.1.dom().contains(key)
            &&& forall|key: TaskKeyView|
                #![trigger after.1[key]]
                after.1.dom().contains(key) && !keys.contains(key) ==> after.1[key].causes == (
                if before.1.dom().contains(key) {
                    before.1[key].causes
                } else {
                    <TaskCauses as crate::affected::Causes>::none()
                })
            &&& forall|project: ProjectKeyView| #[trigger]
                after.0.dom().contains(project) <==> before.0.dom().contains(project) || exists|
                    key: TaskKeyView,
                | #[trigger]
                    keys.contains(key) && key.project == project && task_cause(
                        tracker.tasks,
                        tracker.observations,
                        tracker.ci,
                        inputs,
                        key,
                    ) is Some
            &&& forall|project: ProjectKeyView, key: TaskKeyView|
                after.0.dom().contains(project) ==> (
                #[trigger] after.0[project].causes.tasks.contains(key) <==> (
                before.0.dom().contains(project) && before.0[project].causes.tasks.contains(key))
                    || (keys.contains(key) && key.project == project && task_cause(
                    tracker.tasks,
                    tracker.observations,
                    tracker.ci,
                    inputs,
                    key,
                ) is Some))
        }),
    decreases keys.len(),
{
    let step = track_task(tracker, inputs);
    let after = fold(keys, before, step);
    if keys.len() > 0 {
        let rest = keys.drop_last();
        let last = keys.last();
        assert(keys[keys.len() - 1] == last);
        assert forall|key: TaskKeyView| keys.contains(key) <==> rest.contains(key) || key
            == last by {
            if keys.contains(key) {
                let i = choose|i: int| 0 <= i < keys.len() && keys[i] == key;
                if i < rest.len() {
                    assert(rest[i] == key);
                }
            }
            if rest.contains(key) {
                let i = choose|i: int| 0 <= i < rest.len() && rest[i] == key;
                assert(keys[i] == key);
            }
        }
        assert(rest.no_duplicates()) by {
            assert forall|i: int, j: int|
                0 <= i < rest.len() && 0 <= j < rest.len() && i != j implies rest[i]
                != rest[j] by {
                assert(keys[i] != keys[j]);
            }
        }
        assert(!rest.contains(last)) by {
            if rest.contains(last) {
                let i = choose|i: int| 0 <= i < rest.len() && rest[i] == last;
                assert(keys[i] != keys[keys.len() - 1]);
            }
        }
        looking_keeps_causes(tracker, inputs, rest, before);
        let middle = fold(rest, before, step);
        let cause = task_cause(
            tracker.tasks,
            tracker.observations,
            tracker.ci,
            inputs,
            last,
        );
        if let Some(cause) = cause {
            let caused = cause_task(middle.1, last, cause);
            assert forall|key: TaskKeyView| caused.dom().contains(key) implies
                after.1.dom().contains(key) && #[trigger] after.1[key].causes
                == caused[key].causes by {}
            assert forall|key: TaskKeyView| #[trigger]
                keys.contains(key) implies task_cause_is_kept(tracker, inputs, key, after.1) by {
                if key != last {
                    assert(rest.contains(key));
                    assert(task_cause_is_kept(tracker, inputs, key, middle.1));
                    if middle.1.dom().contains(key) {
                        assert(after.1[key].causes == middle.1[key].causes);
                    }
                } else {
                    assert(after.1[key].causes == caused[key].causes);
                }
            }
            assert forall|project: ProjectKeyView| #[trigger]
                after.0.dom().contains(project) <==> before.0.dom().contains(project) || exists|
                    key: TaskKeyView,
                | #[trigger]
                    keys.contains(key) && key.project == project && task_cause(
                        tracker.tasks,
                        tracker.observations,
                        tracker.ci,
                        inputs,
                        key,
                    ) is Some by {
                assert(after.0.dom().contains(project) <==> middle.0.dom().contains(project)
                    || project == last.project);
                if middle.0.dom().contains(project) && !before.0.dom().contains(project) {
                    let key = choose|key: TaskKeyView| #[trigger]
                        rest.contains(key) && key.project == project && task_cause(
                            tracker.tasks,
                            tracker.observations,
                            tracker.ci,
                            inputs,
                            key,
                        ) is Some;
                    assert(keys.contains(key));
                }
                assert(keys.contains(last));
            }
        } else {
            assert forall|project: ProjectKeyView| #[trigger]
                after.0.dom().contains(project) <==> before.0.dom().contains(project) || exists|
                    key: TaskKeyView,
                | #[trigger]
                    keys.contains(key) && key.project == project && task_cause(
                        tracker.tasks,
                        tracker.observations,
                        tracker.ci,
                        inputs,
                        key,
                    ) is Some by {
                if middle.0.dom().contains(project) && !before.0.dom().contains(project) {
                    let key = choose|key: TaskKeyView| #[trigger]
                        rest.contains(key) && key.project == project && task_cause(
                            tracker.tasks,
                            tracker.observations,
                            tracker.ci,
                            inputs,
                            key,
                        ) is Some;
                    assert(keys.contains(key));
                }
            }
        }
    }
}

/// A task that changed says why, and its project knows of it. A task that did not change says
/// nothing of its own, and a project knows of no other tasks.
pub proof fn changed_tasks_say_why(
    tracker: TrackerView,
    inputs: InputsView,
    before: (ProjectStates, TaskStates),
    key: TaskKeyView,
)
    requires
        tasks_are_numbered(tracker.tasks),
        observations_are_finite(tracker.observations),
        tracker.tasks.nodes.dom().contains(key),
        !before.1.dom().contains(key),
    ensures
        ({
            let after = fold(
                arranged::<TaskKey>(tracker.tasks.nodes.dom()),
                before,
                track_task(tracker, inputs),
            );
            let known = tracker.observations[key.project.source];
            let task = tracker.tasks.nodes[key].task;
            &&& task_is_touched(tracker, inputs, key) ==> {
                &&& after.1.dom().contains(key)
                &&& after.0.dom().contains(key.project)
                &&& after.0[key.project].causes.tasks.contains(key)
                &&& {
                    ||| after.1[key].causes.other
                    ||| exists|name: Seq<char>| #[trigger]
                        after.1[key].causes.env.contains(name) && task.input_env.contains(name)
                            && inputs.env.contains(name)
                    ||| exists|file: SourcePathView| #[trigger]
                        after.1[key].causes.files.contains(file) && known.files.dom().contains(file)
                            && is_input(inputs, key, file.path)
                }
            }
            &&& !task_is_touched(tracker, inputs, key) && after.0.dom().contains(key.project) && !(
            before.0.dom().contains(key.project) && before.0[key.project].causes.tasks.contains(
                key,
            )) ==> !after.0[key.project].causes.tasks.contains(key)
        }),
{
    let keys = arranged::<TaskKey>(tracker.tasks.nodes.dom());
    task_keys_are_all(tracker.tasks);
    looking_keeps_causes(tracker, inputs, keys, before);
    a_touched_task_has_a_cause(tracker, inputs, key);
    assert(keys.contains(key));
    let after = fold(keys, before, track_task(tracker, inputs));
    assert(task_cause_is_kept(tracker, inputs, key, after.1));
}

/// Before anything is looked at, nothing is affected; dependencies are followed as far as they
/// go, and dependents not at all. Every source root has an observation: what was reported of
/// it, and where nothing was, that nothing is known.
pub proof fn trackers_start_from_what_is_known(
    projects: ProjectGraphView,
    tasks: TaskGraphView,
    observations: Observations,
    roots: Set<Seq<char>>,
    id: Seq<char>,
)
    ensures
        ({
            let tracker = fresh_tracker(projects, tasks, observations, roots);
            &&& forall|key: ProjectKeyView| !(#[trigger] tracker.affected.projects.dom().contains(
                key,
            ))
            &&& forall|key: TaskKeyView| !(#[trigger] tracker.affected.tasks.dom().contains(key))
            &&& !tracker.ci
            &&& tracker.project_upstream == RelationScope::Deep
            &&& tracker.task_upstream == RelationScope::Deep
            &&& tracker.project_downstream == RelationScope::Nothing
            &&& tracker.task_downstream == RelationScope::Nothing
            &&& observations.dom().contains(id) ==> tracker.observations.dom().contains(id)
                && tracker.observations[id] == observations[id]
            &&& roots.contains(id) && !observations.dom().contains(id)
                ==> tracker.observations.dom().contains(id)
                && tracker.observations[id].completeness == ImpactCompleteness::Unavailable
            &&& tracker.observations.dom().contains(id) ==> observations.dom().contains(id)
                || roots.contains(id)
            &&& tracker.affected.completeness == ImpactCompleteness::Unavailable <==> exists|
                other: Seq<char>,
            | #[trigger]
                tracker.observations.dom().contains(other)
                    && tracker.observations[other].completeness == ImpactCompleteness::Unavailable
            &&& tracker.affected.completeness == ImpactCompleteness::Exact <==> forall|
                other: Seq<char>,
            | #[trigger]
                tracker.observations.dom().contains(other)
                    ==> tracker.observations[other].completeness == ImpactCompleteness::Exact
        }),
{
    let tracker = fresh_tracker(projects, tasks, observations, roots);
    let known = tracker.observations;
    assert(known == complete_observations(observations, roots));
    assert forall|other: Seq<char>| #[trigger]
        known.dom().contains(other) && known[other].completeness
            != ImpactCompleteness::Exact implies tracker.affected.completeness
        != ImpactCompleteness::Exact by {
        assert(crate::affected_tracker::some_source_is(known, known[other].completeness));
    }
    if tracker.affected.completeness == ImpactCompleteness::Conservative {
        let other = choose|other: Seq<char>| #[trigger]
            known.dom().contains(other) && known[other].completeness
                == ImpactCompleteness::Conservative;
        assert(known[other].completeness != ImpactCompleteness::Exact);
    }
    if tracker.affected.completeness == ImpactCompleteness::Unavailable {
        let other = choose|other: Seq<char>| #[trigger]
            known.dom().contains(other) && known[other].completeness
                == ImpactCompleteness::Unavailable;
        assert(known[other].completeness != ImpactCompleteness::Exact);
    }
}

/// What was found is to be checked exactly where some source root has a change, or where its
/// changes are not known exactly. Nothing else of what was found changes.
pub proof fn checks_are_due_where_something_changed(tracker: TrackerView)
    requires
        observations_are_finite(tracker.observations),
    ensures
        affected_so_far(tracker).should_check <==> exists|id: Seq<char>| #[trigger]
            tracker.observations.dom().contains(id) && {
                ||| tracker.observations[id].completeness != ImpactCompleteness::Exact
                ||| exists|file: SourcePathView| #[trigger]
                    tracker.observations[id].files.dom().contains(file)
            },
        affected_so_far(tracker).projects == tracker.affected.projects,
        affected_so_far(tracker).tasks == tracker.affected.tasks,
        affected_so_far(tracker).completeness == tracker.affected.completeness,
        affected_so_far(tracker).diagnostics == tracker.affected.diagnostics,
{
    let known = tracker.observations;
    assert forall|id: Seq<char>| #[trigger] known.dom().contains(id) implies (
    known[id].files.dom().len() > 0 <==> exists|file: SourcePathView| #[trigger]
        known[id].files.dom().contains(file)) by {
        let files = known[id].files.dom();
        if files.len() > 0 {
            assert(files.contains(files.choose()));
        }
        if exists|file: SourcePathView| #[trigger] files.contains(file) {
            let file = choose|file: SourcePathView| #[trigger] files.contains(file);
            vstd::set_lib::lemma_set_empty_equivalency_len(files);
        }
    }
    assert(has_changes(known) <==> exists|id: Seq<char>| #[trigger]
        known.dom().contains(id) && (known[id].completeness != ImpactCompleteness::Exact || exists|
            file: SourcePathView,
        | #[trigger]
            known[id].files.dom().contains(file)));
}

/// What a project says of why it changed is not forgotten.
pub open spec fn keeps_project_causes(before: ProjectStates, after: ProjectStates) -> bool {
    forall|key: ProjectKeyView| #[trigger]
        before.dom().contains(key) ==> {
            &&& after.dom().contains(key)
            &&& before[key].causes.other ==> after[key].causes.other
            &&& before[key].causes.files.subset_of(after[key].causes.files)
        }
}

proof fn looking_keeps_project_causes(
    tracker: TrackerView,
    keys: Seq<ProjectKeyView>,
    before: ProjectStates,
)
    ensures
        keeps_project_causes(before, fold(keys, before, track_project(tracker))),
        forall|i: int|
            0 <= i < keys.len() ==> match project_cause(
                tracker.projects,
                tracker.observations,
                #[trigger] keys[i],
            ) {
                None => true,
                Some(cause) => project_says(
                    fold(keys, before, track_project(tracker)),
                    keys[i],
                    cause,
                ),
            },
    decreases keys.len(),
{
    if keys.len() > 0 {
        let rest = keys.drop_last();
        let last = keys.len() - 1;
        let key = keys.last();
        assert(keys[last] == key);
        looking_keeps_project_causes(tracker, rest, before);
        let seen = fold(rest, before, track_project(tracker));
        let after = fold(keys, before, track_project(tracker));
        assert(after == track_project(tracker)(seen, key));
        assert(keeps_project_causes(seen, after));
        assert forall|i: int| 0 <= i < keys.len() implies match project_cause(
            tracker.projects,
            tracker.observations,
            #[trigger] keys[i],
        ) {
            None => true,
            Some(cause) => project_says(after, keys[i], cause),
        } by {
            if i < last {
                assert(rest[i] == keys[i]);
            }
        }
    }
}

/// A project says that a cause is why it changed.
pub open spec fn project_says(
    states: ProjectStates,
    key: ProjectKeyView,
    cause: ProjectCause,
) -> bool {
    &&& states.dom().contains(key)
    &&& match cause {
        ProjectCause::Unavailable => states[key].causes.other,
        ProjectCause::File(file) => states[key].causes.files.contains(file),
    }
}

/// A project that changed says why: that its changes are not known, or a file that changed in
/// it.
pub proof fn changed_projects_say_why(
    tracker: TrackerView,
    before: ProjectStates,
    key: ProjectKeyView,
)
    requires
        projects_are_numbered(tracker.projects),
        observations_are_finite(tracker.observations),
        project_is_touched(tracker, key),
    ensures
        ({
            let after = fold(
                keys_in_order(tracker.projects.nodes),
                before,
                track_project(tracker),
            );
            &&& after.dom().contains(key)
            &&& {
                ||| after[key].causes.other
                ||| exists|file: SourcePathView| #[trigger]
                    after[key].causes.files.contains(file)
                        && tracker.observations[key.source].files.dom().contains(file)
                        && lies_in_project(tracker.projects.nodes[key].project.source, file.path)
            }
        }),
{
    let keys = keys_in_order(tracker.projects.nodes);
    project_keys_are_all(tracker.projects);
    looking_keeps_project_causes(tracker, keys, before);
    a_touched_project_has_a_cause(tracker, key);
    assert(keys.contains(key));
    let i = choose|i: int| 0 <= i < keys.len() && keys[i] == key;
    assert(keys[i] == key);
}

} // verus!
