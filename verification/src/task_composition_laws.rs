//! What holds of every composed task graph.

use crate::config::{scope_of_label, DependencyScope};
use crate::fold::try_fold;
use crate::graph::{edges_within, has_edge, is_last_edge};
use crate::keys::{task_key_text, ProjectKeyView, TaskKey, TaskKeyView};
use crate::order::{arranged, arranged_holds, ranked, ranked_same_items};
use crate::project_graph::{normal_key, unexpanded, ProjectGraphView};
use crate::project_queries::scoped_dependencies;
use crate::task::{
    dependency_fault, ProjectSelector, TaskDependencyValidationError, TaskDependencyView,
    TaskOptionRunInCI, TaskOptions, TaskSelector, TaskView,
};
use crate::task_compose::{
    add_configured, add_selected, add_source, add_task, add_task_dependencies, add_task_edge,
    assemble_tasks, composed_tasks, dependency_selector, depends_in, empty_tasks, link_edge,
    link_edges, project_task_edges, requirement_fault, selected_tasks, task_keys_rank,
    tasks_composable, tasks_valid, TaskAssemblyView, TaskEdge, TaskEdgeView,
};
use crate::task_graph::{link_task, TaskGraph, TaskGraphFault, TaskGraphView, TaskNodeView};
use vstd::prelude::*;

verus! {

/// A task may run in continuous integration.
pub open spec fn runs_in_ci(task: TaskOptions) -> bool {
    match task.run_in_ci {
        TaskOptionRunInCI::Enabled(enabled) => enabled,
        TaskOptionRunInCI::Skip => false,
        TaskOptionRunInCI::Always => true,
        TaskOptionRunInCI::Affected => true,
        TaskOptionRunInCI::Only => true,
    }
}

/// A task may depend on another: on none that may fail, on none that never runs where the task
/// does, and on one that never ends only where the task never ends itself.
pub open spec fn may_depend(task: TaskOptions, dependency: TaskOptions) -> bool {
    &&& !dependency.allow_failure
    &&& runs_in_ci(task) ==> dependency.run_in_ci != TaskOptionRunInCI::Enabled(false)
    &&& dependency.persistent ==> task.persistent
}

/// A dependency is refused exactly where it is not allowed, and each reason is one that holds.
pub proof fn refused_dependencies_are_not_allowed(task: TaskOptions, dependency: TaskOptions)
    ensures
        dependency_fault(task, dependency) is None <==> may_depend(task, dependency),
        dependency_fault(task, dependency) == Some(TaskDependencyValidationError::AllowFailure)
            <==> dependency.allow_failure,
        dependency_fault(task, dependency) == Some(TaskDependencyValidationError::RunInCi) ==> {
            &&& runs_in_ci(task)
            &&& dependency.run_in_ci == TaskOptionRunInCI::Enabled(false)
        },
        dependency_fault(task, dependency) == Some(TaskDependencyValidationError::Persistent) ==> {
            &&& dependency.persistent
            &&& !task.persistent
        },
{
}

/// A project depends on another, in a scope where one is asked for.
pub open spec fn project_depends(
    projects: ProjectGraphView,
    from: ProjectKeyView,
    to: ProjectKeyView,
    scope: Option<DependencyScope>,
) -> bool {
    let start = projects.nodes[normal_key(projects, from)].index;
    exists|i: int|
        0 <= i < projects.graph.edges.len() && (#[trigger] projects.graph.edges[i]).0 == start
            && projects.indexes[projects.graph.edges[i].1 as int] == to && (scope is None || scope
            == Some(scope_of_label(projects.graph.edges[i].2)))
}

/// A configured dependency of a task selects another task: of a project that its project
/// depends on, in the scope where the dependency names one, and by identifier or by tag.
pub open spec fn selects(
    projects: ProjectGraphView,
    nodes: Map<TaskKeyView, TaskNodeView>,
    source: TaskKeyView,
    dep: TaskDependencyView,
    target: TaskKeyView,
) -> bool {
    &&& nodes.dom().contains(target)
    &&& match dep.target.project {
        ProjectSelector::Deps => project_depends(projects, source.project, target.project, None),
        ProjectSelector::DepsOf(scope) => project_depends(
            projects,
            source.project,
            target.project,
            Some(scope),
        ),
        _ => false,
    }
    &&& match dep.target.task {
        TaskSelector::Id(id) => nodes[target].task.id == id,
        TaskSelector::Tag(tag) => exists|i: int|
            0 <= i < nodes[target].task.tags.len() && #[trigger] nodes[target].task.tags[i] == tag,
    }
}

/// Some configured dependency of a task selects another.
pub open spec fn is_selected(
    projects: ProjectGraphView,
    nodes: Map<TaskKeyView, TaskNodeView>,
    source: TaskKeyView,
    target: TaskKeyView,
) -> bool {
    &&& nodes.dom().contains(source)
    &&& exists|d: int|
        0 <= d < nodes[source].task.configured_deps.len() && selects(
            projects,
            nodes,
            source,
            #[trigger] nodes[source].task.configured_deps[d],
            target,
        )
}

proof fn scoped_are_edges(
    graph: ProjectGraphView,
    edges: Seq<(usize, usize, u8)>,
    index: usize,
    required: Option<DependencyScope>,
    project: ProjectKeyView,
)
    ensures
        depends_in(scoped_dependencies(graph, edges, index), required, project) <==> exists|i: int|
            0 <= i < edges.len() && (#[trigger] edges[i]).0 == index
                && graph.indexes[edges[i].1 as int] == project && (required is None || required
                == Some(scope_of_label(edges[i].2))),
    decreases edges.len(),
{
    let list = scoped_dependencies(graph, edges, index);
    if edges.len() > 0 {
        let rest = edges.drop_last();
        let before = scoped_dependencies(graph, rest, index);
        scoped_are_edges(graph, rest, index, required, project);
        let last = edges.last();
        if depends_in(list, required, project) {
            let i = choose|i: int|
                0 <= i < list.len() && (#[trigger] list[i]).0 == project && (required is None
                    || required == Some(list[i].1));
            if i < before.len() {
                assert(before[i] == list[i]);
                assert(depends_in(before, required, project));
                let j = choose|j: int|
                    0 <= j < rest.len() && (#[trigger] rest[j]).0 == index
                        && graph.indexes[rest[j].1 as int] == project && (required is None
                        || required == Some(scope_of_label(rest[j].2)));
                assert(edges[j] == rest[j]);
            } else {
                assert(edges[edges.len() - 1].0 == index);
            }
        }
        if exists|i: int|
            0 <= i < edges.len() && (#[trigger] edges[i]).0 == index
                && graph.indexes[edges[i].1 as int] == project && (required is None || required
                == Some(scope_of_label(edges[i].2))) {
            let i = choose|i: int|
                0 <= i < edges.len() && (#[trigger] edges[i]).0 == index
                    && graph.indexes[edges[i].1 as int] == project && (required is None || required
                    == Some(scope_of_label(edges[i].2)));
            if i < rest.len() {
                assert(rest[i] == edges[i]);
                assert(depends_in(before, required, project));
                let j = choose|j: int|
                    0 <= j < before.len() && (#[trigger] before[j]).0 == project && (
                    required is None || required == Some(before[j].1));
                assert(list[j] == before[j]);
            } else {
                assert(list.last() == (project, scope_of_label(last.2)));
                assert(list[list.len() - 1].0 == project);
            }
        }
    }
}

/// The tasks that a dependency selects, in order, are those that it selects.
proof fn matches_are_selected(
    projects: ProjectGraphView,
    nodes: Map<TaskKeyView, TaskNodeView>,
    source: TaskKeyView,
    dep: TaskDependencyView,
)
    requires
        nodes.dom().finite(),
        dependency_selector(dep.target.project) is Some,
    ensures
        ({
            let matches = arranged::<TaskKey>(
                selected_tasks(
                    nodes,
                    scoped_dependencies(
                        projects,
                        projects.graph.edges,
                        projects.nodes[normal_key(projects, source.project)].index,
                    ),
                    dependency_selector(dep.target.project)->0,
                    dep.target.task,
                ),
            );
            forall|target: TaskKeyView| #[trigger]
                matches.contains(target) <==> selects(projects, nodes, source, dep, target)
        }),
{
    let start = projects.nodes[normal_key(projects, source.project)].index;
    let dependencies = scoped_dependencies(projects, projects.graph.edges, start);
    let required = dependency_selector(dep.target.project)->0;
    let chosen = selected_tasks(nodes, dependencies, required, dep.target.task);
    assert(chosen.subset_of(nodes.dom()));
    vstd::set_lib::lemma_set_subset_finite(nodes.dom(), chosen);
    task_keys_rank();
    arranged_holds::<TaskKey>(chosen);
    let matches = arranged::<TaskKey>(chosen);
    assert forall|target: TaskKeyView| #[trigger] matches.contains(target) <==> selects(
        projects,
        nodes,
        source,
        dep,
        target,
    ) by {
        scoped_are_edges(projects, projects.graph.edges, start, required, target.project);
        assert(matches.contains(target) <==> chosen.contains(target));
        if let TaskSelector::Tag(tag) = dep.target.task {
            let tags = nodes[target].task.tags;
            if tags.contains(tag) {
                let i = choose|i: int| 0 <= i < tags.len() && tags[i] == tag;
                assert(tags[i] == tag);
            }
        }
    }
}

/// A dependency that a selector makes is one that some configured dependency selects, is
/// allowed, and is optional only where that one is.
pub open spec fn edge_is_selected(
    projects: ProjectGraphView,
    nodes: Map<TaskKeyView, TaskNodeView>,
    edge: TaskEdgeView,
) -> bool {
    &&& nodes.dom().contains(edge.source)
    &&& nodes.dom().contains(edge.target)
    &&& may_depend(nodes[edge.source].task.options, nodes[edge.target].task.options)
    &&& exists|d: int|
        0 <= d < nodes[edge.source].task.configured_deps.len() && selects(
            projects,
            nodes,
            edge.source,
            #[trigger] nodes[edge.source].task.configured_deps[d],
            edge.target,
        ) && edge.label == (if nodes[edge.source].task.configured_deps[d].optional == Some(true) {
            0u8
        } else {
            1u8
        })
}

/// A refusal names a task and a dependency that a selector makes, and the reason holds.
pub open spec fn refusal_holds(
    projects: ProjectGraphView,
    nodes: Map<TaskKeyView, TaskNodeView>,
    fault: TaskGraphFault,
) -> bool {
    match fault {
        TaskGraphFault::PersistentDepRequirement { dep, task } => exists|
            source: TaskKeyView,
            target: TaskKeyView,
        |
            {
                &&& #[trigger] is_selected(projects, nodes, source, target)
                &&& dep == task_key_text(target)
                &&& task == task_key_text(source)
                &&& nodes[target].task.options.persistent
                &&& !nodes[source].task.options.persistent
            },
        TaskGraphFault::AllowFailureDepRequirement { dep, task } => exists|
            source: TaskKeyView,
            target: TaskKeyView,
        |
            {
                &&& #[trigger] is_selected(projects, nodes, source, target)
                &&& dep == task_key_text(target)
                &&& task == task_key_text(source)
                &&& nodes[target].task.options.allow_failure
            },
        TaskGraphFault::RunInCiDepRequirement { dep, task } => exists|
            source: TaskKeyView,
            target: TaskKeyView,
        |
            {
                &&& #[trigger] is_selected(projects, nodes, source, target)
                &&& dep == task_key_text(target)
                &&& task == task_key_text(source)
                &&& nodes[target].task.options.run_in_ci == TaskOptionRunInCI::Enabled(false)
                &&& runs_in_ci(nodes[source].task.options)
            },
        TaskGraphFault::UnknownDepTargetParentScope { dep, task } => exists|
            source: TaskKeyView,
            d: int,
        |
            {
                &&& nodes.dom().contains(source)
                &&& 0 <= d < nodes[source].task.configured_deps.len()
                &&& #[trigger] nodes[source].task.configured_deps[d].optional == Some(false)
                &&& dep == crate::task::target_text(nodes[source].task.configured_deps[d].target)
                &&& task == task_key_text(source)
                &&& forall|target: TaskKeyView| !(#[trigger] selects(
                    projects,
                    nodes,
                    source,
                    nodes[source].task.configured_deps[d],
                    target,
                ))
            },
        _ => true,
    }
}

proof fn selected_are_added(
    projects: ProjectGraphView,
    nodes: Map<TaskKeyView, TaskNodeView>,
    source: TaskKeyView,
    label: u8,
    matches: Seq<TaskKeyView>,
    edges: Seq<TaskEdgeView>,
)
    ensures
        match try_fold(matches, edges, add_selected(nodes, source, label)) {
            Ok(more) => {
                &&& more == edges + matches.map_values(
                    |target: TaskKeyView| TaskEdgeView { source, target, label },
                )
                &&& forall|i: int|
                    0 <= i < matches.len() ==> may_depend(
                        nodes[source].task.options,
                        nodes[#[trigger] matches[i]].task.options,
                    )
            },
            Err(fault) => exists|i: int|
                {
                    &&& 0 <= i < matches.len()
                    &&& dependency_fault(
                        nodes[source].task.options,
                        nodes[#[trigger] matches[i]].task.options,
                    ) is Some
                    &&& fault == requirement_fault(
                        dependency_fault(
                            nodes[source].task.options,
                            nodes[matches[i]].task.options,
                        )->0,
                        task_key_text(matches[i]),
                        task_key_text(source),
                    )
                },
        },
    decreases matches.len(),
{
    let step = add_selected(nodes, source, label);
    let make = |target: TaskKeyView| TaskEdgeView { source, target, label };
    if matches.len() == 0 {
        assert(edges + matches.map_values(make) =~= edges);
    } else {
        let rest = matches.drop_last();
        let last = matches.last();
        selected_are_added(projects, nodes, source, label, rest, edges);
        assert(matches[matches.len() - 1] == last);
        match try_fold(rest, edges, step) {
            Ok(before) => {
                refused_dependencies_are_not_allowed(
                    nodes[source].task.options,
                    nodes[last].task.options,
                );
                if may_depend(nodes[source].task.options, nodes[last].task.options) {
                    assert(edges + matches.map_values(make) =~= before.push(make(last)));
                    assert forall|i: int| 0 <= i < matches.len() implies may_depend(
                        nodes[source].task.options,
                        nodes[#[trigger] matches[i]].task.options,
                    ) by {
                        if i < rest.len() {
                            assert(rest[i] == matches[i]);
                        }
                    }
                }
            },
            Err(fault) => {
                let i = choose|i: int|
                    {
                        &&& 0 <= i < rest.len()
                        &&& dependency_fault(
                            nodes[source].task.options,
                            nodes[#[trigger] rest[i]].task.options,
                        ) is Some
                        &&& fault == requirement_fault(
                            dependency_fault(
                                nodes[source].task.options,
                                nodes[rest[i]].task.options,
                            )->0,
                            task_key_text(rest[i]),
                            task_key_text(source),
                        )
                    };
                assert(matches[i] == rest[i]);
            },
        }
    }
}

/// An edge between two tasks is among others.
pub open spec fn links(edges: Seq<TaskEdgeView>, source: TaskKeyView, target: TaskKeyView) -> bool {
    exists|i: int|
        0 <= i < edges.len() && (#[trigger] edges[i]).source == source && edges[i].target == target
}

/// An edge between two tasks that is required is among others.
pub open spec fn requires_link(
    edges: Seq<TaskEdgeView>,
    source: TaskKeyView,
    target: TaskKeyView,
) -> bool {
    exists|i: int|
        0 <= i < edges.len() && (#[trigger] edges[i]).source == source && edges[i].target == target
            && edges[i].label == 1
}

proof fn links_stay(
    few: Seq<TaskEdgeView>,
    many: Seq<TaskEdgeView>,
    source: TaskKeyView,
    target: TaskKeyView,
)
    requires
        few.len() <= many.len(),
        forall|i: int| 0 <= i < few.len() ==> #[trigger] many[i] == few[i],
    ensures
        links(few, source, target) ==> links(many, source, target),
        requires_link(few, source, target) ==> requires_link(many, source, target),
{
    if links(few, source, target) {
        let i = choose|i: int|
            0 <= i < few.len() && (#[trigger] few[i]).source == source && few[i].target == target;
        assert(many[i] == few[i]);
    }
    if requires_link(few, source, target) {
        let i = choose|i: int|
            0 <= i < few.len() && (#[trigger] few[i]).source == source && few[i].target == target
                && few[i].label == 1;
        assert(many[i] == few[i]);
    }
}

/// One configured dependency adds an edge to everything that it selects, and no other.
proof fn one_configured_adds(
    projects: ProjectGraphView,
    nodes: Map<TaskKeyView, TaskNodeView>,
    source: TaskKeyView,
    d: int,
    edges: Seq<TaskEdgeView>,
)
    requires
        nodes.dom().finite(),
        nodes.dom().contains(source),
        0 <= d < nodes[source].task.configured_deps.len(),
    ensures
        ({
            let dep = nodes[source].task.configured_deps[d];
            match add_configured(projects, nodes, source)(edges, dep) {
                Ok(more) => {
                    &&& edges.len() <= more.len()
                    &&& forall|i: int| 0 <= i < edges.len() ==> #[trigger] more[i] == edges[i]
                    &&& forall|i: int|
                        edges.len() <= i < more.len() ==> edge_is_selected(
                            projects,
                            nodes,
                            #[trigger] more[i],
                        )
                    &&& forall|target: TaskKeyView| #[trigger]
                        selects(projects, nodes, source, dep, target) ==> links(
                            more,
                            source,
                            target,
                        ) && (dep.optional != Some(true) ==> requires_link(more, source, target))
                },
                Err(fault) => refusal_holds(projects, nodes, fault),
            }
        }),
{
    let dep = nodes[source].task.configured_deps[d];
    if dependency_selector(dep.target.project) is Some && unexpanded(
        projects,
        source.project,
    ) is Ok {
        matches_are_selected(projects, nodes, source, dep);
        let matches = arranged::<TaskKey>(
            selected_tasks(
                nodes,
                scoped_dependencies(
                    projects,
                    projects.graph.edges,
                    projects.nodes[normal_key(projects, source.project)].index,
                ),
                dependency_selector(dep.target.project)->0,
                dep.target.task,
            ),
        );
        let label: u8 = if dep.optional == Some(true) {
            0
        } else {
            1
        };
        if matches.len() == 0 && dep.optional == Some(false) {
            assert forall|target: TaskKeyView| !(#[trigger] selects(
                projects,
                nodes,
                source,
                dep,
                target,
            )) by {
                assert(!matches.contains(target));
            }
            assert(nodes[source].task.configured_deps[d].optional == Some(false));
        } else {
            selected_are_added(projects, nodes, source, label, matches, edges);
            match try_fold(matches, edges, add_selected(nodes, source, label)) {
                Ok(more) => {
                    assert forall|i: int| edges.len() <= i < more.len() implies edge_is_selected(
                        projects,
                        nodes,
                        #[trigger] more[i],
                    ) by {
                        let target = matches[i - edges.len()];
                        assert(more[i] == TaskEdgeView { source, target, label });
                        assert(matches.contains(target));
                        assert(selects(
                            projects,
                            nodes,
                            source,
                            nodes[source].task.configured_deps[d],
                            target,
                        ));
                    }
                    assert forall|target: TaskKeyView| #[trigger]
                        selects(projects, nodes, source, dep, target) implies links(
                        more,
                        source,
                        target,
                    ) && (dep.optional != Some(true) ==> requires_link(more, source, target)) by {
                        assert(matches.contains(target));
                        let k = choose|k: int| 0 <= k < matches.len() && matches[k] == target;
                        assert(more[edges.len() + k] == TaskEdgeView { source, target, label });
                    }
                },
                Err(fault) => {
                    let i = choose|i: int|
                        {
                            &&& 0 <= i < matches.len()
                            &&& dependency_fault(
                                nodes[source].task.options,
                                nodes[#[trigger] matches[i]].task.options,
                            ) is Some
                            &&& fault == requirement_fault(
                                dependency_fault(
                                    nodes[source].task.options,
                                    nodes[matches[i]].task.options,
                                )->0,
                                task_key_text(matches[i]),
                                task_key_text(source),
                            )
                        };
                    let target = matches[i];
                    assert(matches.contains(target));
                    assert(selects(
                        projects,
                        nodes,
                        source,
                        nodes[source].task.configured_deps[d],
                        target,
                    ));
                    assert(is_selected(projects, nodes, source, target));
                    refused_dependencies_are_not_allowed(
                        nodes[source].task.options,
                        nodes[target].task.options,
                    );
                },
            }
        }
    } else if dependency_selector(dep.target.project) is None {
        assert forall|target: TaskKeyView| !(#[trigger] selects(
            projects,
            nodes,
            source,
            dep,
            target,
        )) by {}
    }
}

proof fn configured_add(
    projects: ProjectGraphView,
    nodes: Map<TaskKeyView, TaskNodeView>,
    source: TaskKeyView,
    n: int,
    edges: Seq<TaskEdgeView>,
)
    requires
        nodes.dom().finite(),
        nodes.dom().contains(source),
        0 <= n <= nodes[source].task.configured_deps.len(),
    ensures
        ({
            let deps = nodes[source].task.configured_deps;
            match try_fold(deps.take(n), edges, add_configured(projects, nodes, source)) {
                Ok(more) => {
                    &&& edges.len() <= more.len()
                    &&& forall|i: int| 0 <= i < edges.len() ==> #[trigger] more[i] == edges[i]
                    &&& forall|i: int|
                        edges.len() <= i < more.len() ==> edge_is_selected(
                            projects,
                            nodes,
                            #[trigger] more[i],
                        )
                    &&& forall|d: int, target: TaskKeyView|
                        0 <= d < n && #[trigger] selects(
                            projects,
                            nodes,
                            source,
                            deps[d],
                            target,
                        ) ==> links(more, source, target) && (deps[d].optional != Some(true)
                            ==> requires_link(more, source, target))
                },
                Err(fault) => refusal_holds(projects, nodes, fault),
            }
        }),
    decreases n,
{
    let deps = nodes[source].task.configured_deps;
    let step = add_configured(projects, nodes, source);
    if n > 0 {
        configured_add(projects, nodes, source, n - 1, edges);
        crate::fold::try_fold_step(deps, edges, step, n - 1);
        if let Ok(before) = try_fold(deps.take(n - 1), edges, step) {
            one_configured_adds(projects, nodes, source, n - 1, before);
            if let Ok(more) = step(before, deps[n - 1]) {
                assert forall|i: int| 0 <= i < edges.len() implies #[trigger] more[i]
                    == edges[i] by {
                    assert(more[i] == before[i]);
                }
                assert forall|i: int| edges.len() <= i < more.len() implies edge_is_selected(
                    projects,
                    nodes,
                    #[trigger] more[i],
                ) by {
                    if i < before.len() {
                        assert(more[i] == before[i]);
                        assert(edge_is_selected(projects, nodes, before[i]));
                    }
                }
                assert forall|d: int, target: TaskKeyView|
                    0 <= d < n && #[trigger] selects(
                        projects,
                        nodes,
                        source,
                        deps[d],
                        target,
                    ) implies links(more, source, target) && (deps[d].optional != Some(true)
                    ==> requires_link(more, source, target)) by {
                    if d < n - 1 {
                        links_stay(before, more, source, target);
                    }
                }
            }
        }
    } else {
        assert(deps.take(0) =~= Seq::empty());
    }
}

proof fn all_tasks_add(
    projects: ProjectGraphView,
    nodes: Map<TaskKeyView, TaskNodeView>,
    keys: Seq<TaskKeyView>,
)
    requires
        nodes.dom().finite(),
        forall|i: int| 0 <= i < keys.len() ==> nodes.dom().contains(#[trigger] keys[i]),
    ensures
        match try_fold(keys, Seq::empty(), add_task_dependencies(projects, nodes)) {
            Ok(more) => {
                &&& forall|i: int|
                    0 <= i < more.len() ==> edge_is_selected(projects, nodes, #[trigger] more[i])
                &&& forall|source: TaskKeyView, d: int, target: TaskKeyView|
                    keys.contains(source) && 0 <= d < nodes[source].task.configured_deps.len()
                        && #[trigger] selects(
                        projects,
                        nodes,
                        source,
                        nodes[source].task.configured_deps[d],
                        target,
                    ) ==> links(more, source, target) && (
                    nodes[source].task.configured_deps[d].optional != Some(true) ==> requires_link(
                        more,
                        source,
                        target,
                    ))
            },
            Err(fault) => refusal_holds(projects, nodes, fault),
        },
    decreases keys.len(),
{
    let step = add_task_dependencies(projects, nodes);
    if keys.len() > 0 {
        let rest = keys.drop_last();
        let last = keys.last();
        assert(keys[keys.len() - 1] == last);
        assert forall|i: int| 0 <= i < rest.len() implies nodes.dom().contains(
            #[trigger] rest[i],
        ) by {
            assert(rest[i] == keys[i]);
        }
        all_tasks_add(projects, nodes, rest);
        if let Ok(before) = try_fold(rest, Seq::empty(), step) {
            let deps = nodes[last].task.configured_deps;
            configured_add(projects, nodes, last, deps.len() as int, before);
            assert(deps.take(deps.len() as int) =~= deps);
            if let Ok(more) = step(before, last) {
                assert forall|i: int| 0 <= i < more.len() implies edge_is_selected(
                    projects,
                    nodes,
                    #[trigger] more[i],
                ) by {
                    if i < before.len() {
                        assert(more[i] == before[i]);
                        assert(edge_is_selected(projects, nodes, before[i]));
                    }
                }
                assert forall|source: TaskKeyView, d: int, target: TaskKeyView|
                    keys.contains(source) && 0 <= d < nodes[source].task.configured_deps.len()
                        && #[trigger] selects(
                        projects,
                        nodes,
                        source,
                        nodes[source].task.configured_deps[d],
                        target,
                    ) implies links(more, source, target) && (
                nodes[source].task.configured_deps[d].optional != Some(true) ==> requires_link(
                    more,
                    source,
                    target,
                )) by {
                    let k = choose|k: int| 0 <= k < keys.len() && keys[k] == source;
                    if k < rest.len() {
                        assert(rest[k] == source);
                        assert(rest.contains(source));
                        links_stay(before, more, source, target);
                    } else {
                        assert(source == last);
                        assert(selects(projects, nodes, last, deps[d], target));
                    }
                }
            }
        }
    }
}

/// The dependencies that selectors make: each is allowed and selected, everything that is
/// selected is there, and what is refused is refused for a reason that holds.
pub proof fn selectors_make_allowed_dependencies(
    projects: ProjectGraphView,
    nodes: Map<TaskKeyView, TaskNodeView>,
)
    requires
        nodes.dom().finite(),
    ensures
        match project_task_edges(projects, nodes) {
            Ok(more) => {
                &&& forall|i: int|
                    0 <= i < more.len() ==> edge_is_selected(projects, nodes, #[trigger] more[i])
                &&& forall|source: TaskKeyView, target: TaskKeyView| #[trigger]
                    is_selected(projects, nodes, source, target) ==> links(more, source, target)
                        && may_depend(
                        nodes[source].task.options,
                        nodes[target].task.options,
                    )
            },
            Err(fault) => refusal_holds(projects, nodes, fault),
        },
{
    let keys = arranged::<TaskKey>(nodes.dom());
    task_keys_rank();
    arranged_holds::<TaskKey>(nodes.dom());
    assert forall|i: int| 0 <= i < keys.len() implies nodes.dom().contains(#[trigger] keys[i]) by {
        assert(keys.contains(keys[i]));
    }
    all_tasks_add(projects, nodes, keys);
    if let Ok(more) = project_task_edges(projects, nodes) {
        assert forall|source: TaskKeyView, target: TaskKeyView| #[trigger]
            is_selected(projects, nodes, source, target) implies links(more, source, target)
            && may_depend(nodes[source].task.options, nodes[target].task.options) by {
            let d = choose|d: int|
                0 <= d < nodes[source].task.configured_deps.len() && selects(
                    projects,
                    nodes,
                    source,
                    #[trigger] nodes[source].task.configured_deps[d],
                    target,
                );
            assert(keys.contains(source));
            assert(links(more, source, target));
            let i = choose|i: int|
                0 <= i < more.len() && (#[trigger] more[i]).source == source && more[i].target
                    == target;
            assert(edge_is_selected(projects, nodes, more[i]));
        }
    }
}

/// Every task of what was put together has a number of its own, under which its key is listed.
pub open spec fn assembly_is_numbered(assembly: TaskAssemblyView) -> bool {
    &&& forall|i: int|
        0 <= i < assembly.indexes.len() ==> assembly.nodes.dom().contains(
            #[trigger] assembly.indexes[i],
        ) && assembly.nodes[assembly.indexes[i]].index == i
    &&& forall|key: TaskKeyView| #[trigger]
        assembly.nodes.dom().contains(key) ==> assembly.nodes[key].index < assembly.indexes.len()
            && assembly.indexes[assembly.nodes[key].index as int] == key
    &&& assembly.nodes.dom().finite()
}

proof fn tasks_are_put_in(
    keys: Seq<TaskKeyView>,
    start: TaskAssemblyView,
    nodes: Map<TaskKeyView, TaskNodeView>,
)
    requires
        assembly_is_numbered(start),
        try_fold(keys, start, add_task(nodes)) is Ok,
        try_fold(keys, start, add_task(nodes))->Ok_0.indexes.len() <= u32::MAX,
    ensures
        ({
            let after = try_fold(keys, start, add_task(nodes))->Ok_0;
            &&& assembly_is_numbered(after)
            &&& start.indexes.len() <= after.indexes.len()
            &&& after.edges == start.edges
            &&& after.contexts == start.contexts
            &&& forall|key: TaskKeyView| #[trigger]
                after.nodes.dom().contains(key) <==> start.nodes.dom().contains(key)
                    || keys.contains(key)
            &&& forall|key: TaskKeyView| #[trigger]
                start.nodes.dom().contains(key) ==> after.nodes[key] == start.nodes[key]
                    && !keys.contains(key)
            &&& forall|key: TaskKeyView| #[trigger]
                keys.contains(key) ==> after.nodes[key].task == nodes[key].task
        }),
    decreases keys.len(),
{
    let step = add_task(nodes);
    if keys.len() > 0 {
        let rest = keys.drop_last();
        let last = keys.last();
        let before = try_fold(rest, start, step)->Ok_0;
        let after = try_fold(keys, start, step)->Ok_0;
        tasks_are_put_in(rest, start, nodes);
        assert forall|key: TaskKeyView| keys.contains(key) <==> rest.contains(key) || key
            == last by {
            if keys.contains(key) {
                let i = choose|i: int| 0 <= i < keys.len() && keys[i] == key;
                if i < rest.len() {
                    assert(rest[i] == key);
                }
            }
            if rest.contains(key) {
                let i = choose|i: int| 0 <= i < rest.len() && rest[i] == key;
                assert(keys[i] == key);
            }
            assert(keys[keys.len() - 1] == last);
        }
        assert(!before.nodes.dom().contains(last));
        assert forall|i: int| 0 <= i < after.indexes.len() implies after.nodes.dom().contains(
            #[trigger] after.indexes[i],
        ) && after.nodes[after.indexes[i]].index == i by {
            if i < before.indexes.len() {
                assert(after.indexes[i] == before.indexes[i]);
                assert(before.nodes.dom().contains(before.indexes[i]));
            }
        }
        assert forall|key: TaskKeyView| #[trigger] start.nodes.dom().contains(
            key,
        ) implies after.nodes[key] == start.nodes[key] && !keys.contains(key) by {
            assert(before.nodes.dom().contains(key));
        }
    }
}

/// An edge of a graph of one source root, between the keys of its tasks.
pub open spec fn keyed_edge(indexes: Seq<TaskKeyView>, edge: (usize, usize, u8)) -> TaskEdgeView {
    TaskEdgeView {
        source: indexes[edge.0 as int],
        target: indexes[edge.1 as int],
        label: edge.2,
    }
}

proof fn edges_are_put_in(
    edges: Seq<(usize, usize, u8)>,
    start: TaskAssemblyView,
    indexes: Seq<TaskKeyView>,
)
    requires
        try_fold(edges, start, add_task_edge(indexes)) is Ok,
    ensures
        ({
            let after = try_fold(edges, start, add_task_edge(indexes))->Ok_0;
            &&& after.nodes == start.nodes
            &&& after.indexes == start.indexes
            &&& after.contexts == start.contexts
            &&& after.edges == start.edges + edges.map_values(
                |edge: (usize, usize, u8)| keyed_edge(indexes, edge),
            )
            &&& forall|i: int|
                0 <= i < edges.len() ==> indexes[(#[trigger] edges[i]).0 as int].project.source
                    == indexes[edges[i].1 as int].project.source
        }),
    decreases edges.len(),
{
    let step = add_task_edge(indexes);
    let make = |edge: (usize, usize, u8)| keyed_edge(indexes, edge);
    if edges.len() == 0 {
        assert(start.edges + edges.map_values(make) =~= start.edges);
    } else {
        let rest = edges.drop_last();
        let before = try_fold(rest, start, step)->Ok_0;
        let after = try_fold(edges, start, step)->Ok_0;
        edges_are_put_in(rest, start, indexes);
        assert(edges[edges.len() - 1] == edges.last());
        assert(after.edges =~= start.edges + edges.map_values(make));
        assert forall|i: int| 0 <= i < edges.len() implies indexes[(
        #[trigger] edges[i]).0 as int].project.source == indexes[edges[i].1 as int].project.source by {
            if i < rest.len() {
                assert(rest[i] == edges[i]);
            }
        }
    }
}

/// A graph of one source root depends from one task on another.
pub open spec fn depends_locally(
    graphs: Seq<TaskGraphView>,
    source: TaskKeyView,
    target: TaskKeyView,
) -> bool {
    exists|g: int, i: int|
        {
            &&& 0 <= g < graphs.len()
            &&& 0 <= i < graphs[g].graph.edges.len()
            &&& (#[trigger] keyed_edge(graphs[g].indexes, graphs[g].graph.edges[i])).source
                == source
            &&& keyed_edge(graphs[g].indexes, graphs[g].graph.edges[i]).target == target
        }
}

/// A task is one of a graph of one source root.
pub open spec fn is_task_of(graphs: Seq<TaskGraphView>, key: TaskKeyView, task: TaskView) -> bool {
    exists|g: int|
        0 <= g < graphs.len() && (#[trigger] graphs[g]).nodes.dom().contains(key)
            && graphs[g].nodes[key].task == task
}

/// Every graph has finitely many tasks.
pub open spec fn all_finite(graphs: Seq<TaskGraphView>) -> bool {
    forall|g: int| 0 <= g < graphs.len() ==> (#[trigger] graphs[g]).nodes.dom().finite()
}

proof fn sources_are_put_together(graphs: Seq<TaskGraphView>)
    requires
        all_finite(graphs),
        assemble_tasks(graphs) is Ok,
        assemble_tasks(graphs)->Ok_0.indexes.len() <= u32::MAX,
    ensures
        ({
            let assembly = assemble_tasks(graphs)->Ok_0;
            &&& assembly_is_numbered(assembly)
            &&& forall|key: TaskKeyView| #[trigger]
                assembly.nodes.dom().contains(key) <==> exists|task: TaskView| #[trigger]
                    is_task_of(graphs, key, task)
            &&& forall|key: TaskKeyView, task: TaskView| #[trigger]
                is_task_of(graphs, key, task) ==> assembly.nodes[key].task == task
            &&& forall|source: TaskKeyView, target: TaskKeyView| #[trigger]
                links(assembly.edges, source, target) <==> depends_locally(graphs, source, target)
            &&& forall|source: TaskKeyView, target: TaskKeyView| #[trigger]
                links(assembly.edges, source, target) ==> source.project.source
                    == target.project.source
        }),
    decreases graphs.len(),
{
    let step = add_source();
    let assembly = assemble_tasks(graphs)->Ok_0;
    if graphs.len() == 0 {
        assert(assembly == empty_tasks());
        assert forall|key: TaskKeyView, task: TaskView| !(#[trigger] is_task_of(
            graphs,
            key,
            task,
        )) by {}
    } else {
        let rest = graphs.drop_last();
        let local = graphs.last();
        let before = try_fold(rest, empty_tasks(), step)->Ok_0;
        assert(graphs[graphs.len() - 1] == local);
        assert forall|g: int| 0 <= g < rest.len() implies (
        #[trigger] rest[g]).nodes.dom().finite() by {
            assert(rest[g] == graphs[g]);
        }
        let known = TaskAssemblyView {
            contexts: before.contexts.insert(local.context.registry.primary, local.context),
            ..before
        };
        let keys = arranged::<TaskKey>(local.nodes.dom());
        let more = try_fold(keys, known, add_task(local.nodes))->Ok_0;
        edges_are_put_in(local.graph.edges, more, local.indexes);
        fewer_before(keys, known, local.nodes);
        sources_are_put_together(rest);
        assert(assembly_is_numbered(known));
        tasks_are_put_in(keys, known, local.nodes);
        task_keys_rank();
        arranged_holds::<TaskKey>(local.nodes.dom());
        assert forall|key: TaskKeyView, task: TaskView| {
            &&& #[trigger] is_task_of(graphs, key, task) <==> is_task_of(rest, key, task) || (
            local.nodes.dom().contains(key) && local.nodes[key].task == task)
        } by {
            if is_task_of(graphs, key, task) {
                let g = choose|g: int|
                    0 <= g < graphs.len() && (#[trigger] graphs[g]).nodes.dom().contains(key)
                        && graphs[g].nodes[key].task == task;
                if g < rest.len() {
                    assert(rest[g] == graphs[g]);
                }
            }
            if is_task_of(rest, key, task) {
                let g = choose|g: int|
                    0 <= g < rest.len() && (#[trigger] rest[g]).nodes.dom().contains(key)
                        && rest[g].nodes[key].task == task;
                assert(graphs[g] == rest[g]);
            }
        }
        assert forall|key: TaskKeyView| #[trigger]
            assembly.nodes.dom().contains(key) <==> exists|task: TaskView| #[trigger]
                is_task_of(graphs, key, task) by {
            assert(keys.contains(key) <==> local.nodes.dom().contains(key));
            if local.nodes.dom().contains(key) {
                assert(is_task_of(graphs, key, local.nodes[key].task));
            }
            if before.nodes.dom().contains(key) {
                let task = choose|task: TaskView| #[trigger] is_task_of(rest, key, task);
                assert(is_task_of(graphs, key, task));
            }
            if exists|task: TaskView| #[trigger] is_task_of(graphs, key, task) {
                let task = choose|task: TaskView| #[trigger] is_task_of(graphs, key, task);
                assert(is_task_of(rest, key, task) || local.nodes.dom().contains(key));
            }
        }
        assert forall|key: TaskKeyView, task: TaskView| #[trigger]
            is_task_of(graphs, key, task) implies assembly.nodes[key].task == task by {
            assert(keys.contains(key) <==> local.nodes.dom().contains(key));
            if is_task_of(rest, key, task) {
                assert(before.nodes.dom().contains(key));
                assert(known.nodes.dom().contains(key));
            }
        }
        let make = |edge: (usize, usize, u8)| keyed_edge(local.indexes, edge);
        assert forall|source: TaskKeyView, target: TaskKeyView| #[trigger]
            links(assembly.edges, source, target) <==> depends_locally(graphs, source, target) by {
            local_links(rest, local, before.edges, source, target);
            assert(graphs =~= rest.push(local));
        }
        assert forall|source: TaskKeyView, target: TaskKeyView| #[trigger]
            links(assembly.edges, source, target) implies source.project.source
            == target.project.source by {
            let k = choose|k: int|
                0 <= k < assembly.edges.len() && (#[trigger] assembly.edges[k]).source == source
                    && assembly.edges[k].target == target;
            if k < before.edges.len() {
                assert(before.edges[k] == assembly.edges[k]);
                assert(links(before.edges, source, target));
            } else {
                let edge = local.graph.edges[k - before.edges.len()];
                assert(assembly.edges[k] == make(edge));
            }
        }
    }
}

/// What was put together before is no more than what is in the end.
proof fn fewer_before(
    keys: Seq<TaskKeyView>,
    start: TaskAssemblyView,
    nodes: Map<TaskKeyView, TaskNodeView>,
)
    requires
        try_fold(keys, start, add_task(nodes)) is Ok,
    ensures
        start.indexes.len() <= try_fold(keys, start, add_task(nodes))->Ok_0.indexes.len(),
    decreases keys.len(),
{
    if keys.len() > 0 {
        fewer_before(keys.drop_last(), start, nodes);
    }
}

proof fn local_links(
    rest: Seq<TaskGraphView>,
    local: TaskGraphView,
    edges: Seq<TaskEdgeView>,
    source: TaskKeyView,
    target: TaskKeyView,
)
    requires
        links(edges, source, target) <==> depends_locally(rest, source, target),
    ensures
        links(
            edges + local.graph.edges.map_values(
                |edge: (usize, usize, u8)| keyed_edge(local.indexes, edge),
            ),
            source,
            target,
        ) <==> depends_locally(rest.push(local), source, target),
{
    let make = |edge: (usize, usize, u8)| keyed_edge(local.indexes, edge);
    let all = edges + local.graph.edges.map_values(make);
    let graphs = rest.push(local);
    if links(all, source, target) {
        let k = choose|k: int|
            0 <= k < all.len() && (#[trigger] all[k]).source == source && all[k].target == target;
        if k < edges.len() {
            assert(edges[k] == all[k]);
            assert(links(edges, source, target));
            let (g, i) = choose|g: int, i: int|
                {
                    &&& 0 <= g < rest.len()
                    &&& 0 <= i < rest[g].graph.edges.len()
                    &&& (#[trigger] keyed_edge(rest[g].indexes, rest[g].graph.edges[i])).source
                        == source
                    &&& keyed_edge(rest[g].indexes, rest[g].graph.edges[i]).target == target
                };
            assert(graphs[g] == rest[g]);
            assert(keyed_edge(graphs[g].indexes, graphs[g].graph.edges[i]).source == source);
        } else {
            let i = k - edges.len();
            let g = rest.len() as int;
            assert(graphs[g] == local);
            assert(all[k] == keyed_edge(graphs[g].indexes, graphs[g].graph.edges[i]));
        }
    }
    if depends_locally(graphs, source, target) {
        let (g, i) = choose|g: int, i: int|
            {
                &&& 0 <= g < graphs.len()
                &&& 0 <= i < graphs[g].graph.edges.len()
                &&& (#[trigger] keyed_edge(graphs[g].indexes, graphs[g].graph.edges[i])).source
                    == source
                &&& keyed_edge(graphs[g].indexes, graphs[g].graph.edges[i]).target == target
            };
        if g < rest.len() {
            assert(graphs[g] == rest[g]);
            assert(keyed_edge(rest[g].indexes, rest[g].graph.edges[i]).source == source);
            assert(depends_locally(rest, source, target));
            let k = choose|k: int|
                0 <= k < edges.len() && (#[trigger] edges[k]).source == source && edges[k].target
                    == target;
            assert(all[k] == edges[k]);
        } else {
            assert(all[edges.len() + i] == make(local.graph.edges[i]));
        }
    }
}

/// The ends of edges do not change where only a label does.
proof fn linking_adds(edges: Seq<(usize, usize, u8)>, from: usize, to: usize, label: u8)
    requires
        link_task(edges, from, to, label) is Some,
    ensures
        ({
            let after = link_task(edges, from, to, label)->0;
            &&& forall|a: usize, b: usize| #[trigger]
                has_edge(after, a, b) <==> has_edge(edges, a, b) || (a == from && b == to)
        }),
{
    let after = link_task(edges, from, to, label)->0;
    if has_edge(edges, from, to) {
        crate::focus::last_edge_exists(edges, from, to);
        let i = choose|i: int| is_last_edge(edges, from, to, i);
        assert forall|a: usize, b: usize| #[trigger]
            has_edge(after, a, b) <==> has_edge(edges, a, b) || (a == from && b == to) by {
            if has_edge(after, a, b) {
                let k = choose|k: int|
                    0 <= k < after.len() && (#[trigger] after[k]).0 == a && after[k].1 == b;
                assert(edges[k].0 == a && edges[k].1 == b);
            }
            if has_edge(edges, a, b) {
                let k = choose|k: int|
                    0 <= k < edges.len() && (#[trigger] edges[k]).0 == a && edges[k].1 == b;
                assert(after[k].0 == a && after[k].1 == b);
            }
        }
    } else {
        assert forall|a: usize, b: usize| #[trigger]
            has_edge(after, a, b) <==> has_edge(edges, a, b) || (a == from && b == to) by {
            if has_edge(after, a, b) {
                let k = choose|k: int|
                    0 <= k < after.len() && (#[trigger] after[k]).0 == a && after[k].1 == b;
                if k < edges.len() {
                    assert(edges[k] == after[k]);
                }
            }
            if has_edge(edges, a, b) {
                let k = choose|k: int|
                    0 <= k < edges.len() && (#[trigger] edges[k]).0 == a && edges[k].1 == b;
                assert(after[k] == edges[k]);
            }
            assert(after[edges.len() as int] == (from, to, label));
        }
    }
}

/// An edge between two numbers stands for one of several.
pub open spec fn stands_for_one(
    nodes: Map<TaskKeyView, TaskNodeView>,
    items: Seq<TaskEdgeView>,
    a: usize,
    b: usize,
) -> bool {
    exists|i: int|
        0 <= i < items.len() && nodes[(#[trigger] items[i]).source].index == a
            && nodes[items[i].target].index == b
}

proof fn all_are_linked(
    nodes: Map<TaskKeyView, TaskNodeView>,
    edges: Seq<(usize, usize, u8)>,
    items: Seq<TaskEdgeView>,
)
    requires
        try_fold(items, edges, link_edge(nodes)) is Ok,
    ensures
        ({
            let after = try_fold(items, edges, link_edge(nodes))->Ok_0;
            forall|a: usize, b: usize| #[trigger]
                has_edge(after, a, b) <==> has_edge(edges, a, b) || stands_for_one(
                    nodes,
                    items,
                    a,
                    b,
                )
        }),
    decreases items.len(),
{
    let step = link_edge(nodes);
    let after = try_fold(items, edges, step)->Ok_0;
    if items.len() > 0 {
        let rest = items.drop_last();
        let last = items.last();
        let before = try_fold(rest, edges, step)->Ok_0;
        all_are_linked(nodes, edges, rest);
        linking_adds(before, nodes[last.source].index, nodes[last.target].index, last.label);
        assert(items[items.len() - 1] == last);
        assert forall|a: usize, b: usize| #[trigger]
            has_edge(after, a, b) <==> has_edge(edges, a, b) || stands_for_one(
                nodes,
                items,
                a,
                b,
            ) by {
            assert(has_edge(after, a, b) <==> has_edge(before, a, b) || (a
                == nodes[last.source].index && b == nodes[last.target].index));
            if stands_for_one(nodes, items, a, b) {
                let i = choose|i: int|
                    0 <= i < items.len() && nodes[(#[trigger] items[i]).source].index == a
                        && nodes[items[i].target].index == b;
                if i < rest.len() {
                    assert(rest[i] == items[i]);
                    assert(stands_for_one(nodes, rest, a, b));
                }
            }
            if stands_for_one(nodes, rest, a, b) {
                let i = choose|i: int|
                    0 <= i < rest.len() && nodes[(#[trigger] rest[i]).source].index == a
                        && nodes[rest[i].target].index == b;
                assert(items[i] == rest[i]);
            }
        }
    }
}

proof fn sorted_are_linked(
    nodes: Map<TaskKeyView, TaskNodeView>,
    edges: Seq<(usize, usize, u8)>,
    items: Seq<TaskEdgeView>,
    source: TaskKeyView,
    target: TaskKeyView,
)
    requires
        link_edges(nodes, edges, items) is Ok,
        nodes.dom().contains(source),
        nodes.dom().contains(target),
        forall|a: TaskKeyView, b: TaskKeyView|
            nodes.dom().contains(a) && nodes.dom().contains(b) && #[trigger] nodes[a].index
                == #[trigger] nodes[b].index ==> a == b,
        forall|i: int|
            0 <= i < items.len() ==> nodes.dom().contains((#[trigger] items[i]).source)
                && nodes.dom().contains(items[i].target),
    ensures
        has_edge(
            link_edges(nodes, edges, items)->Ok_0,
            nodes[source].index,
            nodes[target].index,
        ) <==> has_edge(edges, nodes[source].index, nodes[target].index) || links(
            items,
            source,
            target,
        ),
{
    let sorted = ranked::<TaskEdge>(items);
    all_are_linked(nodes, edges, sorted);
    let (a, b) = (nodes[source].index, nodes[target].index);
    if stands_for_one(nodes, sorted, a, b) {
        let i = choose|i: int|
            0 <= i < sorted.len() && nodes[(#[trigger] sorted[i]).source].index == a
                && nodes[sorted[i].target].index == b;
        assert(sorted.contains(sorted[i]));
        ranked_same_items::<TaskEdge>(items, sorted[i]);
        let k = choose|k: int| 0 <= k < items.len() && items[k] == sorted[i];
        assert(nodes.dom().contains(items[k].source));
    }
    if links(items, source, target) {
        let i = choose|i: int|
            0 <= i < items.len() && (#[trigger] items[i]).source == source && items[i].target
                == target;
        assert(items.contains(items[i]));
        ranked_same_items::<TaskEdge>(items, items[i]);
        let k = choose|k: int| 0 <= k < sorted.len() && sorted[k] == items[i];
        assert(nodes[sorted[k].source].index == a);
    }
}

/// A task of a composed graph depends on another.
pub open spec fn depends_in_composed(
    graph: TaskGraphView,
    source: TaskKeyView,
    target: TaskKeyView,
) -> bool {
    &&& graph.nodes.dom().contains(source)
    &&& graph.nodes.dom().contains(target)
    &&& has_edge(graph.graph.edges, graph.nodes[source].index, graph.nodes[target].index)
}

/// A composed graph has the tasks of all source roots as they are, each under a number of its
/// own. A task depends on another exactly where it does in its source root, or where one of
/// its dependencies selects the other among the projects that its project depends on; and what
/// is selected may be depended on.
pub proof fn composed_tasks_depend_as_declared(
    projects: ProjectGraphView,
    graphs: Seq<TaskGraphView>,
)
    requires
        all_finite(graphs),
        forall|g: int| 0 <= g < graphs.len() ==> tasks_valid(#[trigger] graphs[g]),
        forall|g: int| 0 <= g < graphs.len() ==> edges_within(
            (#[trigger] graphs[g]).graph.edges,
            graphs[g].graph.nodes,
        ),
        tasks_composable(projects, graphs),
        composed_tasks(projects, graphs) is Ok,
    ensures
        ({
            let graph = composed_tasks(projects, graphs)->Ok_0;
            &&& forall|key: TaskKeyView| #[trigger]
                graph.nodes.dom().contains(key) <==> exists|task: TaskView| #[trigger]
                    is_task_of(graphs, key, task)
            &&& forall|key: TaskKeyView, task: TaskView| #[trigger]
                is_task_of(graphs, key, task) ==> graph.nodes[key].task == task
            &&& forall|i: int|
                0 <= i < graph.indexes.len() ==> graph.nodes.dom().contains(
                    #[trigger] graph.indexes[i],
                ) && graph.nodes[graph.indexes[i]].index == i
            &&& forall|key: TaskKeyView| #[trigger]
                graph.nodes.dom().contains(key) ==> graph.nodes[key].index < graph.indexes.len()
                    && graph.indexes[graph.nodes[key].index as int] == key
            &&& forall|source: TaskKeyView, target: TaskKeyView| #[trigger]
                depends_in_composed(graph, source, target) <==> depends_locally(
                    graphs,
                    source,
                    target,
                ) || is_selected(projects, graph.nodes, source, target)
            &&& forall|source: TaskKeyView, target: TaskKeyView| #[trigger]
                is_selected(projects, graph.nodes, source, target) ==> may_depend(
                    graph.nodes[source].task.options,
                    graph.nodes[target].task.options,
                )
        }),
{
    let ordered = ranked::<&TaskGraph>(graphs);
    let assembly = assemble_tasks(ordered)->Ok_0;
    let nodes = assembly.nodes;
    let graph = composed_tasks(projects, graphs)->Ok_0;
    same_graphs(graphs);
    sources_are_put_together(ordered);
    selectors_make_allowed_dependencies(projects, nodes);
    let first = link_edges(nodes, Seq::empty(), assembly.edges)->Ok_0;
    let more = project_task_edges(projects, nodes)->Ok_0;
    assert forall|a: TaskKeyView, b: TaskKeyView|
        nodes.dom().contains(a) && nodes.dom().contains(b) && #[trigger] nodes[a].index
            == #[trigger] nodes[b].index implies a == b by {
        assert(assembly.indexes[nodes[a].index as int] == a);
        assert(assembly.indexes[nodes[b].index as int] == b);
    }
    assert forall|i: int| 0 <= i < assembly.edges.len() implies nodes.dom().contains(
        (#[trigger] assembly.edges[i]).source,
    ) && nodes.dom().contains(assembly.edges[i].target) by {
        let (source, target) = (assembly.edges[i].source, assembly.edges[i].target);
        assert(links(assembly.edges, source, target));
        local_ends_are_tasks(ordered, source, target);
    }
    assert forall|i: int| 0 <= i < more.len() implies nodes.dom().contains(
        (#[trigger] more[i]).source,
    ) && nodes.dom().contains(more[i].target) by {
        assert(edge_is_selected(projects, nodes, more[i]));
    }
    assert forall|key: TaskKeyView| #[trigger] graph.nodes.dom().contains(key) <==> exists|
        task: TaskView,
    | #[trigger]
        is_task_of(graphs, key, task) by {
        if graph.nodes.dom().contains(key) {
            let task = choose|task: TaskView| #[trigger] is_task_of(ordered, key, task);
            assert(is_task_of(graphs, key, task));
        }
        if exists|task: TaskView| #[trigger] is_task_of(graphs, key, task) {
            let task = choose|task: TaskView| #[trigger] is_task_of(graphs, key, task);
            assert(is_task_of(ordered, key, task));
        }
    }
    assert forall|source: TaskKeyView, target: TaskKeyView| #[trigger]
        depends_in_composed(graph, source, target) <==> depends_locally(graphs, source, target)
            || is_selected(projects, graph.nodes, source, target) by {
        assert(links(assembly.edges, source, target) <==> depends_locally(ordered, source, target));
        if depends_locally(ordered, source, target) {
            local_ends_are_tasks(ordered, source, target);
        }
        if is_selected(projects, nodes, source, target) {
            let d = choose|d: int|
                0 <= d < nodes[source].task.configured_deps.len() && selects(
                    projects,
                    nodes,
                    source,
                    #[trigger] nodes[source].task.configured_deps[d],
                    target,
                );
            assert(nodes.dom().contains(target));
        }
        if nodes.dom().contains(source) && nodes.dom().contains(target) {
            sorted_are_linked(nodes, Seq::empty(), assembly.edges, source, target);
            sorted_are_linked(nodes, first, more, source, target);
            if links(more, source, target) {
                let i = choose|i: int|
                    0 <= i < more.len() && (#[trigger] more[i]).source == source && more[i].target
                        == target;
                assert(edge_is_selected(projects, nodes, more[i]));
                assert(is_selected(projects, nodes, source, target));
            }
        }
    }
}

proof fn same_graphs(graphs: Seq<TaskGraphView>)
    ensures
        ({
            let ordered = ranked::<&TaskGraph>(graphs);
            &&& all_finite(graphs) ==> all_finite(ordered)
            &&& (forall|g: int| 0 <= g < graphs.len() ==> tasks_valid(#[trigger] graphs[g])) ==> (
            forall|g: int| 0 <= g < ordered.len() ==> tasks_valid(#[trigger] ordered[g]))
            &&& (forall|g: int|
                0 <= g < graphs.len() ==> edges_within(
                    (#[trigger] graphs[g]).graph.edges,
                    graphs[g].graph.nodes,
                )) ==> (forall|g: int|
                0 <= g < ordered.len() ==> edges_within(
                    (#[trigger] ordered[g]).graph.edges,
                    ordered[g].graph.nodes,
                ))
            &&& forall|key: TaskKeyView, task: TaskView| #[trigger]
                is_task_of(graphs, key, task) <==> is_task_of(ordered, key, task)
            &&& forall|source: TaskKeyView, target: TaskKeyView| #[trigger]
                depends_locally(graphs, source, target) <==> depends_locally(
                    ordered,
                    source,
                    target,
                )
        }),
{
    let ordered = ranked::<&TaskGraph>(graphs);
    assert forall|g: int| 0 <= g < ordered.len() implies exists|k: int|
        0 <= k < graphs.len() && #[trigger] graphs[k] == #[trigger] ordered[g] by {
        assert(ordered.contains(ordered[g]));
        ranked_same_items::<&TaskGraph>(graphs, ordered[g]);
    }
    assert forall|g: int| 0 <= g < graphs.len() implies exists|k: int|
        0 <= k < ordered.len() && #[trigger] ordered[k] == #[trigger] graphs[g] by {
        assert(graphs.contains(graphs[g]));
        ranked_same_items::<&TaskGraph>(graphs, graphs[g]);
    }
    assert forall|key: TaskKeyView, task: TaskView| #[trigger]
        is_task_of(graphs, key, task) <==> is_task_of(ordered, key, task) by {
        if is_task_of(graphs, key, task) {
            let g = choose|g: int|
                0 <= g < graphs.len() && (#[trigger] graphs[g]).nodes.dom().contains(key)
                    && graphs[g].nodes[key].task == task;
            let k = choose|k: int|
                0 <= k < ordered.len() && #[trigger] ordered[k] == #[trigger] graphs[g];
            assert(ordered[k].nodes.dom().contains(key));
        }
        if is_task_of(ordered, key, task) {
            let g = choose|g: int|
                0 <= g < ordered.len() && (#[trigger] ordered[g]).nodes.dom().contains(key)
                    && ordered[g].nodes[key].task == task;
            let k = choose|k: int|
                0 <= k < graphs.len() && #[trigger] graphs[k] == #[trigger] ordered[g];
            assert(graphs[k].nodes.dom().contains(key));
        }
    }
    assert forall|source: TaskKeyView, target: TaskKeyView| #[trigger]
        depends_locally(graphs, source, target) <==> depends_locally(ordered, source, target) by {
        if depends_locally(graphs, source, target) {
            let (g, i) = choose|g: int, i: int|
                {
                    &&& 0 <= g < graphs.len()
                    &&& 0 <= i < graphs[g].graph.edges.len()
                    &&& (#[trigger] keyed_edge(graphs[g].indexes, graphs[g].graph.edges[i])).source
                        == source
                    &&& keyed_edge(graphs[g].indexes, graphs[g].graph.edges[i]).target == target
                };
            let k = choose|k: int|
                0 <= k < ordered.len() && #[trigger] ordered[k] == #[trigger] graphs[g];
            assert(keyed_edge(ordered[k].indexes, ordered[k].graph.edges[i]).source == source);
        }
        if depends_locally(ordered, source, target) {
            let (g, i) = choose|g: int, i: int|
                {
                    &&& 0 <= g < ordered.len()
                    &&& 0 <= i < ordered[g].graph.edges.len()
                    &&& (#[trigger] keyed_edge(
                        ordered[g].indexes,
                        ordered[g].graph.edges[i],
                    )).source == source
                    &&& keyed_edge(ordered[g].indexes, ordered[g].graph.edges[i]).target == target
                };
            let k = choose|k: int|
                0 <= k < graphs.len() && #[trigger] graphs[k] == #[trigger] ordered[g];
            assert(keyed_edge(graphs[k].indexes, graphs[k].graph.edges[i]).source == source);
        }
    }
}

proof fn local_ends_are_tasks(
    graphs: Seq<TaskGraphView>,
    source: TaskKeyView,
    target: TaskKeyView,
)
    requires
        forall|g: int| 0 <= g < graphs.len() ==> tasks_valid(#[trigger] graphs[g]),
        forall|g: int| 0 <= g < graphs.len() ==> edges_within(
            (#[trigger] graphs[g]).graph.edges,
            graphs[g].graph.nodes,
        ),
        depends_locally(graphs, source, target),
    ensures
        exists|task: TaskView| #[trigger] is_task_of(graphs, source, task),
        exists|task: TaskView| #[trigger] is_task_of(graphs, target, task),
{
    let (g, i) = choose|g: int, i: int|
        {
            &&& 0 <= g < graphs.len()
            &&& 0 <= i < graphs[g].graph.edges.len()
            &&& (#[trigger] keyed_edge(graphs[g].indexes, graphs[g].graph.edges[i])).source
                == source
            &&& keyed_edge(graphs[g].indexes, graphs[g].graph.edges[i]).target == target
        };
    assert(tasks_valid(graphs[g]));
    let edge = graphs[g].graph.edges[i];
    assert(edge.0 < graphs[g].graph.nodes && edge.1 < graphs[g].graph.nodes);
    assert(is_task_of(graphs, source, graphs[g].nodes[source].task));
    assert(is_task_of(graphs, target, graphs[g].nodes[target].task));
}

/// A composition that is refused for a dependency names a task and what it selects, both tasks
/// of the source roots, and the reason holds: a task is refused as persistent only where it is
/// and the one that selects it is not.
pub proof fn compositions_are_refused_for_a_reason(
    projects: ProjectGraphView,
    graphs: Seq<TaskGraphView>,
)
    requires
        all_finite(graphs),
        tasks_composable(projects, graphs),
        composed_tasks(projects, graphs) is Err,
        assemble_tasks(ranked::<&TaskGraph>(graphs)) is Ok,
    ensures
        ({
            let nodes = assemble_tasks(ranked::<&TaskGraph>(graphs))->Ok_0.nodes;
            &&& refusal_holds(projects, nodes, composed_tasks(projects, graphs)->Err_0)
            &&& forall|key: TaskKeyView| #[trigger]
                nodes.dom().contains(key) ==> is_task_of(graphs, key, nodes[key].task)
        }),
{
    let ordered = ranked::<&TaskGraph>(graphs);
    let assembly = assemble_tasks(ordered)->Ok_0;
    same_graphs(graphs);
    sources_are_put_together(ordered);
    selectors_make_allowed_dependencies(projects, assembly.nodes);
    assert forall|key: TaskKeyView| #[trigger]
        assembly.nodes.dom().contains(key) implies is_task_of(
        graphs,
        key,
        assembly.nodes[key].task,
    ) by {
        let task = choose|task: TaskView| #[trigger] is_task_of(ordered, key, task);
        assert(is_task_of(graphs, key, task));
    }
    if link_edges(assembly.nodes, Seq::empty(), assembly.edges) is Err {
        only_cycles_stop_links(
            assembly.nodes,
            Seq::empty(),
            ranked::<TaskEdge>(assembly.edges),
        );
    } else if project_task_edges(projects, assembly.nodes) is Ok {
        only_cycles_stop_links(
            assembly.nodes,
            link_edges(assembly.nodes, Seq::empty(), assembly.edges)->Ok_0,
            ranked::<TaskEdge>(project_task_edges(projects, assembly.nodes)->Ok_0),
        );
    }
}

proof fn only_cycles_stop_links(
    nodes: Map<TaskKeyView, TaskNodeView>,
    edges: Seq<(usize, usize, u8)>,
    items: Seq<TaskEdgeView>,
)
    ensures
        try_fold(items, edges, link_edge(nodes)) matches Err(fault) ==> fault is WouldCycle,
    decreases items.len(),
{
    if items.len() > 0 {
        only_cycles_stop_links(nodes, edges, items.drop_last());
    }
}

} // verus!
