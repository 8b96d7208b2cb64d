//! What every run of a task waits for.

use crate::action_install::install_all;
use crate::action_laws::{
    a_run_gives_its_action, can_run, dependencies_keep, dependents_keep, install_all_prepares,
    invocation_of, is_set_aside, link_all_prepares, place_is_first, prerequisites_prepare,
    run_keeps, run_task_keeps, sync_dependencies_prepare, sync_project_prepares, try_links_prepare,
    wanted_keep,
};
use crate::action_node::{NodeView, SpecView};
use crate::action_run::{
    in_scope, open_projects, open_projects_shrink, project_dependencies, sync_dependencies,
    sync_project_step, RunRequirements,
};
use crate::action_scene::{project_spec, ready_task, resolved_for, ResolvedView, SceneView};
use crate::action_setup::sync_workspace_step;
use crate::action_state::{
    first_some, link_all, link_all_waits, place_of_node, required, serial_walk, ActionGraphFault,
    with_node, StateView,
};
use crate::action_tasks::{
    dependents_then, known_task_step, link_both, new_task_step, plain_call, prerequisites,
    run_dependencies, run_node, run_task_step, wanted_dependencies, without_marks, CallView,
};
use crate::affected::RelationScope;
use crate::config::key_of_project;
use crate::graph::{has_edge, walk, walk_in_more, Direction};
use crate::keys::{ProjectKeyView, TaskKeyView};
use crate::project_graph::unexpanded;
use crate::sequence_laws::{actions_that_follow_are_kept_apart, is_apart};
use crate::task::{TaskDependencyType, TaskView};
use crate::task_queries::task_neighbors;
use crate::wait_laws::{
    grew, installation_of, installations_wait_for_their_setup, is_on, linking_adds_no_action,
    none_is, switches_agree, waiting_stays, waits_for_action,
    workspaces_are_synchronised_where_wanted,
};
use vstd::prelude::*;

verus! {

/// A project counts as affected: nothing is tracked, everything counts, or it is marked, by
/// relation too where relations count.
pub open spec fn project_counts(
    scene: SceneView,
    reqs: RunRequirements,
    key: ProjectKeyView,
) -> bool {
    match scene.affected {
        None => true,
        Some(marks) => {
            ||| reqs.skip_affected
            ||| reqs.include_relations && marks.projects.contains(key)
            ||| !reqs.include_relations && marks.projects_alone.contains(key)
        },
    }
}

/// A task counts as affected: nothing is tracked, everything counts, or it is marked, by
/// relation too where relations count.
pub open spec fn task_counts(scene: SceneView, reqs: RunRequirements, key: TaskKeyView) -> bool {
    match scene.affected {
        None => true,
        Some(marks) => {
            ||| reqs.skip_affected
            ||| reqs.include_relations && marks.tasks.contains(key)
            ||| !reqs.include_relations && marks.tasks_alone.contains(key)
        },
    }
}

/// A project is synchronised: it is part of the run and counts as affected.
pub open spec fn project_is_wanted(
    scene: SceneView,
    reqs: RunRequirements,
    key: ProjectKeyView,
    cycle: Set<ProjectKeyView>,
) -> bool {
    &&& is_on(scene.options.sync_projects, key.project)
    &&& !cycle.contains(key)
    &&& project_counts(scene, reqs, key)
}

/// What the synchronisation of a project that is added waits for: its workspace, and the
/// synchronisation of every project that it depends on and that is wanted.
pub open spec fn project_waits(
    scene: SceneView,
    after: StateView,
    key: ProjectKeyView,
    reqs: RunRequirements,
    cycle: Set<ProjectKeyView>,
    index: usize,
) -> bool {
    &&& scene.options.sync_workspace ==> waits_for_action(
        after,
        index,
        NodeView::SyncWorkspace { source: key.source },
    )
    &&& scene.options.sync_project_dependencies && scene.projects.indexes.contains(key)
        ==> forall|i: int|
        0 <= i < project_dependencies(scene, key).len() && !cycle.insert(key).contains(
            #[trigger] project_dependencies(scene, key)[i],
        ) ==> {
            let other = unexpanded(scene.projects, project_dependencies(scene, key)[i]);
            &&& other is Ok
            &&& project_is_wanted(scene, reqs, key_of_project(other->Ok_0), cycle.insert(key))
                ==> waits_for_action(
                after,
                index,
                NodeView::SyncProject { key: key_of_project(other->Ok_0) },
            )
        }
}

/// The synchronisations of projects that another depends on: one for each that is wanted.
pub open spec fn projects_are_given(
    scene: SceneView,
    after: StateView,
    index: usize,
    keys: Seq<ProjectKeyView>,
    reqs: RunRequirements,
    cycle: Set<ProjectKeyView>,
    edges: Seq<Option<usize>>,
) -> bool {
    &&& forall|k: int|
        0 <= k < edges.len() && (#[trigger] edges[k]) is Some ==> edges[k]->0 < after.nodes.len()
    &&& forall|i: int|
        0 <= i < keys.len() && !cycle.contains(#[trigger] keys[i]) ==> {
            let other = unexpanded(scene.projects, keys[i]);
            &&& other is Ok
            &&& project_is_wanted(scene, reqs, key_of_project(other->Ok_0), cycle) ==> exists|
                k: int,
            |
                0 <= k < edges.len() && (#[trigger] edges[k]) is Some
                    && after.nodes[edges[k]->0 as int] == (NodeView::SyncProject {
                    key: key_of_project(other->Ok_0),
                })
        }
}

/// A project is synchronised exactly where it is wanted. A synchronisation that is added waits
/// for its workspace and for the projects that it depends on.
pub proof fn projects_wait_for_what_they_need(
    scene: SceneView,
    state: StateView,
    key: ProjectKeyView,
    reqs: RunRequirements,
    cycle: Set<ProjectKeyView>,
)
    requires
        state.nodes.len() <= u32::MAX,
        sync_project_step(scene, state, key, reqs, cycle).1 is Ok,
    ensures
        ({
            let (after, index) = sync_project_step(scene, state, key, reqs, cycle);
            &&& grew(state, after)
            &&& after.nodes.len() <= u32::MAX
            &&& index->Ok_0 is Some <==> project_is_wanted(scene, reqs, key, cycle)
            &&& index->Ok_0 matches Some(index) ==> {
                &&& index < after.nodes.len()
                &&& after.nodes[index as int] == (NodeView::SyncProject { key })
                &&& !state.nodes.contains(NodeView::SyncProject { key }) ==> project_waits(
                    scene,
                    after,
                    key,
                    reqs,
                    cycle,
                    index,
                )
            }
        }),
    decreases open_projects(scene.projects.indexes, cycle), 0nat, 0nat,
{
    switches_agree(scene.options.sync_projects, key.project);
    sync_project_prepares(scene, state, key, reqs, cycle);
    if project_is_wanted(scene, reqs, key, cycle) {
        let (synced, workspace) = sync_workspace_step(scene, state, key.source);
        workspaces_are_synchronised_where_wanted(scene, state, key.source);
        let workspace = workspace->Ok_0;
        let node = NodeView::SyncProject { key };
        place_is_first(synced.nodes, node);
        if place_of_node(synced.nodes, node) is Some {
            let i = place_of_node(synced.nodes, node)->0;
            assert(synced.nodes[i as int] == node);
            assert(i < state.nodes.len());
            assert(state.nodes[i as int] == node);
        } else {
            let (added, index) = with_node(synced, node);
            let index = index->Ok_0->0;
            assert(added.nodes[index as int] == node);
            assert forall|i: int| 0 <= i < synced.nodes.len() implies #[trigger] added.nodes[i]
                == synced.nodes[i] by {}
            let keys = project_dependencies(scene, key);
            let inner = cycle.insert(key);
            let follow = scene.options.sync_project_dependencies
                && scene.projects.indexes.contains(key);
            let (before, edges) = if follow {
                sync_dependencies(scene, added, index, keys, reqs, inner)
            } else {
                (added, Ok(Seq::empty()))
            };
            if follow {
                open_projects_shrink(scene.projects.indexes, cycle, key);
                dependencies_are_synchronised(scene, added, index, key, keys, reqs, inner);
            }
            let edges = edges->Ok_0;
            let all = seq![workspace] + edges;
            let after = link_all(before, index, required(all)).0;
            link_all_waits(before, index, required(all));
            linking_adds_no_action(before, index, required(all));
            link_all_prepares(before, index, required(all));
            assert(before.nodes[index as int] == node);
            assert forall|i: int|
                0 <= i < all.len() && (#[trigger] all[i]) is Some && all[i]->0
                    < before.nodes.len() implies waits_for_action(
                after,
                index,
                before.nodes[all[i]->0 as int],
            ) by {
                assert(required(all)[i].0 is Some);
                assert(has_edge(after.graph.edges, index, all[i]->0));
            }
            assert(all[0] == workspace);
            if scene.options.sync_workspace {
                let w = workspace->0 as int;
                assert(added.nodes[w] == synced.nodes[w]);
                assert(before.nodes[w] == added.nodes[w]);
                assert(waits_for_action(after, index, before.nodes[all[0]->0 as int]));
            }
            if follow {
                assert forall|i: int|
                    0 <= i < keys.len() && !inner.contains(#[trigger] keys[i]) implies {
                    let other = unexpanded(scene.projects, keys[i]);
                    &&& other is Ok
                    &&& project_is_wanted(scene, reqs, key_of_project(other->Ok_0), inner)
                        ==> waits_for_action(
                        after,
                        index,
                        NodeView::SyncProject { key: key_of_project(other->Ok_0) },
                    )
                } by {
                    let other = unexpanded(scene.projects, keys[i]);
                    if project_is_wanted(scene, reqs, key_of_project(other->Ok_0), inner) {
                        let k = choose|k: int|
                            0 <= k < edges.len() && (#[trigger] edges[k]) is Some
                                && before.nodes[edges[k]->0 as int] == (NodeView::SyncProject {
                                key: key_of_project(other->Ok_0),
                            });
                        assert(all[k + 1] == edges[k]);
                        assert(waits_for_action(
                            after,
                            index,
                            before.nodes[all[k + 1]->0 as int],
                        ));
                    }
                }
            }
        }
    }
}

proof fn dependencies_are_synchronised(
    scene: SceneView,
    state: StateView,
    index: usize,
    key: ProjectKeyView,
    keys: Seq<ProjectKeyView>,
    reqs: RunRequirements,
    cycle: Set<ProjectKeyView>,
)
    requires
        state.nodes.len() <= u32::MAX,
        index < state.nodes.len(),
        state.nodes[index as int] == (NodeView::SyncProject { key }),
        cycle.contains(key),
        sync_dependencies(scene, state, index, keys, reqs, cycle).1 is Ok,
    ensures
        ({
            let (after, edges) = sync_dependencies(scene, state, index, keys, reqs, cycle);
            &&& grew(state, after)
            &&& after.nodes.len() <= u32::MAX
            &&& projects_are_given(scene, after, index, keys, reqs, cycle, edges->Ok_0)
        }),
    decreases open_projects(scene.projects.indexes, cycle), 1nat, keys.len(),
{
    sync_dependencies_prepare(scene, state, index, keys, reqs, cycle);
    if keys.len() > 0 {
        let rest = keys.drop_last();
        let last = keys.len() - 1;
        assert(keys[last] == keys.last());
        dependencies_are_synchronised(scene, state, index, key, rest, reqs, cycle);
        let (before, given) = sync_dependencies(scene, state, index, rest, reqs, cycle);
        let given = given->Ok_0;
        let (after, edges) = sync_dependencies(scene, state, index, keys, reqs, cycle);
        let edges = edges->Ok_0;
        let other = unexpanded(scene.projects, keys.last());
        let mut found: Option<usize> = None;
        if !cycle.contains(keys.last()) {
            let owner = key_of_project(other->Ok_0);
            projects_wait_for_what_they_need(scene, before, owner, reqs, cycle);
            found = sync_project_step(scene, before, owner, reqs, cycle).1->Ok_0;
            if found is Some {
                assert(after.nodes[index as int] == before.nodes[index as int]);
                assert(before.nodes[index as int] == state.nodes[index as int]);
                assert(found->0 != index);
                assert(edges == given.push(found));
            } else {
                assert(edges == given);
            }
        }
        assert forall|k: int|
            0 <= k < edges.len() && (#[trigger] edges[k]) is Some implies edges[k]->0
            < after.nodes.len() by {
            if k < given.len() {
                assert(given[k] == edges[k]);
            }
        }
        assert forall|i: int| 0 <= i < keys.len() && !cycle.contains(#[trigger] keys[i]) implies {
            let other = unexpanded(scene.projects, keys[i]);
            &&& other is Ok
            &&& project_is_wanted(scene, reqs, key_of_project(other->Ok_0), cycle) ==> exists|
                k: int,
            |
                0 <= k < edges.len() && (#[trigger] edges[k]) is Some
                    && after.nodes[edges[k]->0 as int] == (NodeView::SyncProject {
                    key: key_of_project(other->Ok_0),
                })
        } by {
            let other = unexpanded(scene.projects, keys[i]);
            if i < last {
                assert(rest[i] == keys[i]);
                if project_is_wanted(scene, reqs, key_of_project(other->Ok_0), cycle) {
                    let k = choose|k: int|
                        0 <= k < given.len() && (#[trigger] given[k]) is Some
                            && before.nodes[given[k]->0 as int] == (NodeView::SyncProject {
                            key: key_of_project(other->Ok_0),
                        });
                    assert(edges[k] == given[k]);
                    assert(after.nodes[given[k]->0 as int] == before.nodes[given[k]->0 as int]);
                }
            } else if project_is_wanted(scene, reqs, key_of_project(other->Ok_0), cycle) {
                assert(edges[given.len() as int] == found);
            }
        }
    }
}

/// One of several actions is this one.
pub open spec fn is_among(state: StateView, edges: Seq<Option<usize>>, node: NodeView) -> bool {
    exists|k: int|
        0 <= k < edges.len() && (#[trigger] edges[k]) is Some && edges[k]->0 < state.nodes.len()
            && state.nodes[edges[k]->0 as int] == node
}

/// All of several that are there are actions.
pub open spec fn all_are_actions(state: StateView, edges: Seq<Option<usize>>) -> bool {
    forall|k: int|
        0 <= k < edges.len() && (#[trigger] edges[k]) is Some ==> edges[k]->0 < state.nodes.len()
}

proof fn among_stays(
    before: StateView,
    after: StateView,
    few: Seq<Option<usize>>,
    many: Seq<Option<usize>>,
    offset: int,
    node: NodeView,
)
    requires
        grew(before, after),
        0 <= offset,
        offset + few.len() <= many.len(),
        forall|k: int| 0 <= k < few.len() ==> #[trigger] few[k] == many[offset + k],
        is_among(before, few, node),
    ensures
        is_among(after, many, node),
{
    let k = choose|k: int|
        0 <= k < few.len() && (#[trigger] few[k]) is Some && few[k]->0 < before.nodes.len()
            && before.nodes[few[k]->0 as int] == node;
    assert(many[offset + k] == few[k]);
    assert(after.nodes[few[k]->0 as int] == before.nodes[few[k]->0 as int]);
}

/// The dependencies of a project are installed for every toolchain that is configured for it.
proof fn all_are_installed(
    scene: SceneView,
    state: StateView,
    project: ProjectKeyView,
    toolchains: Seq<Seq<char>>,
)
    requires
        state.nodes.len() <= u32::MAX,
        install_all(scene, state, project, toolchains).1 is Ok,
    ensures
        ({
            let (after, edges) = install_all(scene, state, project, toolchains);
            let edges = edges->Ok_0;
            &&& grew(state, after)
            &&& after.nodes.len() <= u32::MAX
            &&& all_are_actions(after, edges)
            &&& forall|i: int, spec: SpecView|
                0 <= i < toolchains.len() && project_spec(scene, project, #[trigger] toolchains[i])
                    == Some(spec) && (#[trigger] installation_of(
                    scene,
                    Some(project),
                    spec,
                )) is Some ==> is_among(
                    after,
                    edges,
                    installation_of(scene, Some(project), spec)->0,
                )
        }),
    decreases toolchains.len(),
{
    install_all_prepares(scene, state, project, toolchains);
    if toolchains.len() > 0 {
        let rest = toolchains.drop_last();
        let last = toolchains.len() - 1;
        assert(toolchains[last] == toolchains.last());
        all_are_installed(scene, state, project, rest);
        let (before, given) = install_all(scene, state, project, rest);
        let given = given->Ok_0;
        let (after, edges) = install_all(scene, state, project, toolchains);
        let edges = edges->Ok_0;
        let spec = project_spec(scene, project, toolchains.last());
        if spec is Some {
            installations_wait_for_their_setup(scene, before, Some(project), spec->0);
        }
        assert forall|k: int|
            0 <= k < edges.len() && (#[trigger] edges[k]) is Some implies edges[k]->0
            < after.nodes.len() by {
            if k < given.len() {
                assert(given[k] == edges[k]);
            }
        }
        assert forall|i: int, spec: SpecView|
            0 <= i < toolchains.len() && project_spec(scene, project, #[trigger] toolchains[i])
                == Some(spec) && (#[trigger] installation_of(
                scene,
                Some(project),
                spec,
            )) is Some implies is_among(
            after,
            edges,
            installation_of(scene, Some(project), spec)->0,
        ) by {
            if i < last {
                assert(rest[i] == toolchains[i]);
                among_stays(
                    before,
                    after,
                    given,
                    edges,
                    0,
                    installation_of(scene, Some(project), spec)->0,
                );
            } else {
                assert(edges[given.len() as int] is Some);
            }
        }
    }
}

/// Everything that a task waits for besides other tasks is among its prerequisites: the
/// synchronisation of its project, the installations of its dependencies, and where there is
/// neither the synchronisation of its workspace.
pub open spec fn prerequisites_are_given(
    scene: SceneView,
    after: StateView,
    project: ProjectKeyView,
    toolchains: Seq<Seq<char>>,
    reqs: RunRequirements,
    edges: Seq<Option<usize>>,
) -> bool {
    &&& all_are_actions(after, edges)
    &&& project_is_wanted(scene, reqs, project, Set::empty()) ==> is_among(
        after,
        edges,
        NodeView::SyncProject { key: project },
    )
    &&& forall|i: int, spec: SpecView|
        0 <= i < toolchains.len() && project_spec(scene, project, #[trigger] toolchains[i]) == Some(
            spec,
        ) && (#[trigger] installation_of(scene, Some(project), spec)) is Some ==> is_among(
            after,
            edges,
            installation_of(scene, Some(project), spec)->0,
        )
    &&& scene.options.sync_workspace ==> exists|k: int|
        0 <= k < edges.len() && (#[trigger] edges[k]) is Some
}

proof fn prerequisites_are_complete(
    scene: SceneView,
    state: StateView,
    project: ProjectKeyView,
    toolchains: Seq<Seq<char>>,
    reqs: RunRequirements,
)
    requires
        state.nodes.len() <= u32::MAX,
        prerequisites(scene, state, project, toolchains, reqs).1 is Ok,
    ensures
        ({
            let (after, edges) = prerequisites(scene, state, project, toolchains, reqs);
            &&& grew(state, after)
            &&& after.nodes.len() <= u32::MAX
            &&& prerequisites_are_given(
                scene,
                after,
                project,
                toolchains,
                reqs,
                edges->Ok_0,
            )
        }),
{
    prerequisites_prepare(scene, state, project, toolchains, reqs);
    let (synced, first) = sync_project_step(scene, state, project, reqs, Set::empty());
    projects_wait_for_what_they_need(scene, state, project, reqs, Set::empty());
    let first = first->Ok_0;
    let (installed, given) = install_all(scene, synced, project, toolchains);
    all_are_installed(scene, synced, project, toolchains);
    let given = given->Ok_0;
    let both = seq![first] + given;
    let (after, edges) = prerequisites(scene, state, project, toolchains, reqs);
    let edges = edges->Ok_0;
    let (last, workspace) = sync_workspace_step(scene, installed, project.source);
    if first_some(both) is None {
        workspaces_are_synchronised_where_wanted(scene, installed, project.source);
    }
    assert(grew(installed, after));
    assert forall|k: int| 0 <= k < both.len() implies #[trigger] edges[k] == both[k] by {}
    assert forall|k: int| 0 <= k < edges.len() && (#[trigger] edges[k]) is Some implies edges[k]->0
        < after.nodes.len() by {
        if k == 0 {
            assert(edges[k] == first);
        } else if k < both.len() {
            assert(edges[k] == both[k]);
            assert(both[k] == given[k - 1]);
        }
    }
    if project_is_wanted(scene, reqs, project, Set::empty()) {
        let p = first->0 as int;
        assert(installed.nodes[p] == synced.nodes[p]);
        assert(after.nodes[p] == installed.nodes[p]);
        assert(edges[0] == both[0]);
        assert(is_among(after, edges, NodeView::SyncProject { key: project }));
    }
    assert forall|i: int, spec: SpecView|
        0 <= i < toolchains.len() && project_spec(scene, project, #[trigger] toolchains[i]) == Some(
            spec,
        ) && (#[trigger] installation_of(scene, Some(project), spec)) is Some implies is_among(
        after,
        edges,
        installation_of(scene, Some(project), spec)->0,
    ) by {
        assert forall|k: int| 0 <= k < given.len() implies #[trigger] given[k] == edges[1 + k] by {
            assert(both[1 + k] == given[k]);
        }
        among_stays(
            installed,
            after,
            given,
            edges,
            1,
            installation_of(scene, Some(project), spec)->0,
        );
    }
    if scene.options.sync_workspace {
        if first_some(both) is None {
            assert(edges[both.len() as int] is Some);
        } else {
            if forall|k: int| 0 <= k < both.len() ==> (#[trigger] both[k]) is None {
                none_is(both);
            }
            let k = choose|k: int| 0 <= k < both.len() && (#[trigger] both[k]) is Some;
            assert(edges[k] is Some);
        }
    }
}

/// How a dependency of a task is invoked.
pub open spec fn call_of(dependency: ResolvedView) -> CallView {
    CallView { args: dependency.args, env: dependency.env }
}

/// A run of a dependency is among some actions, or its invocation was set aside.
pub open spec fn dependency_is_given(
    scene: SceneView,
    after: StateView,
    reqs: RunRequirements,
    dependency: ResolvedView,
    edges: Seq<(Option<usize>, u8)>,
) -> bool {
    ||| after.passthrough.contains(invocation_of(dependency.key, call_of(dependency)))
    ||| exists|k: int|
        0 <= k < edges.len() && (#[trigger] edges[k]).0 is Some && edges[k].0->0
            < after.nodes.len() && after.nodes[edges[k].0->0 as int] == run_node(
            ready_task(scene, dependency.key)->Ok_0,
            dependency.key,
            reqs,
            call_of(dependency),
        )
}

proof fn dependencies_are_run(
    scene: SceneView,
    state: StateView,
    dependencies: Seq<ResolvedView>,
    parallel: bool,
    reqs: RunRequirements,
    depth: nat,
)
    requires
        state.nodes.len() <= u32::MAX,
        reqs.skip_affected,
        run_dependencies(scene, state, dependencies, parallel, reqs, depth).1 is Ok,
    ensures
        ({
            let (after, edges) = run_dependencies(
                scene,
                state,
                dependencies,
                parallel,
                reqs,
                depth,
            );
            let edges = edges->Ok_0;
            &&& run_keeps(scene, reqs, state, after)
            &&& forall|k: int|
                0 <= k < edges.len() ==> (#[trigger] edges[k]).0 is Some && edges[k].0->0
                    < after.nodes.len()
            &&& forall|i: int|
                0 <= i < dependencies.len() ==> dependency_is_given(
                    scene,
                    after,
                    reqs,
                    #[trigger] dependencies[i],
                    edges,
                )
        }),
    decreases dependencies.len(),
{
    dependencies_keep(scene, state, dependencies, parallel, reqs, depth);
    if dependencies.len() > 0 {
        let rest = dependencies.drop_last();
        let dependency = dependencies.last();
        let last = dependencies.len() - 1;
        assert(dependencies[last] == dependency);
        dependencies_are_run(scene, state, rest, parallel, reqs, depth);
        let (before, given) = run_dependencies(scene, state, rest, parallel, reqs, depth);
        let given = given->Ok_0;
        let (after, edges) = run_dependencies(scene, state, dependencies, parallel, reqs, depth);
        let edges = edges->Ok_0;
        let call = call_of(dependency);
        let (ran, found) = run_task_step(scene, before, dependency.key, reqs, call, depth, true);
        let found = found->Ok_0;
        assert(can_run(scene, reqs, dependency.key));
        a_run_gives_its_action(scene, before, dependency.key, reqs, call, depth, true);
        run_task_keeps(scene, before, dependency.key, reqs, call, depth, true);
        if found is Some && !parallel && given.len() > 0 {
            let previous = given.last().0->0;
            try_links_prepare(
                serial_walk(ran, seq![found->0], Seq::empty()),
                ran,
                previous,
            );
        }
        assert(grew(ran, after));
        assert(ran.passthrough == after.passthrough);
        assert forall|k: int| 0 <= k < edges.len() implies (#[trigger] edges[k]).0 is Some
            && edges[k].0->0 < after.nodes.len() by {
            if k < given.len() {
                assert(given[k] == edges[k]);
            }
        }
        assert forall|i: int| 0 <= i < dependencies.len() implies dependency_is_given(
            scene,
            after,
            reqs,
            #[trigger] dependencies[i],
            edges,
        ) by {
            if i < last {
                assert(rest[i] == dependencies[i]);
                assert(dependency_is_given(scene, before, reqs, rest[i], given));
                if !before.passthrough.contains(
                    invocation_of(rest[i].key, call_of(rest[i])),
                ) {
                    let k = choose|k: int|
                        0 <= k < given.len() && (#[trigger] given[k]).0 is Some && given[k].0->0
                            < before.nodes.len() && before.nodes[given[k].0->0 as int] == run_node(
                            ready_task(scene, rest[i].key)->Ok_0,
                            rest[i].key,
                            reqs,
                            call_of(rest[i]),
                        );
                    assert(edges[k] == given[k]);
                    let to = given[k].0->0 as int;
                    assert(ran.nodes[to] == before.nodes[to]);
                    assert(after.nodes[to] == ran.nodes[to]);
                }
            } else if found is Some {
                assert(edges[given.len() as int].0 == found);
                let to = found->0 as int;
                assert(after.nodes[to] == ran.nodes[to]);
            }
        }
    }
}

/// The runs of a task's dependencies are followed from here: always, or from the first task
/// alone.
pub open spec fn is_followed(scope: RelationScope, depth: nat) -> bool {
    ||| scope is Deep
    ||| scope is Direct && depth == 0
}

/// Actions that were given before a task was added are waited for.
pub open spec fn all_are_awaited(
    state: StateView,
    edges: Seq<Option<usize>>,
    after: StateView,
    index: usize,
) -> bool {
    forall|node: NodeView| #[trigger]
        is_among(state, edges, node) ==> waits_for_action(after, index, node)
}

/// The run of a task waits for everything that has to be there before it.
pub open spec fn run_is_prepared(
    scene: SceneView,
    after: StateView,
    project: ProjectKeyView,
    toolchains: Seq<Seq<char>>,
    reqs: RunRequirements,
    index: usize,
) -> bool {
    &&& project_is_wanted(scene, reqs, project, Set::empty()) ==> waits_for_action(
        after,
        index,
        NodeView::SyncProject { key: project },
    )
    &&& forall|i: int, spec: SpecView|
        0 <= i < toolchains.len() && project_spec(scene, project, #[trigger] toolchains[i]) == Some(
            spec,
        ) && (#[trigger] installation_of(scene, Some(project), spec)) is Some ==> waits_for_action(
            after,
            index,
            installation_of(scene, Some(project), spec)->0,
        )
    &&& scene.options.sync_workspace ==> exists|to: usize| #[trigger]
        has_edge(after.graph.edges, index, to)
}

/// The run of a task waits for the run of one that it depends on, unless that is set aside.
pub open spec fn dependency_is_awaited(
    scene: SceneView,
    after: StateView,
    reqs: RunRequirements,
    dependency: ResolvedView,
    index: usize,
) -> bool {
    ||| after.passthrough.contains(invocation_of(dependency.key, call_of(dependency)))
    ||| waits_for_action(
        after,
        index,
        run_node(
            ready_task(scene, dependency.key)->Ok_0,
            dependency.key,
            reqs,
            call_of(dependency),
        ),
    )
}

proof fn linked_are_awaited(state: StateView, index: usize, edges: Seq<Option<usize>>)
    requires
        state.nodes.len() <= u32::MAX,
        index < state.nodes.len(),
        link_all(state, index, required(edges)).1 is Ok,
    ensures
        all_are_awaited(state, edges, link_all(state, index, required(edges)).0, index),
        grew(state, link_all(state, index, required(edges)).0),
        link_all(state, index, required(edges)).0.passthrough == state.passthrough,
        link_all(state, index, required(edges)).0.nodes == state.nodes,
        forall|k: int|
            0 <= k < edges.len() && (#[trigger] edges[k]) is Some ==> has_edge(
                link_all(state, index, required(edges)).0.graph.edges,
                index,
                edges[k]->0,
            ),
{
    let after = link_all(state, index, required(edges)).0;
    link_all_waits(state, index, required(edges));
    linking_adds_no_action(state, index, required(edges));
    link_all_prepares(state, index, required(edges));
    assert forall|k: int| 0 <= k < edges.len() && (#[trigger] edges[k]) is Some implies has_edge(
        after.graph.edges,
        index,
        edges[k]->0,
    ) by {
        assert(required(edges)[k].0 == edges[k]);
    }
    assert forall|node: NodeView| #[trigger]
        is_among(state, edges, node) implies waits_for_action(after, index, node) by {
        let k = choose|k: int|
            0 <= k < edges.len() && (#[trigger] edges[k]) is Some && edges[k]->0
                < state.nodes.len() && state.nodes[edges[k]->0 as int] == node;
        assert(has_edge(after.graph.edges, index, edges[k]->0));
    }
}

proof fn linked_dependencies_are_awaited(
    scene: SceneView,
    state: StateView,
    reqs: RunRequirements,
    index: usize,
    dependencies: Seq<ResolvedView>,
    edges: Seq<(Option<usize>, u8)>,
)
    requires
        state.nodes.len() <= u32::MAX,
        index < state.nodes.len(),
        link_all(state, index, edges).1 is Ok,
        forall|i: int|
            0 <= i < dependencies.len() ==> dependency_is_given(
                scene,
                state,
                reqs,
                #[trigger] dependencies[i],
                edges,
            ),
    ensures
        forall|i: int|
            0 <= i < dependencies.len() ==> dependency_is_awaited(
                scene,
                link_all(state, index, edges).0,
                reqs,
                #[trigger] dependencies[i],
                index,
            ),
{
    let after = link_all(state, index, edges).0;
    link_all_waits(state, index, edges);
    linking_adds_no_action(state, index, edges);
    link_all_prepares(state, index, edges);
    assert forall|i: int| 0 <= i < dependencies.len() implies dependency_is_awaited(
        scene,
        after,
        reqs,
        #[trigger] dependencies[i],
        index,
    ) by {
        let dependency = dependencies[i];
        assert(dependency_is_given(scene, state, reqs, dependency, edges));
        if !state.passthrough.contains(invocation_of(dependency.key, call_of(dependency))) {
            let k = choose|k: int|
                0 <= k < edges.len() && (#[trigger] edges[k]).0 is Some && edges[k].0->0
                    < state.nodes.len() && state.nodes[edges[k].0->0 as int] == run_node(
                    ready_task(scene, dependency.key)->Ok_0,
                    dependency.key,
                    reqs,
                    call_of(dependency),
                );
            assert(has_edge(after.graph.edges, index, edges[k].0->0));
        }
    }
}

proof fn awaiting_stays(
    scene: SceneView,
    before: StateView,
    after: StateView,
    reqs: RunRequirements,
    dependencies: Seq<ResolvedView>,
    index: usize,
)
    requires
        grew(before, after),
        before.passthrough.subset_of(after.passthrough),
        forall|i: int|
            0 <= i < dependencies.len() ==> dependency_is_awaited(
                scene,
                before,
                reqs,
                #[trigger] dependencies[i],
                index,
            ),
    ensures
        forall|i: int|
            0 <= i < dependencies.len() ==> dependency_is_awaited(
                scene,
                after,
                reqs,
                #[trigger] dependencies[i],
                index,
            ),
{
    assert forall|i: int| 0 <= i < dependencies.len() implies dependency_is_awaited(
        scene,
        after,
        reqs,
        #[trigger] dependencies[i],
        index,
    ) by {
        let dependency = dependencies[i];
        let node = run_node(
            ready_task(scene, dependency.key)->Ok_0,
            dependency.key,
            reqs,
            call_of(dependency),
        );
        assert(dependency_is_awaited(scene, before, reqs, dependency, index));
        if waits_for_action(before, index, node) {
            waiting_stays(before, after, index, node);
        }
    }
}

proof fn preparation_stays(
    scene: SceneView,
    given: StateView,
    edges: Seq<Option<usize>>,
    before: StateView,
    after: StateView,
    project: ProjectKeyView,
    toolchains: Seq<Seq<char>>,
    reqs: RunRequirements,
    index: usize,
)
    requires
        prerequisites_are_given(scene, given, project, toolchains, reqs, edges),
        grew(given, before),
        all_are_awaited(before, edges, after, index),
        forall|k: int|
            0 <= k < edges.len() && (#[trigger] edges[k]) is Some ==> has_edge(
                after.graph.edges,
                index,
                edges[k]->0,
            ),
    ensures
        run_is_prepared(scene, after, project, toolchains, reqs, index),
{
    if project_is_wanted(scene, reqs, project, Set::empty()) {
        among_stays(given, before, edges, edges, 0, NodeView::SyncProject { key: project });
    }
    assert forall|i: int, spec: SpecView|
        0 <= i < toolchains.len() && project_spec(scene, project, #[trigger] toolchains[i]) == Some(
            spec,
        ) && (#[trigger] installation_of(
            scene,
            Some(project),
            spec,
        )) is Some implies waits_for_action(
        after,
        index,
        installation_of(scene, Some(project), spec)->0,
    ) by {
        let node = installation_of(scene, Some(project), spec)->0;
        among_stays(given, before, edges, edges, 0, node);
    }
    if scene.options.sync_workspace {
        let k = choose|k: int| 0 <= k < edges.len() && (#[trigger] edges[k]) is Some;
        assert(has_edge(after.graph.edges, index, edges[k]->0));
    }
}

proof fn prepared_grows(
    scene: SceneView,
    before: StateView,
    after: StateView,
    project: ProjectKeyView,
    toolchains: Seq<Seq<char>>,
    reqs: RunRequirements,
    index: usize,
)
    requires
        grew(before, after),
        run_is_prepared(scene, before, project, toolchains, reqs, index),
    ensures
        run_is_prepared(scene, after, project, toolchains, reqs, index),
{
    if project_is_wanted(scene, reqs, project, Set::empty()) {
        waiting_stays(before, after, index, NodeView::SyncProject { key: project });
    }
    assert forall|i: int, spec: SpecView|
        0 <= i < toolchains.len() && project_spec(scene, project, #[trigger] toolchains[i]) == Some(
            spec,
        ) && (#[trigger] installation_of(
            scene,
            Some(project),
            spec,
        )) is Some implies waits_for_action(
        after,
        index,
        installation_of(scene, Some(project), spec)->0,
    ) by {
        waiting_stays(
            before,
            after,
            index,
            installation_of(scene, Some(project), spec)->0,
        );
    }
    if scene.options.sync_workspace {
        let to = choose|to: usize| #[trigger] has_edge(before.graph.edges, index, to);
        edges_stay(before, after, index, to);
        assert(has_edge(after.graph.edges, index, to));
    }
}

proof fn edges_stay(before: StateView, after: StateView, from: usize, to: usize)
    requires
        grew(before, after),
        has_edge(before.graph.edges, from, to),
    ensures
        has_edge(after.graph.edges, from, to),
{
    let k = choose|k: int|
        0 <= k < before.graph.edges.len() && (#[trigger] before.graph.edges[k]).0 == from
            && before.graph.edges[k].1 == to;
    assert(after.graph.edges[k] == before.graph.edges[k]);
}

proof fn a_new_run_waits(
    scene: SceneView,
    state: StateView,
    node: NodeView,
    key: TaskKeyView,
    task: TaskView,
    project: ProjectKeyView,
    reqs: RunRequirements,
    depth: nat,
    below: bool,
    above: bool,
)
    requires
        state.nodes.len() <= u32::MAX,
        reqs.dependencies is Deep ==> below,
        new_task_step(
            scene,
            state,
            node,
            key,
            task,
            project,
            reqs,
            depth,
            below,
            above,
        ).1 matches Ok(Some(_)),
    ensures
        ({
            let (after, found) = new_task_step(
                scene,
                state,
                node,
                key,
                task,
                project,
                reqs,
                depth,
                below,
                above,
            );
            let index = found->Ok_0->0;
            &&& index < after.nodes.len()
            &&& after.nodes[index as int] == node
            &&& run_is_prepared(scene, after, project, task.toolchains, reqs, index)
            &&& below ==> forall|i: int|
                0 <= i < resolved_for(scene, key).len() ==> dependency_is_awaited(
                    scene,
                    after,
                    RunRequirements { skip_affected: true, ..reqs },
                    #[trigger] resolved_for(scene, key)[i],
                    index,
                )
        }),
{
    let (after, found) = new_task_step(
        scene,
        state,
        node,
        key,
        task,
        project,
        reqs,
        depth,
        below,
        above,
    );
    let inner = RunRequirements { skip_affected: true, ..reqs };
    let dependencies = resolved_for(scene, key);
    let neighbors = task_neighbors(scene.tasks, key, Direction::Incoming);
    let (prepared, first) = prerequisites(scene, state, project, task.toolchains, reqs);
    assert(first is Ok);
    prerequisites_are_complete(scene, state, project, task.toolchains, reqs);
    let first = first->Ok_0;
    let (added, place) = with_node(prepared, node);
    assert(place matches Ok(Some(_)));
    let place = place->Ok_0->0;
    assert(grew(prepared, added));
    assert(place < added.nodes.len() && added.nodes[place as int] == node);
    let (before, edges) = wanted_dependencies(scene, added, key, task, reqs, depth, below);
    assert(edges is Ok);
    wanted_keep(scene, added, key, task, reqs, depth, below);
    let edges = edges->Ok_0;
    assert(grew(added, before));
    if below {
        dependencies_are_run(
            scene,
            added,
            dependencies,
            task.options.run_deps_in_parallel,
            inner,
            depth,
        );
    }
    let front = link_all(before, place, required(first)).0;
    let linked = link_both(before, place, required(first), edges).0;
    assert(link_all(before, place, required(first)).1 is Ok);
    assert(linked == link_all(front, place, edges).0);
    assert(link_all(front, place, edges).1 is Ok);
    linked_are_awaited(before, place, first);
    assert(grew(prepared, before)) by {
        assert forall|i: int| 0 <= i < prepared.nodes.len() implies #[trigger] before.nodes[i]
            == prepared.nodes[i] by {
            assert(added.nodes[i] == prepared.nodes[i]);
        }
        assert forall|i: int|
            0 <= i < prepared.graph.edges.len() implies #[trigger] before.graph.edges[i]
            == prepared.graph.edges[i] by {
            assert(added.graph.edges[i] == prepared.graph.edges[i]);
        }
    }
    preparation_stays(
        scene,
        prepared,
        first,
        before,
        front,
        project,
        task.toolchains,
        reqs,
        place,
    );
    if below {
        assert forall|i: int| 0 <= i < dependencies.len() implies dependency_is_given(
            scene,
            front,
            inner,
            #[trigger] dependencies[i],
            edges,
        ) by {
            assert(dependency_is_given(scene, before, inner, dependencies[i], edges));
        }
        linked_dependencies_are_awaited(scene, front, inner, place, dependencies, edges);
    }
    linking_adds_no_action(front, place, edges);
    link_all_prepares(front, place, edges);
    assert(grew(front, linked));
    prepared_grows(scene, front, linked, project, task.toolchains, reqs, place);
    if above {
        dependents_keep(scene, linked, neighbors, reqs, depth, true, Some(place));
    }
    assert(found == Ok::<Option<usize>, ActionGraphFault>(Some(place)));
    assert(grew(linked, after));
    assert(linked.passthrough.subset_of(after.passthrough));
    assert(after.nodes[place as int] == linked.nodes[place as int]);
    assert(linked.nodes[place as int] == before.nodes[place as int]);
    prepared_grows(scene, linked, after, project, task.toolchains, reqs, place);
    if below {
        awaiting_stays(scene, linked, after, inner, dependencies, place);
    }
}

/// The run of a task that is added waits for everything that has to be there before it: the
/// synchronisation of its project, the installations of its dependencies, where there is
/// neither its workspace, and, where dependencies are followed, the runs of all tasks that it
/// depends on and that are not set aside.
pub proof fn runs_wait_for_what_they_need(
    scene: SceneView,
    state: StateView,
    key: TaskKeyView,
    reqs: RunRequirements,
    call: CallView,
    depth: nat,
    via_dependency: bool,
)
    requires
        state.nodes.len() <= u32::MAX,
        !is_set_aside(scene, reqs, key),
        run_task_step(scene, state, key, reqs, call, depth, via_dependency).1 matches Ok(Some(_)),
        !state.nodes.contains(run_node(ready_task(scene, key)->Ok_0, key, reqs, call)),
    ensures
        ({
            let (after, found) = run_task_step(
                scene,
                state,
                key,
                reqs,
                call,
                depth,
                via_dependency,
            );
            let index = found->Ok_0->0;
            let task = ready_task(scene, key)->Ok_0;
            let project = key_of_project(unexpanded(scene.projects, key.project)->Ok_0);
            &&& index < after.nodes.len()
            &&& after.nodes[index as int] == run_node(task, key, reqs, call)
            &&& run_is_prepared(scene, after, project, task.toolchains, reqs, index)
            &&& is_followed(reqs.dependencies, depth) ==> forall|i: int|
                0 <= i < resolved_for(scene, key).len() ==> dependency_is_awaited(
                    scene,
                    after,
                    RunRequirements { skip_affected: true, ..reqs },
                    #[trigger] resolved_for(scene, key)[i],
                    index,
                )
        }),
{
    let task = ready_task(scene, key)->Ok_0;
    let node = run_node(task, key, reqs, call);
    let below = in_scope(reqs.dependencies, depth);
    let above = !via_dependency && in_scope(reqs.dependents, depth);
    let freed = without_marks(state, key, below, above);
    let project = key_of_project(unexpanded(scene.projects, key.project)->Ok_0);
    place_is_first(state.nodes, node);
    if place_of_node(state.nodes, node) is Some {
        let i = place_of_node(state.nodes, node)->0;
        assert(state.nodes[i as int] == node);
    }
    a_new_run_waits(
        scene,
        freed,
        node,
        key,
        task,
        project,
        reqs,
        depth + 1,
        below,
        above,
    );
}

/// A task is run as it is, or its run was set aside.
pub open spec fn is_run_or_set_aside(
    scene: SceneView,
    after: StateView,
    reqs: RunRequirements,
    key: TaskKeyView,
) -> bool {
    ||| after.passthrough.contains(invocation_of(key, plain_call()))
    ||| after.nodes.contains(run_node(ready_task(scene, key)->Ok_0, key, reqs, plain_call()))
}

proof fn dependents_are_run(
    scene: SceneView,
    state: StateView,
    keys: Seq<TaskKeyView>,
    reqs: RunRequirements,
    depth: nat,
    index: Option<usize>,
)
    requires
        state.nodes.len() <= u32::MAX,
        dependents_then(scene, state, keys, reqs, depth, true, index).1 is Ok,
    ensures
        ({
            let after = dependents_then(scene, state, keys, reqs, depth, true, index).0;
            let inner = RunRequirements { skip_affected: false, ..reqs };
            &&& run_keeps(scene, reqs, state, after)
            &&& forall|i: int|
                0 <= i < keys.len() && task_counts(scene, inner, #[trigger] keys[i])
                    ==> is_run_or_set_aside(scene, after, inner, keys[i])
        }),
    decreases keys.len(),
{
    dependents_keep(scene, state, keys, reqs, depth, true, index);
    if keys.len() > 0 {
        let rest = keys.drop_last();
        let last = keys.len() - 1;
        let key = keys.last();
        let inner = RunRequirements { skip_affected: false, ..reqs };
        assert(keys[last] == key);
        dependents_are_run(scene, state, rest, reqs, depth, index);
        let before = dependents_then(scene, state, rest, reqs, depth, true, index).0;
        let after = dependents_then(scene, state, keys, reqs, depth, true, index).0;
        run_task_keeps(scene, before, key, inner, plain_call(), depth, false);
        assert forall|i: int|
            0 <= i < keys.len() && task_counts(scene, inner, #[trigger] keys[i]) implies
            is_run_or_set_aside(scene, after, inner, keys[i]) by {
            if i < last {
                assert(rest[i] == keys[i]);
                assert(is_run_or_set_aside(scene, before, inner, rest[i]));
                let node = run_node(
                    ready_task(scene, keys[i])->Ok_0,
                    keys[i],
                    inner,
                    plain_call(),
                );
                if before.nodes.contains(node) {
                    let k = choose|k: int| 0 <= k < before.nodes.len() && before.nodes[k] == node;
                    assert(after.nodes[k] == node);
                }
            } else {
                assert(can_run(scene, inner, key));
                a_run_gives_its_action(scene, before, key, inner, plain_call(), depth, false);
                let found = run_task_step(
                    scene,
                    before,
                    key,
                    inner,
                    plain_call(),
                    depth,
                    false,
                ).1->Ok_0;
                if found is Some {
                    assert(after.nodes[found->0 as int] == run_node(
                        ready_task(scene, key)->Ok_0,
                        key,
                        inner,
                        plain_call(),
                    ));
                }
            }
        }
    }
}

/// Where dependents are followed, a task that is added, or set aside, brings with it the run of
/// every task that depends on it and counts as affected, unless that is set aside.
pub proof fn runs_bring_their_dependents(
    scene: SceneView,
    state: StateView,
    key: TaskKeyView,
    reqs: RunRequirements,
    call: CallView,
    depth: nat,
    other: usize,
)
    requires
        state.nodes.len() <= u32::MAX,
        can_run(scene, reqs, key),
        run_task_step(scene, state, key, reqs, call, depth, false).1 is Ok,
        !state.passthrough.contains(invocation_of(key, call)),
        !state.nodes.contains(run_node(ready_task(scene, key)->Ok_0, key, reqs, call)),
        is_followed(reqs.dependents, depth),
        has_edge(scene.tasks.graph.edges, other, scene.tasks.nodes[key].index),
        task_counts(
            scene,
            RunRequirements { skip_affected: false, ..reqs },
            scene.tasks.indexes[other as int],
        ),
    ensures
        is_run_or_set_aside(
            scene,
            run_task_step(scene, state, key, reqs, call, depth, false).0,
            RunRequirements { skip_affected: false, ..reqs },
            scene.tasks.indexes[other as int],
        ),
{
    let task = ready_task(scene, key)->Ok_0;
    let node = run_node(task, key, reqs, call);
    let below = in_scope(reqs.dependencies, depth);
    let project = key_of_project(unexpanded(scene.projects, key.project)->Ok_0);
    let keys = task_neighbors(scene.tasks, key, Direction::Incoming);
    let numbers = crate::graph::neighbors(
        scene.tasks.graph.edges,
        scene.tasks.nodes[key].index,
        Direction::Incoming,
    );
    crate::graph::neighbors_are_edges(
        scene.tasks.graph.edges,
        scene.tasks.nodes[key].index,
        Direction::Incoming,
        other,
    );
    let i = choose|i: int| 0 <= i < numbers.len() && numbers[i] == other;
    assert(keys[i] == scene.tasks.indexes[other as int]);
    place_is_first(state.nodes, node);
    if place_of_node(state.nodes, node) is Some {
        let k = place_of_node(state.nodes, node)->0;
        assert(state.nodes[k as int] == node);
    }
    if is_set_aside(scene, reqs, key) {
        let marked = StateView {
            passthrough: state.passthrough.insert(invocation_of(key, call)),
            ..state
        };
        dependents_are_run(scene, marked, keys, reqs, depth + 1, None);
    } else {
        let freed = without_marks(state, key, below, true);
        new_runs_bring_their_dependents(
            scene,
            freed,
            node,
            key,
            task,
            project,
            reqs,
            depth + 1,
            below,
            i,
        );
    }
}

proof fn new_runs_bring_their_dependents(
    scene: SceneView,
    state: StateView,
    node: NodeView,
    key: TaskKeyView,
    task: TaskView,
    project: ProjectKeyView,
    reqs: RunRequirements,
    depth: nat,
    below: bool,
    i: int,
)
    requires
        state.nodes.len() <= u32::MAX,
        reqs.dependencies is Deep ==> below,
        new_task_step(scene, state, node, key, task, project, reqs, depth, below, true).1 is Ok,
        0 <= i < task_neighbors(scene.tasks, key, Direction::Incoming).len(),
        task_counts(
            scene,
            RunRequirements { skip_affected: false, ..reqs },
            task_neighbors(scene.tasks, key, Direction::Incoming)[i],
        ),
    ensures
        is_run_or_set_aside(
            scene,
            new_task_step(scene, state, node, key, task, project, reqs, depth, below, true).0,
            RunRequirements { skip_affected: false, ..reqs },
            task_neighbors(scene.tasks, key, Direction::Incoming)[i],
        ),
{
    let keys = task_neighbors(scene.tasks, key, Direction::Incoming);
    let (prepared, first) = prerequisites(scene, state, project, task.toolchains, reqs);
    prerequisites_prepare(scene, state, project, task.toolchains, reqs);
    let first = first->Ok_0;
    let (added, place) = with_node(prepared, node);
    let place = place->Ok_0->0;
    let (before, edges) = wanted_dependencies(scene, added, key, task, reqs, depth, below);
    wanted_keep(scene, added, key, task, reqs, depth, below);
    let edges = edges->Ok_0;
    let front = link_all(before, place, required(first)).0;
    linking_adds_no_action(before, place, required(first));
    linking_adds_no_action(front, place, edges);
    let linked = link_both(before, place, required(first), edges).0;
    dependents_are_run(scene, linked, keys, reqs, depth, Some(place));
}

proof fn apart_stays(before: StateView, after: StateView, index: usize, previous: usize)
    requires
        grew(before, after),
        is_apart(before, index, previous),
    ensures
        is_apart(after, index, previous),
{
    if has_edge(before.graph.edges, index, previous) {
        edges_stay(before, after, index, previous);
    } else {
        let steps = choose|steps: nat|
            walk(before.graph.edges, previous, index, steps);
        assert forall|a: usize, b: usize| #[trigger] has_edge(before.graph.edges, a, b) implies
            has_edge(after.graph.edges, a, b) by {
            edges_stay(before, after, a, b);
        }
        walk_in_more(before.graph.edges, after.graph.edges, previous, index, steps);
    }
}

/// Every run that is given for a dependency is one of a dependency, of the kind that it is
/// declared with. Dependencies that are not run in parallel follow each other: every run waits
/// for the one before, unless that already waits for it.
pub proof fn dependencies_run_as_declared(
    scene: SceneView,
    state: StateView,
    dependencies: Seq<ResolvedView>,
    parallel: bool,
    reqs: RunRequirements,
    depth: nat,
)
    requires
        state.nodes.len() <= u32::MAX,
        reqs.skip_affected,
        run_dependencies(scene, state, dependencies, parallel, reqs, depth).1 is Ok,
    ensures
        ({
            let (after, edges) = run_dependencies(
                scene,
                state,
                dependencies,
                parallel,
                reqs,
                depth,
            );
            let edges = edges->Ok_0;
            &&& forall|k: int|
                0 <= k < edges.len() ==> exists|i: int|
                    0 <= i < dependencies.len() && is_of_its_kind(
                        scene,
                        after,
                        reqs,
                        #[trigger] dependencies[i],
                        #[trigger] edges[k],
                    )
            &&& !parallel && after.graph.edges.len() < u32::MAX ==> forall|k: int|
                1 <= k < edges.len() ==> is_apart(
                    after,
                    (#[trigger] edges[k]).0->0,
                    edges[k - 1].0->0,
                )
        }),
    decreases dependencies.len(),
{
    dependencies_are_run(scene, state, dependencies, parallel, reqs, depth);
    if dependencies.len() > 0 {
        let rest = dependencies.drop_last();
        let last = dependencies.len() - 1;
        let dependency = dependencies.last();
        assert(dependencies[last] == dependency);
        dependencies_run_as_declared(scene, state, rest, parallel, reqs, depth);
        dependencies_are_run(scene, state, rest, parallel, reqs, depth);
        let (before, given) = run_dependencies(scene, state, rest, parallel, reqs, depth);
        let given = given->Ok_0;
        let (after, edges) = run_dependencies(scene, state, dependencies, parallel, reqs, depth);
        let edges = edges->Ok_0;
        let call = call_of(dependency);
        let (ran, found) = run_task_step(scene, before, dependency.key, reqs, call, depth, true);
        let found = found->Ok_0;
        assert(can_run(scene, reqs, dependency.key));
        a_run_gives_its_action(scene, before, dependency.key, reqs, call, depth, true);
        run_task_keeps(scene, before, dependency.key, reqs, call, depth, true);
        if found is Some && !parallel && given.len() > 0 {
            let previous = given.last().0->0;
            let walked = serial_walk(ran, seq![found->0], Seq::empty());
            try_links_prepare(walked, ran, previous);
            actions_that_follow_are_kept_apart(ran, found->0, previous);
            walks_begin_at_their_start(ran, found->0);
            assert(walked[0] == found->0);
        }
        assert(grew(before, ran) && grew(ran, after));
        assert(grew(before, after)) by {
            assert forall|i: int| 0 <= i < before.nodes.len() implies #[trigger] after.nodes[i]
                == before.nodes[i] by {
                assert(ran.nodes[i] == before.nodes[i]);
            }
            assert forall|i: int|
                0 <= i < before.graph.edges.len() implies #[trigger] after.graph.edges[i]
                == before.graph.edges[i] by {
                assert(ran.graph.edges[i] == before.graph.edges[i]);
            }
        }
        assert forall|k: int| 0 <= k < edges.len() implies exists|i: int|
            0 <= i < dependencies.len() && is_of_its_kind(
                scene,
                after,
                reqs,
                #[trigger] dependencies[i],
                #[trigger] edges[k],
            ) by {
            if k < given.len() {
                assert(edges[k] == given[k]);
                let i = choose|i: int|
                    0 <= i < rest.len() && is_of_its_kind(
                        scene,
                        before,
                        reqs,
                        #[trigger] rest[i],
                        given[k],
                    );
                assert(dependencies[i] == rest[i]);
                let to = given[k].0->0 as int;
                assert(after.nodes[to] == before.nodes[to]);
                assert(is_of_its_kind(scene, after, reqs, dependencies[i], edges[k]));
            } else {
                let to = found->0 as int;
                assert(after.nodes[to] == ran.nodes[to]);
                assert(is_of_its_kind(scene, after, reqs, dependencies[last], edges[k]));
            }
        }
        if !parallel && after.graph.edges.len() < u32::MAX {
            assert forall|k: int| 1 <= k < edges.len() implies is_apart(
                after,
                (#[trigger] edges[k]).0->0,
                edges[k - 1].0->0,
            ) by {
                assert(edges[k - 1] == given[k - 1]);
                if k < given.len() {
                    assert(edges[k] == given[k]);
                    assert(is_apart(before, given[k].0->0, given[k - 1].0->0));
                    apart_stays(before, after, given[k].0->0, given[k - 1].0->0);
                }
            }
        }
    }
}

/// A run is given for a dependency: it is an action that runs it as it is called for, needed
/// where the dependency is required, and else only where it is there.
pub open spec fn is_of_its_kind(
    scene: SceneView,
    after: StateView,
    reqs: RunRequirements,
    dependency: ResolvedView,
    edge: (Option<usize>, u8),
) -> bool {
    &&& edge.0 is Some
    &&& edge.0->0 < after.nodes.len()
    &&& after.nodes[edge.0->0 as int] == run_node(
        ready_task(scene, dependency.key)->Ok_0,
        dependency.key,
        reqs,
        call_of(dependency),
    )
    &&& match dependency.dependency_type {
        TaskDependencyType::Optional => edge.1 == 0,
        TaskDependencyType::Required => edge.1 == 1,
    }
}

proof fn walks_begin_at_their_start(state: StateView, index: usize)
    requires
        state.nodes.len() > 0,
    ensures
        serial_walk(state, seq![index], Seq::empty()).len() > 0,
        serial_walk(state, seq![index], Seq::empty())[0] == index,
{
    let start = seq![index];
    let children = start.drop_last() + crate::action_state::task_children(
        state,
        index,
        state.graph.edges.len() as int,
    );
    assert(start.last() == index);
    let seen = Seq::<usize>::empty().push(index);
    assert(serial_walk(state, start, Seq::empty()) == serial_walk(state, children, seen));
    walks_keep_what_was_seen(state, children, seen);
}

proof fn walks_keep_what_was_seen(state: StateView, stack: Seq<usize>, seen: Seq<usize>)
    requires
        seen.len() > 0,
    ensures
        serial_walk(state, stack, seen).len() > 0,
        serial_walk(state, stack, seen)[0] == seen[0],
    decreases state.nodes.len() - seen.len(), stack.len(),
{
    if !(stack.len() == 0 || seen.len() >= state.nodes.len()) {
        if seen.contains(stack.last()) {
            walks_keep_what_was_seen(state, stack.drop_last(), seen);
        } else {
            walks_keep_what_was_seen(
                state,
                stack.drop_last() + crate::action_state::task_children(
                    state,
                    stack.last(),
                    state.graph.edges.len() as int,
                ),
                seen.push(stack.last()),
            );
        }
    }
}

proof fn a_known_run_waits(
    scene: SceneView,
    state: StateView,
    index: usize,
    key: TaskKeyView,
    task: TaskView,
    reqs: RunRequirements,
    depth: nat,
    above: bool,
)
    requires
        state.nodes.len() <= u32::MAX,
        index < state.nodes.len(),
        known_task_step(scene, state, index, key, task, reqs, depth, true, above).1 is Ok,
    ensures
        ({
            let after = known_task_step(
                scene,
                state,
                index,
                key,
                task,
                reqs,
                depth,
                true,
                above,
            ).0;
            forall|i: int|
                0 <= i < resolved_for(scene, key).len() ==> dependency_is_awaited(
                    scene,
                    after,
                    RunRequirements { skip_affected: true, ..reqs },
                    #[trigger] resolved_for(scene, key)[i],
                    index,
                )
        }),
{
    let inner = RunRequirements { skip_affected: true, ..reqs };
    let dependencies = resolved_for(scene, key);
    let neighbors = task_neighbors(scene.tasks, key, Direction::Incoming);
    let parallel = task.options.run_deps_in_parallel;
    dependencies_are_run(scene, state, dependencies, parallel, inner, depth);
    let (before, edges) = run_dependencies(scene, state, dependencies, parallel, inner, depth);
    let edges = edges->Ok_0;
    let linked = link_all(before, index, edges).0;
    linked_dependencies_are_awaited(scene, before, inner, index, dependencies, edges);
    linking_adds_no_action(before, index, edges);
    dependents_keep(scene, linked, neighbors, reqs, depth, above, Some(index));
    let after = known_task_step(scene, state, index, key, task, reqs, depth, true, above).0;
    assert(grew(linked, after));
    awaiting_stays(scene, linked, after, inner, dependencies, index);
}

/// A run that was added without its dependencies waits for them once they are followed.
pub proof fn known_runs_catch_up(
    scene: SceneView,
    state: StateView,
    key: TaskKeyView,
    reqs: RunRequirements,
    call: CallView,
    depth: nat,
    via_dependency: bool,
)
    requires
        state.nodes.len() <= u32::MAX,
        !is_set_aside(scene, reqs, key),
        run_task_step(scene, state, key, reqs, call, depth, via_dependency).1 matches Ok(Some(_)),
        state.nodes.contains(run_node(ready_task(scene, key)->Ok_0, key, reqs, call)),
        state.ignored_dependencies.dom().contains(key),
        is_followed(reqs.dependencies, depth),
    ensures
        ({
            let (after, found) = run_task_step(
                scene,
                state,
                key,
                reqs,
                call,
                depth,
                via_dependency,
            );
            forall|i: int|
                0 <= i < resolved_for(scene, key).len() ==> dependency_is_awaited(
                    scene,
                    after,
                    RunRequirements { skip_affected: true, ..reqs },
                    #[trigger] resolved_for(scene, key)[i],
                    found->Ok_0->0,
                )
        }),
{
    let task = ready_task(scene, key)->Ok_0;
    let node = run_node(task, key, reqs, call);
    let above = !via_dependency && in_scope(reqs.dependents, depth);
    let freed = without_marks(state, key, true, above);
    let neighbors = task_neighbors(scene.tasks, key, Direction::Incoming);
    place_is_first(state.nodes, node);
    let k = choose|k: int| 0 <= k < state.nodes.len() && state.nodes[k] == node;
    assert(place_of_node(state.nodes, node) is Some);
    let index = place_of_node(state.nodes, node)->0;
    let wanted = above && state.ignored_dependents.contains(key);
    a_known_run_waits(scene, freed, index, key, task, reqs, depth + 1, wanted);
    a_run_gives_its_action(scene, state, key, reqs, call, depth, via_dependency);
    let inner = RunRequirements { skip_affected: true, ..reqs };
    let (before, edges) = run_dependencies(
        scene,
        freed,
        resolved_for(scene, key),
        task.options.run_deps_in_parallel,
        inner,
        depth + 1,
    );
    dependencies_keep(
        scene,
        freed,
        resolved_for(scene, key),
        task.options.run_deps_in_parallel,
        inner,
        depth + 1,
    );
    let linked = link_all(before, index, edges->Ok_0).0;
    linking_adds_no_action(before, index, edges->Ok_0);
    dependents_keep(scene, linked, neighbors, reqs, depth + 1, wanted, Some(index));
}

proof fn linking_forgets_nothing(state: StateView, index: usize, edges: Seq<(Option<usize>, u8)>)
    ensures
        link_all(state, index, edges).0.ignored_dependencies == state.ignored_dependencies,
        link_all(state, index, edges).0.ignored_dependents == state.ignored_dependents,
    decreases edges.len(),
{
    if edges.len() > 0 {
        linking_forgets_nothing(state, index, edges.drop_last());
    }
}

/// A run that is added for another, or where dependents are not followed, remembers that its
/// dependents were left out, and where its dependencies are not followed, that it has some.
pub proof fn runs_remember_what_was_left_out(
    scene: SceneView,
    state: StateView,
    key: TaskKeyView,
    reqs: RunRequirements,
    call: CallView,
    depth: nat,
    via_dependency: bool,
)
    requires
        state.nodes.len() <= u32::MAX,
        !is_set_aside(scene, reqs, key),
        run_task_step(scene, state, key, reqs, call, depth, via_dependency).1 matches Ok(Some(_)),
        !state.nodes.contains(run_node(ready_task(scene, key)->Ok_0, key, reqs, call)),
        via_dependency || !is_followed(reqs.dependents, depth),
    ensures
        ({
            let after = run_task_step(scene, state, key, reqs, call, depth, via_dependency).0;
            &&& after.ignored_dependents.contains(key)
            &&& !is_followed(reqs.dependencies, depth) && resolved_for(scene, key).len() > 0
                ==> after.ignored_dependencies.dom().contains(key)
        }),
{
    let task = ready_task(scene, key)->Ok_0;
    let node = run_node(task, key, reqs, call);
    let below = in_scope(reqs.dependencies, depth);
    let freed = without_marks(state, key, below, false);
    let project = key_of_project(unexpanded(scene.projects, key.project)->Ok_0);
    place_is_first(state.nodes, node);
    if place_of_node(state.nodes, node) is Some {
        let i = place_of_node(state.nodes, node)->0;
        assert(state.nodes[i as int] == node);
    }
    let (prepared, first) = prerequisites(scene, freed, project, task.toolchains, reqs);
    let first = first->Ok_0;
    let (added, place) = with_node(prepared, node);
    let place = place->Ok_0->0;
    let (before, edges) = wanted_dependencies(scene, added, key, task, reqs, depth + 1, below);
    let edges = edges->Ok_0;
    let front = link_all(before, place, required(first)).0;
    linking_forgets_nothing(before, place, required(first));
    linking_forgets_nothing(front, place, edges);
}

} // verus!
