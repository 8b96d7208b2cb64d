//! What holds of every graph of actions, however it was built.

use crate::action_install::{
    environment_node_step, environment_toolchains, install_all, install_in_root, install_step,
    setup_environment_step,
};
use crate::action_node::{NodeView, SpecView};
use crate::action_run::{
    open_projects_shrink, project_dependencies, sync_dependencies, sync_project_step, task_affected,
    RunRequirements,
};
use crate::action_scene::{
    facts_of, open_count, open_count_drops, owner_source, project_spec, ready_task, resolved_for,
    spec_for, DependenciesWorkspaceRole, ResolvedView, RootView, SceneView,
};
use crate::action_setup::{
    linked_setup, required_toolchains, setup_proto_step, setup_toolchain_step,
    sync_workspace_step, toolchain_node_step,
};
use crate::action_state::{
    link_all, link_serial, order_setup, place_of_node, place_stays, required, serial_walk,
    state_valid, task_children, try_link, with_node, with_node_if_missing, ActionGraphFault,
    StateView,
};
use crate::action_tasks::{
    dependents_then, known_task_step, link_both, new_task_step, plain_call, prerequisites,
    run_dependencies, run_node, run_task_step, wanted_dependencies, without_marks, CallView,
};
use crate::config::key_of_project;
use crate::fold::fold;
use crate::graph::Direction;
use crate::invocation::{invocation_variant, InvocationView};
use crate::keys::{ProjectKeyView, TaskKeyView};
use crate::project_graph::unexpanded;
use crate::runtime::{runtime_of, SourceContextView};
use crate::task::{runs_in, TaskView};
use crate::task_queries::task_neighbors;
use vstd::prelude::*;

verus! {

/// No action and no edge is lost, no run of a task is added, no invocation is set aside, and no
/// dependency is left out.
pub open spec fn prepares(before: StateView, after: StateView) -> bool {
    &&& before.graph.edges.len() <= after.graph.edges.len()
    &&& forall|i: int|
        0 <= i < before.graph.edges.len() ==> #[trigger] after.graph.edges[i]
            == before.graph.edges[i]
    &&& before.nodes.len() <= after.nodes.len()
    &&& forall|i: int|
        0 <= i < before.nodes.len() ==> #[trigger] after.nodes[i] == before.nodes[i]
    &&& forall|i: int|
        before.nodes.len() <= i < after.nodes.len() ==> #[trigger] after.nodes[i] !is RunTask
    &&& after.passthrough == before.passthrough
    &&& after.ignored_dependencies == before.ignored_dependencies
    &&& before.nodes.len() <= u32::MAX ==> after.nodes.len() <= u32::MAX
}

pub proof fn with_node_prepares(state: StateView, node: NodeView)
    requires
        node !is RunTask,
    ensures
        prepares(state, with_node(state, node).0),
        prepares(state, with_node_if_missing(state, node).0),
{
}

pub proof fn link_all_prepares(state: StateView, index: usize, edges: Seq<(Option<usize>, u8)>)
    ensures
        prepares(state, link_all(state, index, edges).0),
    decreases edges.len(),
{
    if edges.len() > 0 {
        link_all_prepares(state, index, edges.drop_last());
    }
}

pub proof fn order_setup_prepares(state: StateView, index: usize, context: SourceContextView)
    ensures
        prepares(state, order_setup(state, index, context).0),
{
}

pub proof fn try_links_prepare(items: Seq<usize>, state: StateView, previous: usize)
    ensures
        prepares(state, fold(items, state, try_link(previous))),
    decreases items.len(),
{
    if items.len() > 0 {
        try_links_prepare(items.drop_last(), state, previous);
    }
}

pub proof fn sync_workspace_prepares(scene: SceneView, state: StateView, source: Seq<char>)
    ensures
        prepares(state, sync_workspace_step(scene, state, source).0),
{
    with_node_prepares(state, NodeView::SyncWorkspace { source });
}

pub proof fn setup_proto_prepares(scene: SceneView, state: StateView, source: Seq<char>)
    ensures
        prepares(state, setup_proto_step(scene, state, source).0),
{
}

pub proof fn linked_setup_prepares(
    state: StateView,
    node: NodeView,
    context: SourceContextView,
    edges: Seq<Option<usize>>,
)
    requires
        node !is RunTask,
    ensures
        prepares(state, linked_setup(state, node, context, edges).0),
{
    let (added, index) = with_node_if_missing(state, node);
    with_node_prepares(state, node);
    if let Ok(Some(index)) = index {
        link_all_prepares(added, index, required(edges));
        order_setup_prepares(link_all(added, index, required(edges)).0, index, context);
    }
}

proof fn toolchain_node_prepares(
    scene: SceneView,
    state: StateView,
    source: Seq<char>,
    context: SourceContextView,
    spec: SpecView,
    edges: Seq<Option<usize>>,
)
    ensures
        prepares(state, toolchain_node_step(scene, state, source, context, spec, edges).0),
{
    let (synced, workspace) = sync_workspace_step(scene, state, source);
    sync_workspace_prepares(scene, state, source);
    setup_proto_prepares(scene, synced, source);
    let node = NodeView::SetupToolchain { source, spec };
    if workspace is Ok {
        let (prepared, proto) = setup_proto_step(scene, synced, source);
        if proto is Ok {
            linked_setup_prepares(
                prepared,
                node,
                context,
                edges.push(workspace->Ok_0).push(proto->Ok_0),
            );
        }
        linked_setup_prepares(synced, node, context, edges.push(workspace->Ok_0).push(None));
    }
}

pub proof fn setup_toolchain_prepares(
    scene: SceneView,
    state: StateView,
    project: Option<ProjectKeyView>,
    spec: SpecView,
    cycle: Set<Seq<char>>,
)
    ensures
        prepares(state, setup_toolchain_step(scene, state, project, spec, cycle).0),
    decreases open_count(scene.facts, cycle), 0nat, 0nat,
{
    let source = owner_source(scene, project);
    if runtime_of(scene.runtimes.entries, source) is Ok && !cycle.contains(spec.id) && facts_of(
        scene.facts,
        source,
        project,
        spec.id,
    ) is Some {
        let context = runtime_of(scene.runtimes.entries, source)->Ok_0;
        let facts = facts_of(scene.facts, source, project, spec.id)->0;
        open_count_drops(scene.facts, source, project, cycle, spec.id);
        let inner = cycle.insert(spec.id);
        required_toolchains_prepare(scene, state, project, spec.id, facts.requires, inner);
        let (before, edges) = required_toolchains(
            scene,
            state,
            project,
            spec.id,
            facts.requires,
            inner,
        );
        if edges is Ok {
            toolchain_node_prepares(scene, before, source, context, spec, edges->Ok_0);
        }
        toolchain_node_prepares(scene, state, source, context, spec, Seq::empty());
    }
}

pub proof fn required_toolchains_prepare(
    scene: SceneView,
    state: StateView,
    project: Option<ProjectKeyView>,
    id: Seq<char>,
    requires_ids: Seq<Seq<char>>,
    cycle: Set<Seq<char>>,
)
    ensures
        prepares(state, required_toolchains(scene, state, project, id, requires_ids, cycle).0),
    decreases open_count(scene.facts, cycle), 1nat, requires_ids.len(),
{
    if requires_ids.len() > 0 {
        let rest = requires_ids.drop_last();
        required_toolchains_prepare(scene, state, project, id, rest, cycle);
        let before = required_toolchains(scene, state, project, id, rest, cycle).0;
        if spec_for(scene, project, requires_ids.last()) is Some {
            setup_toolchain_prepares(
                scene,
                before,
                project,
                spec_for(scene, project, requires_ids.last())->0,
                cycle,
            );
        }
    }
}

pub proof fn environment_toolchains_prepare(
    scene: SceneView,
    state: StateView,
    project: Option<ProjectKeyView>,
    id: Seq<char>,
    requires_ids: Seq<Seq<char>>,
)
    ensures
        prepares(state, environment_toolchains(scene, state, project, id, requires_ids).0),
    decreases requires_ids.len(),
{
    if requires_ids.len() > 0 {
        let rest = requires_ids.drop_last();
        environment_toolchains_prepare(scene, state, project, id, rest);
        let before = environment_toolchains(scene, state, project, id, rest).0;
        if spec_for(scene, project, requires_ids.last()) is Some {
            setup_toolchain_prepares(
                scene,
                before,
                project,
                spec_for(scene, project, requires_ids.last())->0,
                Set::empty(),
            );
        }
    }
}

proof fn environment_node_prepares(
    scene: SceneView,
    state: StateView,
    project: Option<ProjectKeyView>,
    spec: SpecView,
    root: Seq<char>,
    edges: Seq<Option<usize>>,
)
    ensures
        prepares(state, environment_node_step(scene, state, project, spec, root, edges).0),
{
    let source = owner_source(scene, project);
    let (synced, workspace) = sync_workspace_step(scene, state, source);
    sync_workspace_prepares(scene, state, source);
    if workspace is Ok {
        let (prepared, toolchain) = setup_toolchain_step(scene, synced, project, spec, Set::empty());
        setup_toolchain_prepares(scene, synced, project, spec, Set::empty());
        if toolchain is Ok {
            let node = NodeView::SetupEnvironment { project, root, source, toolchain: spec.id };
            let (added, index) = with_node(prepared, node);
            with_node_prepares(prepared, node);
            if let Ok(Some(index)) = index {
                link_all_prepares(
                    added,
                    index,
                    required(edges.push(workspace->Ok_0).push(toolchain->Ok_0)),
                );
            }
        }
    }
}

pub proof fn setup_environment_prepares(
    scene: SceneView,
    state: StateView,
    project: Option<ProjectKeyView>,
    spec: SpecView,
    root: Seq<char>,
)
    ensures
        prepares(state, setup_environment_step(scene, state, project, spec, root).0),
{
    let source = owner_source(scene, project);
    if facts_of(scene.facts, source, project, spec.id) is Some {
        let facts = facts_of(scene.facts, source, project, spec.id)->0;
        environment_toolchains_prepare(scene, state, project, spec.id, facts.requires);
        let (before, edges) = environment_toolchains(scene, state, project, spec.id, facts.requires);
        if edges is Ok {
            environment_node_prepares(scene, before, project, spec, root, edges->Ok_0);
        }
        environment_node_prepares(scene, state, project, spec, root, Seq::empty());
    }
}

proof fn install_in_root_prepares(
    scene: SceneView,
    state: StateView,
    project: Option<ProjectKeyView>,
    spec: SpecView,
    root: RootView,
    role: DependenciesWorkspaceRole,
    installs: bool,
    workspace: Option<usize>,
    toolchain: Option<usize>,
)
    ensures
        prepares(
            state,
            install_in_root(
                scene,
                state,
                project,
                spec,
                root,
                role,
                installs,
                workspace,
                toolchain,
            ).0,
        ),
{
    let owner = if role == DependenciesWorkspaceRole::PackageRoot {
        project
    } else {
        None
    };
    setup_environment_prepares(scene, state, owner, spec, root.root);
}

pub proof fn install_prepares(
    scene: SceneView,
    state: StateView,
    project: Option<ProjectKeyView>,
    spec: SpecView,
)
    ensures
        prepares(state, install_step(scene, state, project, spec).0),
{
    let source = owner_source(scene, project);
    let (synced, workspace) = sync_workspace_step(scene, state, source);
    sync_workspace_prepares(scene, state, source);
    if workspace is Ok {
        let (before, toolchain) = setup_toolchain_step(scene, synced, project, spec, Set::empty());
        setup_toolchain_prepares(scene, synced, project, spec, Set::empty());
        if toolchain is Ok && facts_of(scene.facts, source, project, spec.id) is Some {
            let facts = facts_of(scene.facts, source, project, spec.id)->0;
            if facts.root is Some && facts.root->0.role is Some {
                install_in_root_prepares(
                    scene,
                    before,
                    project,
                    spec,
                    facts.root->0,
                    facts.root->0.role->0,
                    facts.has_install_dependencies,
                    workspace->Ok_0,
                    toolchain->Ok_0,
                );
            }
        }
    }
}

pub proof fn install_all_prepares(
    scene: SceneView,
    state: StateView,
    project: ProjectKeyView,
    toolchains: Seq<Seq<char>>,
)
    ensures
        prepares(state, install_all(scene, state, project, toolchains).0),
    decreases toolchains.len(),
{
    if toolchains.len() > 0 {
        let rest = toolchains.drop_last();
        install_all_prepares(scene, state, project, rest);
        let before = install_all(scene, state, project, rest).0;
        if project_spec(scene, project, toolchains.last()) is Some {
            install_prepares(
                scene,
                before,
                Some(project),
                project_spec(scene, project, toolchains.last())->0,
            );
        }
    }
}

pub proof fn sync_project_prepares(
    scene: SceneView,
    state: StateView,
    key: ProjectKeyView,
    reqs: RunRequirements,
    cycle: Set<ProjectKeyView>,
)
    ensures
        prepares(state, sync_project_step(scene, state, key, reqs, cycle).0),
    decreases crate::action_run::open_projects(scene.projects.indexes, cycle), 0nat, 0nat,
{
    let (synced, workspace) = sync_workspace_step(scene, state, key.source);
    sync_workspace_prepares(scene, state, key.source);
    let node = NodeView::SyncProject { key };
    let (added, index) = with_node(synced, node);
    with_node_prepares(synced, node);
    if !cycle.contains(key) && workspace is Ok {
        if let Ok(Some(index)) = index {
            let workspace = workspace->Ok_0;
            if scene.projects.indexes.contains(key) {
                open_projects_shrink(scene.projects.indexes, cycle, key);
                let keys = project_dependencies(scene, key);
                let inner = cycle.insert(key);
                sync_dependencies_prepare(scene, added, index, keys, reqs, inner);
                let (before, edges) = sync_dependencies(scene, added, index, keys, reqs, inner);
                if edges is Ok {
                    link_all_prepares(before, index, required(seq![workspace] + edges->Ok_0));
                }
            }
            link_all_prepares(
                added,
                index,
                required(seq![workspace] + Seq::<Option<usize>>::empty()),
            );
        }
    }
}

pub proof fn sync_dependencies_prepare(
    scene: SceneView,
    state: StateView,
    index: usize,
    keys: Seq<ProjectKeyView>,
    reqs: RunRequirements,
    cycle: Set<ProjectKeyView>,
)
    ensures
        prepares(state, sync_dependencies(scene, state, index, keys, reqs, cycle).0),
    decreases crate::action_run::open_projects(scene.projects.indexes, cycle), 1nat, keys.len(),
{
    if keys.len() > 0 {
        let rest = keys.drop_last();
        sync_dependencies_prepare(scene, state, index, rest, reqs, cycle);
        let before = sync_dependencies(scene, state, index, rest, reqs, cycle).0;
        if unexpanded(scene.projects, keys.last()) is Ok {
            sync_project_prepares(
                scene,
                before,
                key_of_project(unexpanded(scene.projects, keys.last())->Ok_0),
                reqs,
                cycle,
            );
        }
    }
}

pub proof fn prerequisites_prepare(
    scene: SceneView,
    state: StateView,
    project: ProjectKeyView,
    toolchains: Seq<Seq<char>>,
    reqs: RunRequirements,
)
    ensures
        prepares(state, prerequisites(scene, state, project, toolchains, reqs).0),
{
    let synced = sync_project_step(scene, state, project, reqs, Set::empty()).0;
    sync_project_prepares(scene, state, project, reqs, Set::empty());
    let installed = install_all(scene, synced, project, toolchains).0;
    install_all_prepares(scene, synced, project, toolchains);
    sync_workspace_prepares(scene, installed, project.source);
}

/// A task is not to run where a run looks at what runs on CI.
pub open spec fn is_set_aside(scene: SceneView, reqs: RunRequirements, key: TaskKeyView) -> bool {
    ready_task(scene, key) matches Ok(task) && reqs.ci_check && !runs_in(
        task.options,
        reqs.ci,
    )
}

/// No run of a task stands twice among the actions.
pub open spec fn runs_once(nodes: Seq<NodeView>) -> bool {
    forall|i: int, j: int|
        0 <= i < j < nodes.len() && (#[trigger] nodes[i]) is RunTask ==> nodes[i]
            != #[trigger] nodes[j]
}

/// What every run of a task keeps: no action and no edge is lost, no run is added twice or where
/// the task is not to run, and only invocations of tasks that are not to run are set aside.
/// Every run that is added has its number. Where all dependencies run, none are left out.
pub open spec fn run_keeps(
    scene: SceneView,
    reqs: RunRequirements,
    before: StateView,
    after: StateView,
) -> bool {
    &&& before.graph.edges.len() <= after.graph.edges.len()
    &&& forall|i: int|
        0 <= i < before.graph.edges.len() ==> #[trigger] after.graph.edges[i]
            == before.graph.edges[i]
    &&& before.nodes.len() <= after.nodes.len()
    &&& forall|i: int|
        0 <= i < before.nodes.len() ==> #[trigger] after.nodes[i] == before.nodes[i]
    &&& forall|i: int|
        before.nodes.len() <= i < after.nodes.len() && (#[trigger] after.nodes[i]) is RunTask
            ==> !is_set_aside(scene, reqs, after.nodes[i]->RunTask_0.key)
            && after.nodes[i]->RunTask_0.numbered
    &&& forall|invocation: InvocationView| #[trigger]
        after.passthrough.contains(invocation) ==> before.passthrough.contains(invocation)
            || is_set_aside(scene, reqs, invocation.task)
    &&& before.passthrough.subset_of(after.passthrough)
    &&& before.nodes.len() <= u32::MAX ==> after.nodes.len() <= u32::MAX
    &&& runs_once(before.nodes) ==> runs_once(after.nodes)
    &&& reqs.dependencies is Deep ==> after.ignored_dependencies.dom().subset_of(
        before.ignored_dependencies.dom(),
    )
}

proof fn preparing_keeps(scene: SceneView, reqs: RunRequirements, before: StateView, after: StateView)
    requires
        prepares(before, after),
    ensures
        run_keeps(scene, reqs, before, after),
{
}

proof fn keeps_on(
    scene: SceneView,
    reqs: RunRequirements,
    first: StateView,
    second: StateView,
    third: StateView,
)
    requires
        run_keeps(scene, reqs, first, second),
        run_keeps(scene, reqs, second, third),
    ensures
        run_keeps(scene, reqs, first, third),
{
    assert forall|i: int| 0 <= i < first.nodes.len() implies #[trigger] third.nodes[i]
        == first.nodes[i] by {
        assert(second.nodes[i] == first.nodes[i]);
    }
    assert forall|i: int|
        first.nodes.len() <= i < third.nodes.len() && (
        #[trigger] third.nodes[i]) is RunTask implies !is_set_aside(
        scene,
        reqs,
        third.nodes[i]->RunTask_0.key,
    ) by {
        if i < second.nodes.len() {
            assert(third.nodes[i] == second.nodes[i]);
        }
    }
}

/// The place of an action is where it stands first.
pub proof fn place_is_first(nodes: Seq<NodeView>, node: NodeView)
    requires
        nodes.len() <= usize::MAX,
    ensures
        match place_of_node(nodes, node) {
            Some(index) => index < nodes.len() && nodes[index as int] == node,
            None => !nodes.contains(node),
        },
    decreases nodes.len(),
{
    if nodes.len() > 0 {
        place_is_first(nodes.drop_last(), node);
        if place_of_node(nodes, node) is None && nodes.contains(node) {
            let i = choose|i: int| 0 <= i < nodes.len() && nodes[i] == node;
            assert(nodes.drop_last()[i] == node);
        }
    }
}

/// The run of a task that is new and is to run is added once.
proof fn adding_keeps(scene: SceneView, reqs: RunRequirements, state: StateView, node: NodeView)
    requires
        node is RunTask,
        !is_set_aside(scene, reqs, node->RunTask_0.key),
        node->RunTask_0.numbered,
        !state.nodes.contains(node),
    ensures
        run_keeps(scene, reqs, state, with_node(state, node).0),
{
    let after = with_node(state, node).0;
    assert forall|i: int, j: int|
        runs_once(state.nodes) && 0 <= i < j < after.nodes.len() && (
        #[trigger] after.nodes[i]) is RunTask implies after.nodes[i] != #[trigger] after.nodes[j] by {
        if j < state.nodes.len() {
            assert(state.nodes[i] == after.nodes[i] && state.nodes[j] == after.nodes[j]);
        } else if i < state.nodes.len() {
            assert(state.nodes[i] == after.nodes[i]);
            assert(state.nodes.contains(state.nodes[i]));
        }
    }
}

/// Every run of a task keeps the graph as it should be.
pub proof fn run_task_keeps(
    scene: SceneView,
    state: StateView,
    key: TaskKeyView,
    reqs: RunRequirements,
    call: CallView,
    depth: nat,
    via_dependency: bool,
)
    requires
        state.nodes.len() <= u32::MAX,
    ensures
        run_keeps(
            scene,
            reqs,
            state,
            run_task_step(scene, state, key, reqs, call, depth, via_dependency).0,
        ),
    decreases 255 - depth, 0nat, 0nat,
{
    let invocation = InvocationView {
        task: key,
        variant: invocation_variant(call.args, call.env),
    };
    if ready_task(scene, key) is Ok && unexpanded(scene.projects, key.project) is Ok && depth
        < 255 {
        let task = ready_task(scene, key)->Ok_0;
        let project = unexpanded(scene.projects, key.project)->Ok_0;
        let below = crate::action_run::in_scope(reqs.dependencies, depth);
        let above = !via_dependency && crate::action_run::in_scope(reqs.dependents, depth);
        let neighbors = task_neighbors(scene.tasks, key, Direction::Incoming);
        if reqs.ci_check && !runs_in(task.options, reqs.ci) {
            let marked = StateView {
                passthrough: state.passthrough.insert(invocation),
                ..state
            };
            assert(run_keeps(scene, reqs, state, marked));
            dependents_keep(scene, marked, neighbors, reqs, depth + 1, above, None);
            keeps_on(
                scene,
                reqs,
                state,
                marked,
                dependents_then(scene, marked, neighbors, reqs, depth + 1, above, None).0,
            );
        } else {
            let node = run_node(task, key, reqs, call);
            let freed = without_marks(state, key, below, above);
            assert(run_keeps(scene, reqs, state, freed));
            place_is_first(state.nodes, node);
            match place_of_node(state.nodes, node) {
                Some(index) => {
                    let more = below && state.ignored_dependencies.dom().contains(key);
                    let over = above && state.ignored_dependents.contains(key);
                    known_task_keeps(scene, freed, index, key, task, reqs, depth + 1, more, over);
                    keeps_on(
                        scene,
                        reqs,
                        state,
                        freed,
                        known_task_step(
                            scene,
                            freed,
                            index,
                            key,
                            task,
                            reqs,
                            depth + 1,
                            more,
                            over,
                        ).0,
                    );
                },
                None => {
                    let owner = key_of_project(project);
                    new_task_keeps(
                        scene,
                        freed,
                        node,
                        key,
                        task,
                        owner,
                        reqs,
                        depth + 1,
                        below,
                        above,
                    );
                    keeps_on(
                        scene,
                        reqs,
                        state,
                        freed,
                        new_task_step(
                            scene,
                            freed,
                            node,
                            key,
                            task,
                            owner,
                            reqs,
                            depth + 1,
                            below,
                            above,
                        ).0,
                    );
                },
            }
        }
    }
}

proof fn known_task_keeps(
    scene: SceneView,
    state: StateView,
    index: usize,
    key: TaskKeyView,
    task: TaskView,
    reqs: RunRequirements,
    depth: nat,
    below: bool,
    above: bool,
)
    requires
        state.nodes.len() <= u32::MAX,
    ensures
        run_keeps(
            scene,
            reqs,
            state,
            known_task_step(scene, state, index, key, task, reqs, depth, below, above).0,
        ),
    decreases 255 - depth, 2nat, 0nat,
{
    let inner = RunRequirements { skip_affected: true, ..reqs };
    let dependencies = resolved_for(scene, key);
    let parallel = task.options.run_deps_in_parallel;
    let neighbors = task_neighbors(scene.tasks, key, Direction::Incoming);
    let (before, edges) = if below {
        run_dependencies(scene, state, dependencies, parallel, inner, depth)
    } else {
        (state, Ok(Seq::empty()))
    };
    if below {
        dependencies_keep(scene, state, dependencies, parallel, inner, depth);
        same_limits(scene, inner, reqs, state, before);
    }
    if edges is Ok {
        let linked = link_all(before, index, edges->Ok_0).0;
        link_all_prepares(before, index, edges->Ok_0);
        preparing_keeps(scene, reqs, before, linked);
        keeps_on(scene, reqs, state, before, linked);
        dependents_keep(scene, linked, neighbors, reqs, depth, above, Some(index));
        keeps_on(
            scene,
            reqs,
            state,
            linked,
            dependents_then(scene, linked, neighbors, reqs, depth, above, Some(index)).0,
        );
    }
}

/// Whether tasks that are not affected run does not matter.
proof fn same_limits(
    scene: SceneView,
    one: RunRequirements,
    other: RunRequirements,
    before: StateView,
    after: StateView,
)
    requires
        run_keeps(scene, one, before, after),
        one.ci_check == other.ci_check,
        one.ci == other.ci,
        one.dependencies == other.dependencies,
    ensures
        run_keeps(scene, other, before, after),
{
}

proof fn new_task_keeps(
    scene: SceneView,
    state: StateView,
    node: NodeView,
    key: TaskKeyView,
    task: TaskView,
    project: ProjectKeyView,
    reqs: RunRequirements,
    depth: nat,
    below: bool,
    above: bool,
)
    requires
        state.nodes.len() <= u32::MAX,
        node is RunTask,
        !is_set_aside(scene, reqs, node->RunTask_0.key),
        node->RunTask_0.numbered,
        !state.nodes.contains(node),
        reqs.dependencies is Deep ==> below,
    ensures
        run_keeps(
            scene,
            reqs,
            state,
            new_task_step(scene, state, node, key, task, project, reqs, depth, below, above).0,
        ),
    decreases 255 - depth, 2nat, 0nat,
{
    let neighbors = task_neighbors(scene.tasks, key, Direction::Incoming);
    let (prepared, first) = prerequisites(scene, state, project, task.toolchains, reqs);
    prerequisites_prepare(scene, state, project, task.toolchains, reqs);
    preparing_keeps(scene, reqs, state, prepared);
    if first is Ok {
        assert(!prepared.nodes.contains(node)) by {
            if prepared.nodes.contains(node) {
                let i = choose|i: int| 0 <= i < prepared.nodes.len() && prepared.nodes[i] == node;
                assert(prepared.nodes[i] is RunTask);
                assert(i < state.nodes.len());
                assert(state.nodes[i] == node);
            }
        }
        let (added, index) = with_node(prepared, node);
        adding_keeps(scene, reqs, prepared, node);
        keeps_on(scene, reqs, state, prepared, added);
        if let Ok(Some(index)) = index {
            let (before, edges) = wanted_dependencies(scene, added, key, task, reqs, depth, below);
            wanted_keep(scene, added, key, task, reqs, depth, below);
            keeps_on(scene, reqs, state, added, before);
            if edges is Ok {
                let front = required(first->Ok_0);
                let (linked, done) = link_all(before, index, front);
                link_all_prepares(before, index, front);
                link_all_prepares(linked, index, edges->Ok_0);
                let (after, done) = link_both(before, index, front, edges->Ok_0);
                preparing_keeps(scene, reqs, before, after);
                keeps_on(scene, reqs, state, before, after);
                if done is Ok {
                    if above {
                        dependents_keep(scene, after, neighbors, reqs, depth, true, Some(index));
                        keeps_on(
                            scene,
                            reqs,
                            state,
                            after,
                            dependents_then(
                                scene,
                                after,
                                neighbors,
                                reqs,
                                depth,
                                true,
                                Some(index),
                            ).0,
                        );
                    }
                }
            }
        }
    }
}

pub proof fn wanted_keep(
    scene: SceneView,
    state: StateView,
    key: TaskKeyView,
    task: TaskView,
    reqs: RunRequirements,
    depth: nat,
    below: bool,
)
    requires
        state.nodes.len() <= u32::MAX,
        reqs.dependencies is Deep ==> below,
    ensures
        run_keeps(
            scene,
            reqs,
            state,
            wanted_dependencies(scene, state, key, task, reqs, depth, below).0,
        ),
    decreases 255 - depth, 1nat, resolved_for(scene, key).len() + 1,
{
    let inner = RunRequirements { skip_affected: true, ..reqs };
    let dependencies = resolved_for(scene, key);
    let parallel = task.options.run_deps_in_parallel;
    if below {
        dependencies_keep(scene, state, dependencies, parallel, inner, depth);
        same_limits(
            scene,
            inner,
            reqs,
            state,
            run_dependencies(scene, state, dependencies, parallel, inner, depth).0,
        );
    }
}

pub proof fn dependencies_keep(
    scene: SceneView,
    state: StateView,
    dependencies: Seq<ResolvedView>,
    parallel: bool,
    reqs: RunRequirements,
    depth: nat,
)
    requires
        state.nodes.len() <= u32::MAX,
    ensures
        run_keeps(
            scene,
            reqs,
            state,
            run_dependencies(scene, state, dependencies, parallel, reqs, depth).0,
        ),
    decreases 255 - depth, 1nat, dependencies.len(),
{
    if dependencies.len() > 0 {
        let rest = dependencies.drop_last();
        let dependency = dependencies.last();
        let call = CallView { args: dependency.args, env: dependency.env };
        let (before, edges) = run_dependencies(scene, state, rest, parallel, reqs, depth);
        dependencies_keep(scene, state, rest, parallel, reqs, depth);
        if edges is Ok {
            let (after, found) = run_task_step(
                scene,
                before,
                dependency.key,
                reqs,
                call,
                depth,
                true,
            );
            run_task_keeps(scene, before, dependency.key, reqs, call, depth, true);
            keeps_on(scene, reqs, state, before, after);
            if let Ok(Some(index)) = found {
                let edges = edges->Ok_0;
                let previous = edges.last().0->0;
                let linked = link_serial(after, index, previous);
                try_links_prepare(serial_walk(after, seq![index], Seq::empty()), after, previous);
                preparing_keeps(scene, reqs, after, linked);
                keeps_on(scene, reqs, state, after, linked);
            }
        }
    }
}

pub proof fn dependents_keep(
    scene: SceneView,
    state: StateView,
    keys: Seq<TaskKeyView>,
    reqs: RunRequirements,
    depth: nat,
    wanted: bool,
    index: Option<usize>,
)
    requires
        state.nodes.len() <= u32::MAX,
    ensures
        run_keeps(
            scene,
            reqs,
            state,
            dependents_then(scene, state, keys, reqs, depth, wanted, index).0,
        ),
        dependents_then(scene, state, keys, reqs, depth, wanted, index).1 matches Ok(found) ==> found
            == index,
    decreases 255 - depth, 1nat, keys.len(),
{
    if wanted && keys.len() > 0 {
        let rest = keys.drop_last();
        let inner = RunRequirements { skip_affected: false, ..reqs };
        let (before, done) = dependents_then(scene, state, rest, reqs, depth, wanted, index);
        dependents_keep(scene, state, rest, reqs, depth, wanted, index);
        if done is Ok {
            run_task_keeps(scene, before, keys.last(), inner, plain_call(), depth, false);
            let after = run_task_step(
                scene,
                before,
                keys.last(),
                inner,
                plain_call(),
                depth,
                false,
            ).0;
            same_limits(scene, inner, reqs, before, after);
            keeps_on(scene, reqs, state, before, after);
        }
    }
}

/// The invocation of a task with arguments and an environment.
pub open spec fn invocation_of(key: TaskKeyView, call: CallView) -> InvocationView {
    InvocationView { task: key, variant: invocation_variant(call.args, call.env) }
}

/// A task is known and affected, and so are its project and the services of its source root.
pub open spec fn can_run(scene: SceneView, reqs: RunRequirements, key: TaskKeyView) -> bool {
    &&& ready_task(scene, key) is Ok
    &&& runtime_of(scene.runtimes.entries, key.project.source) is Ok
    &&& unexpanded(scene.projects, key.project) is Ok
    &&& task_affected(scene, reqs, key)
}

/// A run that does not fail gives no action exactly where the invocation was set aside before,
/// or is set aside now because the task is not to run on CI. Then no run of the task is added.
/// Otherwise it gives an action that runs exactly the task with the arguments and the
/// environment.
pub proof fn a_run_gives_its_action(
    scene: SceneView,
    state: StateView,
    key: TaskKeyView,
    reqs: RunRequirements,
    call: CallView,
    depth: nat,
    via_dependency: bool,
)
    requires
        state.nodes.len() <= u32::MAX,
        can_run(scene, reqs, key),
        run_task_step(scene, state, key, reqs, call, depth, via_dependency).1 is Ok,
    ensures
        ({
            let (after, found) = run_task_step(
                scene,
                state,
                key,
                reqs,
                call,
                depth,
                via_dependency,
            );
            let invocation = invocation_of(key, call);
            let task = ready_task(scene, key)->Ok_0;
            &&& found->Ok_0 is None <==> state.passthrough.contains(invocation) || is_set_aside(
                scene,
                reqs,
                key,
            )
            &&& match found->Ok_0 {
                None => {
                    &&& after.passthrough.contains(invocation)
                    &&& forall|i: int|
                        state.nodes.len() <= i < after.nodes.len() && (
                        #[trigger] after.nodes[i]) is RunTask
                            ==> after.nodes[i]->RunTask_0.key != key
                },
                Some(index) => {
                    &&& index < after.nodes.len()
                    &&& after.nodes[index as int] == run_node(task, key, reqs, call)
                    &&& !after.passthrough.contains(invocation)
                },
            }
        }),
{
    let task = ready_task(scene, key)->Ok_0;
    let project = unexpanded(scene.projects, key.project)->Ok_0;
    let below = crate::action_run::in_scope(reqs.dependencies, depth);
    let above = !via_dependency && crate::action_run::in_scope(reqs.dependents, depth);
    let neighbors = task_neighbors(scene.tasks, key, Direction::Incoming);
    let invocation = invocation_of(key, call);
    run_task_keeps(scene, state, key, reqs, call, depth, via_dependency);
    if !state.passthrough.contains(invocation) {
        if is_set_aside(scene, reqs, key) {
            let marked = StateView {
                passthrough: state.passthrough.insert(invocation),
                ..state
            };
            dependents_keep(scene, marked, neighbors, reqs, depth + 1, above, None);
            assert(marked.passthrough.contains(invocation));
        } else {
            let node = run_node(task, key, reqs, call);
            let freed = without_marks(state, key, below, above);
            place_is_first(state.nodes, node);
            match place_of_node(state.nodes, node) {
                Some(index) => {
                    known_task_gives(
                        scene,
                        freed,
                        index,
                        key,
                        task,
                        reqs,
                        depth + 1,
                        below && state.ignored_dependencies.dom().contains(key),
                        above && state.ignored_dependents.contains(key),
                    );
                },
                None => {
                    let owner = key_of_project(project);
                    let prepared = prerequisites(scene, freed, owner, task.toolchains, reqs).0;
                    prerequisites_prepare(scene, freed, owner, task.toolchains, reqs);
                    let added = with_node(prepared, node).0;
                    new_task_at(
                        scene,
                        freed,
                        node,
                        key,
                        task,
                        owner,
                        reqs,
                        depth + 1,
                        below,
                        above,
                    );
                    assert(added.nodes[added.nodes.len() - 1] == node);
                },
            }
        }
    }
}

/// A task that was added before gives the action that it has.
proof fn known_task_gives(
    scene: SceneView,
    state: StateView,
    index: usize,
    key: TaskKeyView,
    task: TaskView,
    reqs: RunRequirements,
    depth: nat,
    below: bool,
    above: bool,
)
    requires
        state.nodes.len() <= u32::MAX,
    ensures
        known_task_step(scene, state, index, key, task, reqs, depth, below, above).1 matches Ok(
            found,
        ) ==> found == Some(index),
{
    let inner = RunRequirements { skip_affected: true, ..reqs };
    let dependencies = resolved_for(scene, key);
    let parallel = task.options.run_deps_in_parallel;
    let neighbors = task_neighbors(scene.tasks, key, Direction::Incoming);
    let (before, edges) = if below {
        run_dependencies(scene, state, dependencies, parallel, inner, depth)
    } else {
        (state, Ok(Seq::empty()))
    };
    if below {
        dependencies_keep(scene, state, dependencies, parallel, inner, depth);
    }
    if edges is Ok {
        let linked = link_all(before, index, edges->Ok_0).0;
        link_all_prepares(before, index, edges->Ok_0);
        dependents_keep(scene, linked, neighbors, reqs, depth, above, Some(index));
    }
}

/// A second run of an invocation goes on from the action that the first one gave.
proof fn second_run_goes_on(
    scene: SceneView,
    state: StateView,
    key: TaskKeyView,
    reqs: RunRequirements,
    call: CallView,
    depth: nat,
    via_dependency: bool,
)
    requires
        state.nodes.len() <= u32::MAX,
        run_task_step(scene, state, key, reqs, call, depth, via_dependency).1 matches Ok(Some(_)),
    ensures
        ({
            let (once, found) = run_task_step(
                scene,
                state,
                key,
                reqs,
                call,
                depth,
                via_dependency,
            );
            let (twice, again) = run_task_step(
                scene,
                once,
                key,
                reqs,
                call,
                depth,
                via_dependency,
            );
            let below = crate::action_run::in_scope(reqs.dependencies, depth);
            let above = !via_dependency && crate::action_run::in_scope(reqs.dependents, depth);
            &&& again is Ok ==> again == found
            &&& run_keeps(scene, reqs, state, once)
            &&& run_keeps(scene, reqs, once, twice)
            &&& !(below && once.ignored_dependencies.dom().contains(key)) && !(above
                && once.ignored_dependents.contains(key)) ==> again == found && twice == once
        }),
{
    let (once, found) = run_task_step(scene, state, key, reqs, call, depth, via_dependency);
    a_run_gives_its_action(scene, state, key, reqs, call, depth, via_dependency);
    run_task_keeps(scene, state, key, reqs, call, depth, via_dependency);
    run_task_keeps(scene, once, key, reqs, call, depth, via_dependency);
    let task = ready_task(scene, key)->Ok_0;
    let below = crate::action_run::in_scope(reqs.dependencies, depth);
    let above = !via_dependency && crate::action_run::in_scope(reqs.dependents, depth);
    let index = found->Ok_0->0;
    let node = run_node(task, key, reqs, call);
    a_place_is_given(scene, state, key, reqs, call, depth, via_dependency);
    assert(place_of_node(once.nodes, node) == Some(index));
    let freed = without_marks(once, key, below, above);
    let more = below && once.ignored_dependencies.dom().contains(key);
    let over = above && once.ignored_dependents.contains(key);
    known_task_gives(scene, freed, index, key, task, reqs, depth + 1, more, over);
    if !more && !over {
        assert(freed.ignored_dependencies =~= once.ignored_dependencies);
        assert(freed.ignored_dependents =~= once.ignored_dependents);
        assert(freed == once);
    }
}

/// Running the same invocation again, where that does not fail, gives the same action and adds
/// no second run of it. It may fail: dependents that the first run left out are run by the
/// second.
pub proof fn a_second_run_gives_the_same_action(
    scene: SceneView,
    state: StateView,
    key: TaskKeyView,
    reqs: RunRequirements,
    call: CallView,
    depth: nat,
    via_dependency: bool,
)
    requires
        state.nodes.len() <= u32::MAX,
        run_task_step(scene, state, key, reqs, call, depth, via_dependency).1 matches Ok(Some(_)),
        run_task_step(
            scene,
            run_task_step(scene, state, key, reqs, call, depth, via_dependency).0,
            key,
            reqs,
            call,
            depth,
            via_dependency,
        ).1 is Ok,
    ensures
        ({
            let (once, found) = run_task_step(
                scene,
                state,
                key,
                reqs,
                call,
                depth,
                via_dependency,
            );
            let (twice, again) = run_task_step(
                scene,
                once,
                key,
                reqs,
                call,
                depth,
                via_dependency,
            );
            &&& again == found
            &&& run_keeps(scene, reqs, once, twice)
            &&& runs_once(state.nodes) ==> runs_once(twice.nodes)
        }),
{
    second_run_goes_on(scene, state, key, reqs, call, depth, via_dependency);
}

/// Where the first run left nothing out that is wanted, the second one does not fail and
/// changes nothing.
pub proof fn a_complete_run_is_not_repeated(
    scene: SceneView,
    state: StateView,
    key: TaskKeyView,
    reqs: RunRequirements,
    call: CallView,
    depth: nat,
    via_dependency: bool,
)
    requires
        state.nodes.len() <= u32::MAX,
        run_task_step(scene, state, key, reqs, call, depth, via_dependency).1 matches Ok(Some(_)),
        ({
            let once = run_task_step(scene, state, key, reqs, call, depth, via_dependency).0;
            let below = crate::action_run::in_scope(reqs.dependencies, depth);
            let above = !via_dependency && crate::action_run::in_scope(reqs.dependents, depth);
            &&& !(below && once.ignored_dependencies.dom().contains(key))
            &&& !(above && once.ignored_dependents.contains(key))
        }),
    ensures
        ({
            let (once, found) = run_task_step(
                scene,
                state,
                key,
                reqs,
                call,
                depth,
                via_dependency,
            );
            run_task_step(scene, once, key, reqs, call, depth, via_dependency) == (once, found)
        }),
{
    second_run_goes_on(scene, state, key, reqs, call, depth, via_dependency);
}

/// Where dependents are not wanted, running the same invocation again never fails, gives the
/// same action and changes nothing, whatever the graph was before. A task is no dependency of
/// its own.
pub proof fn a_second_run_adds_nothing(
    scene: SceneView,
    state: StateView,
    key: TaskKeyView,
    reqs: RunRequirements,
    call: CallView,
    depth: nat,
    via_dependency: bool,
)
    requires
        state.nodes.len() <= u32::MAX,
        run_task_step(scene, state, key, reqs, call, depth, via_dependency).1 matches Ok(Some(_)),
        via_dependency || reqs.dependents is Nothing,
        forall|i: int|
            0 <= i < resolved_for(scene, key).len() ==> (#[trigger] resolved_for(scene, key)[i]).key
                != key,
    ensures
        ({
            let (once, found) = run_task_step(
                scene,
                state,
                key,
                reqs,
                call,
                depth,
                via_dependency,
            );
            run_task_step(scene, once, key, reqs, call, depth, via_dependency) == (once, found)
        }),
{
    let once = run_task_step(scene, state, key, reqs, call, depth, via_dependency).0;
    let below = crate::action_run::in_scope(reqs.dependencies, depth);
    a_run_gives_its_action(scene, state, key, reqs, call, depth, via_dependency);
    if below {
        let task = ready_task(scene, key)->Ok_0;
        let project = unexpanded(scene.projects, key.project)->Ok_0;
        let owner = key_of_project(project);
        let node = run_node(task, key, reqs, call);
        let freed = without_marks(state, key, true, false);
        let inner = RunRequirements { skip_affected: true, ..reqs };
        let dependencies = resolved_for(scene, key);
        let parallel = task.options.run_deps_in_parallel;
        let neighbors = task_neighbors(scene.tasks, key, Direction::Incoming);
        let index = place_of_node(state.nodes, node);
        place_is_first(state.nodes, node);
        if reqs.dependencies is Deep {
            match index {
                Some(index) => {
                    let more = state.ignored_dependencies.dom().contains(key);
                    known_task_keeps(scene, freed, index, key, task, reqs, depth + 1, more, false);
                },
                None => {
                    new_task_keeps(
                        scene,
                        freed,
                        node,
                        key,
                        task,
                        owner,
                        reqs,
                        depth + 1,
                        true,
                        false,
                    );
                },
            }
        } else {
            match index {
                Some(index) => {
                    let (before, edges) = run_dependencies(
                        scene,
                        freed,
                        dependencies,
                        parallel,
                        inner,
                        depth + 1,
                    );
                    direct_dependencies_mark(scene, freed, dependencies, parallel, inner, depth + 1);
                    if edges is Ok {
                        link_all_prepares(before, index, edges->Ok_0);
                    }
                    link_all_prepares(freed, index, Seq::empty());
                    let more = state.ignored_dependencies.dom().contains(key);
                    let reached = if more {
                        link_all(before, index, edges->Ok_0).0
                    } else {
                        link_all(freed, index, Seq::empty()).0
                    };
                    assert(dependents_then(
                        scene,
                        reached,
                        neighbors,
                        reqs,
                        depth + 1,
                        false,
                        Some(index),
                    ).0 == reached);
                    assert(known_task_step(
                        scene,
                        freed,
                        index,
                        key,
                        task,
                        reqs,
                        depth + 1,
                        more,
                        false,
                    ) == (once, Ok::<Option<usize>, ActionGraphFault>(Some(index))));
                },
                None => {
                    let (prepared, first) = prerequisites(
                        scene,
                        freed,
                        owner,
                        task.toolchains,
                        reqs,
                    );
                    prerequisites_prepare(scene, freed, owner, task.toolchains, reqs);
                    let added = with_node(prepared, node).0;
                    let place = with_node(prepared, node).1->Ok_0->0;
                    let (before, edges) = run_dependencies(
                        scene,
                        added,
                        dependencies,
                        parallel,
                        inner,
                        depth + 1,
                    );
                    direct_dependencies_mark(scene, added, dependencies, parallel, inner, depth + 1);
                    assert(wanted_dependencies(scene, added, key, task, reqs, depth + 1, true) == (
                        before,
                        edges,
                    ));
                    assert(new_task_step(
                        scene,
                        freed,
                        node,
                        key,
                        task,
                        owner,
                        reqs,
                        depth + 1,
                        true,
                        false,
                    ).0 == once);
                    if edges is Ok {
                        let front = required(first->Ok_0);
                        link_all_prepares(before, place, front);
                        link_all_prepares(link_all(before, place, front).0, place, edges->Ok_0);
                    }
                },
            }
        }
        assert(!once.ignored_dependencies.dom().contains(key));
    }
    second_run_goes_on(scene, state, key, reqs, call, depth, via_dependency);
}

/// A run of a dependency whose own dependencies are not wanted leaves out those of one task at
/// most: its own.
proof fn direct_run_marks(
    scene: SceneView,
    state: StateView,
    key: TaskKeyView,
    reqs: RunRequirements,
    call: CallView,
    depth: nat,
)
    requires
        state.nodes.len() <= u32::MAX,
        reqs.dependencies is Direct,
        depth > 0,
    ensures
        forall|other: TaskKeyView| #[trigger]
            run_task_step(
                scene,
                state,
                key,
                reqs,
                call,
                depth,
                true,
            ).0.ignored_dependencies.dom().contains(other) ==> other == key
                || state.ignored_dependencies.dom().contains(other),
{
    if ready_task(scene, key) is Ok && unexpanded(scene.projects, key.project) is Ok && depth
        < 255 {
        let task = ready_task(scene, key)->Ok_0;
        let owner = key_of_project(unexpanded(scene.projects, key.project)->Ok_0);
        let node = run_node(task, key, reqs, call);
        let neighbors = task_neighbors(scene.tasks, key, Direction::Incoming);
        assert(without_marks(state, key, false, false) == state);
        if is_set_aside(scene, reqs, key) {
            let marked = StateView {
                passthrough: state.passthrough.insert(invocation_of(key, call)),
                ..state
            };
            assert(dependents_then(scene, marked, neighbors, reqs, depth + 1, false, None).0
                == marked);
        }
        match place_of_node(state.nodes, node) {
            Some(index) => {
                let linked = link_all(state, index, Seq::empty()).0;
                link_all_prepares(state, index, Seq::empty());
                assert(dependents_then(
                    scene,
                    linked,
                    neighbors,
                    reqs,
                    depth + 1,
                    false,
                    Some(index),
                ).0 == linked);
                assert(known_task_step(
                    scene,
                    state,
                    index,
                    key,
                    task,
                    reqs,
                    depth + 1,
                    false,
                    false,
                ).0 == linked);
            },
            None => {
                let (prepared, first) = prerequisites(scene, state, owner, task.toolchains, reqs);
                prerequisites_prepare(scene, state, owner, task.toolchains, reqs);
                let after = new_task_step(
                    scene,
                    state,
                    node,
                    key,
                    task,
                    owner,
                    reqs,
                    depth + 1,
                    false,
                    false,
                ).0;
                let added = with_node(prepared, node).0;
                let place = with_node(prepared, node).1->Ok_0->0;
                let (before, edges) = wanted_dependencies(
                    scene,
                    added,
                    key,
                    task,
                    reqs,
                    depth + 1,
                    false,
                );
                let front = required(first->Ok_0);
                link_all_prepares(before, place, front);
                link_all_prepares(link_all(before, place, front).0, place, edges->Ok_0);
                assert(after.ignored_dependencies == before.ignored_dependencies
                    || after.ignored_dependencies == state.ignored_dependencies);
            },
        }
    }
}

/// Runs of dependencies whose own dependencies are not wanted leave out those of no other
/// tasks.
proof fn direct_dependencies_mark(
    scene: SceneView,
    state: StateView,
    dependencies: Seq<ResolvedView>,
    parallel: bool,
    reqs: RunRequirements,
    depth: nat,
)
    requires
        state.nodes.len() <= u32::MAX,
        reqs.dependencies is Direct,
        depth > 0,
    ensures
        forall|other: TaskKeyView| #[trigger]
            run_dependencies(
                scene,
                state,
                dependencies,
                parallel,
                reqs,
                depth,
            ).0.ignored_dependencies.dom().contains(other)
                ==> state.ignored_dependencies.dom().contains(other) || exists|i: int|
                0 <= i < dependencies.len() && (#[trigger] dependencies[i]).key == other,
    decreases dependencies.len(),
{
    if dependencies.len() > 0 {
        let rest = dependencies.drop_last();
        let dependency = dependencies.last();
        let call = CallView { args: dependency.args, env: dependency.env };
        let (before, edges) = run_dependencies(scene, state, rest, parallel, reqs, depth);
        direct_dependencies_mark(scene, state, rest, parallel, reqs, depth);
        dependencies_keep(scene, state, rest, parallel, reqs, depth);
        let (after, found) = run_task_step(scene, before, dependency.key, reqs, call, depth, true);
        direct_run_marks(scene, before, dependency.key, reqs, call, depth);
        if edges is Ok {
            if let Ok(Some(index)) = found {
                let previous = edges->Ok_0.last().0->0;
                try_links_prepare(serial_walk(after, seq![index], Seq::empty()), after, previous);
            }
        }
        let last = run_dependencies(scene, state, dependencies, parallel, reqs, depth).0;
        assert forall|other: TaskKeyView| #[trigger]
            last.ignored_dependencies.dom().contains(
                other,
            ) implies state.ignored_dependencies.dom().contains(other) || exists|i: int|
            0 <= i < dependencies.len() && (#[trigger] dependencies[i]).key == other by {
            if edges is Ok && other == dependency.key {
                assert(dependencies[dependencies.len() - 1].key == other);
            } else {
                assert(before.ignored_dependencies.dom().contains(other));
                if !state.ignored_dependencies.dom().contains(other) {
                    let i = choose|i: int| 0 <= i < rest.len() && (#[trigger] rest[i]).key == other;
                    assert(dependencies[i].key == other);
                }
            }
        }
    }
}

/// The action that a run gives stands nowhere before its place.
#[verifier::rlimit(40)]
pub proof fn a_place_is_given(
    scene: SceneView,
    state: StateView,
    key: TaskKeyView,
    reqs: RunRequirements,
    call: CallView,
    depth: nat,
    via_dependency: bool,
)
    requires
        state.nodes.len() <= u32::MAX,
        run_task_step(scene, state, key, reqs, call, depth, via_dependency).1 matches Ok(Some(_)),
    ensures
        ({
            let (after, found) = run_task_step(
                scene,
                state,
                key,
                reqs,
                call,
                depth,
                via_dependency,
            );
            let node = run_node(ready_task(scene, key)->Ok_0, key, reqs, call);
            place_of_node(after.nodes, node) == found->Ok_0
        }),
{
    let (after, found) = run_task_step(scene, state, key, reqs, call, depth, via_dependency);
    let task = ready_task(scene, key)->Ok_0;
    let project = unexpanded(scene.projects, key.project)->Ok_0;
    let node = run_node(task, key, reqs, call);
    let below = crate::action_run::in_scope(reqs.dependencies, depth);
    let above = !via_dependency && crate::action_run::in_scope(reqs.dependents, depth);
    let freed = without_marks(state, key, below, above);
    let neighbors = task_neighbors(scene.tasks, key, Direction::Incoming);
    run_task_keeps(scene, state, key, reqs, call, depth, via_dependency);
    if is_set_aside(scene, reqs, key) {
        let marked = StateView {
            passthrough: state.passthrough.insert(invocation_of(key, call)),
            ..state
        };
        dependents_keep(scene, marked, neighbors, reqs, depth + 1, above, None);
    } else {
        place_is_first(state.nodes, node);
        match place_of_node(state.nodes, node) {
            Some(index) => {
                known_task_gives(
                    scene,
                    freed,
                    index,
                    key,
                    task,
                    reqs,
                    depth + 1,
                    below && state.ignored_dependencies.dom().contains(key),
                    above && state.ignored_dependents.contains(key),
                );
                assert(after.nodes.take(state.nodes.len() as int) =~= state.nodes);
                place_stays(after.nodes, node, state.nodes.len() as int);
            },
            None => {
                let owner = key_of_project(project);
                let (prepared, first) = prerequisites(scene, freed, owner, task.toolchains, reqs);
                prerequisites_prepare(scene, freed, owner, task.toolchains, reqs);
                place_is_first(prepared.nodes, node);
                assert(place_of_node(prepared.nodes, node) is None) by {
                    if let Some(i) = place_of_node(prepared.nodes, node) {
                        assert(prepared.nodes[i as int] is RunTask);
                        assert(i < state.nodes.len());
                        assert(state.nodes[i as int] == node);
                    }
                }
                let (added, index) = with_node(prepared, node);
                if let Ok(Some(index)) = index {
                    assert(added.nodes.drop_last() =~= prepared.nodes);
                    assert(place_of_node(added.nodes, node) == Some(index));
                    new_task_at(
                        scene,
                        freed,
                        node,
                        key,
                        task,
                        owner,
                        reqs,
                        depth + 1,
                        below,
                        above,
                    );
                    assert(after.nodes.take(added.nodes.len() as int) =~= added.nodes);
                    place_stays(after.nodes, node, added.nodes.len() as int);
                }
            },
        }
    }
}

/// A task that is added takes the place behind its prerequisites, and nothing moves it.
proof fn new_task_at(
    scene: SceneView,
    state: StateView,
    node: NodeView,
    key: TaskKeyView,
    task: TaskView,
    project: ProjectKeyView,
    reqs: RunRequirements,
    depth: nat,
    below: bool,
    above: bool,
)
    requires
        state.nodes.len() <= u32::MAX,
        reqs.dependencies is Deep ==> below,
    ensures
        ({
            let prepared = prerequisites(scene, state, project, task.toolchains, reqs).0;
            let (added, index) = with_node(prepared, node);
            let (after, found) = new_task_step(
                scene,
                state,
                node,
                key,
                task,
                project,
                reqs,
                depth,
                below,
                above,
            );
            found is Ok ==> {
                &&& found == index
                &&& added.nodes.len() <= after.nodes.len()
                &&& forall|i: int|
                    0 <= i < added.nodes.len() ==> #[trigger] after.nodes[i] == added.nodes[i]
            }
        }),
{
    let neighbors = task_neighbors(scene.tasks, key, Direction::Incoming);
    let (prepared, first) = prerequisites(scene, state, project, task.toolchains, reqs);
    prerequisites_prepare(scene, state, project, task.toolchains, reqs);
    if first is Ok {
        let (added, index) = with_node(prepared, node);
        if let Ok(Some(index)) = index {
            let (before, edges) = wanted_dependencies(scene, added, key, task, reqs, depth, below);
            wanted_keep(scene, added, key, task, reqs, depth, below);
            if edges is Ok {
                let front = required(first->Ok_0);
                let linked = link_all(before, index, front).0;
                link_all_prepares(before, index, front);
                link_all_prepares(linked, index, edges->Ok_0);
                let after = link_both(before, index, front, edges->Ok_0).0;
                dependents_keep(scene, after, neighbors, reqs, depth, true, Some(index));
            }
        }
    }
}

/// One action waits for the run of a task, and not only to keep the two apart in time.
pub open spec fn needs_task(state: StateView, from: usize, to: usize) -> bool {
    state.nodes[to as int] is RunTask && exists|i: int|
        0 <= i < state.graph.edges.len() && (#[trigger] state.graph.edges[i]).0 == from
            && state.graph.edges[i].1 == to && !state.serial[i]
}

/// One action needs another over as many steps.
pub open spec fn needs_over(state: StateView, from: usize, to: usize, steps: nat) -> bool
    decreases steps,
{
    if steps == 0 {
        from == to
    } else {
        exists|middle: usize|
            #[trigger] needs_task(state, middle, to) && needs_over(
                state,
                from,
                middle,
                (steps - 1) as nat,
            )
    }
}

/// One action needs another, over any number of steps. Every action needs itself.
pub open spec fn needs(state: StateView, from: usize, to: usize) -> bool {
    exists|steps: nat| needs_over(state, from, to, steps)
}

/// The tasks that an action needs are those that it waits for by edges that are not serial.
proof fn children_are_needed(state: StateView, node: usize, n: int, to: usize)
    requires
        0 <= n <= state.graph.edges.len(),
    ensures
        task_children(state, node, n).contains(to) <==> (state.nodes[to as int] is RunTask
            && exists|i: int|
            0 <= i < n && (#[trigger] state.graph.edges[i]).0 == node && state.graph.edges[i].1 == to
                && !state.serial[i]),
    decreases n,
{
    if n > 0 {
        children_are_needed(state, node, n - 1, to);
        let edge = state.graph.edges[n - 1];
        let rest = task_children(state, node, n - 1);
        let all = task_children(state, node, n);
        if rest.contains(to) {
            let k = choose|k: int| 0 <= k < rest.len() && rest[k] == to;
            if all.len() == rest.len() + 1 {
                assert(all[k + 1] == to);
            }
        }
        if all.contains(to) && !rest.contains(to) {
            let k = choose|k: int| 0 <= k < all.len() && all[k] == to;
            if k > 0 {
                assert(rest[k - 1] == to);
            }
        }
        if edge.0 == node && edge.1 == to && !state.serial[n - 1] && state.nodes[to as int] is RunTask {
            assert(all[0] == to);
        }
    }
}

/// Distinct numbers below a bound that are as many as the bound are all of them.
proof fn all_are_there(items: Seq<usize>, bound: nat, x: usize)
    requires
        items.no_duplicates(),
        forall|i: int| 0 <= i < items.len() ==> #[trigger] items[i] < bound,
        items.len() >= bound,
        x < bound,
    ensures
        items.contains(x),
{
    if !items.contains(x) {
        let more = items.push(x);
        assert forall|i: int| 0 <= i < more.len() implies #[trigger] more[i] < bound by {
            if i < items.len() {
                assert(more[i] == items[i]);
            }
        }
        crate::graph::distinct_below(more, bound);
    }
}

/// What holds while a walk over the tasks below an action goes on.
spec fn walking(state: StateView, index: usize, stack: Seq<usize>, seen: Seq<usize>) -> bool {
    let n = state.nodes.len();
    &&& seen.no_duplicates()
    &&& forall|i: int|
        0 <= i < seen.len() ==> (#[trigger] seen[i]) < n && needs(state, index, seen[i])
    &&& forall|i: int|
        0 <= i < stack.len() ==> (#[trigger] stack[i]) < n && needs(state, index, stack[i])
    &&& forall|x: usize, to: usize|
        seen.contains(x) && #[trigger] needs_task(state, x, to) && to < n ==> seen.contains(to)
            || stack.contains(to)
    &&& seen.contains(index) || stack.contains(index)
}

/// The walk ends with all actions that are needed, each once.
proof fn walk_ends(state: StateView, index: usize, stack: Seq<usize>, seen: Seq<usize>)
    requires
        state_valid(state),
        index < state.nodes.len(),
        walking(state, index, stack, seen),
    ensures
        walking(state, index, Seq::empty(), serial_walk(state, stack, seen)),
        seen.len() > 0 ==> serial_walk(state, stack, seen).len() > 0 && serial_walk(
            state,
            stack,
            seen,
        )[0] == seen[0],
    decreases state.nodes.len() - seen.len(), stack.len(),
{
    let n = state.nodes.len();
    if stack.len() == 0 {
        assert(stack =~= Seq::empty());
    } else if seen.len() >= n {
        assert forall|x: usize, to: usize|
            seen.contains(x) && #[trigger] needs_task(state, x, to) && to
                < n implies seen.contains(to) by {
            all_are_there(seen, n, to);
        }
        all_are_there(seen, n, index);
    } else {
        let node = stack.last();
        let rest = stack.drop_last();
        assert(stack[stack.len() - 1] == node);
        if seen.contains(node) {
            assert forall|x: usize| stack.contains(x) implies rest.contains(x) || seen.contains(x) by {
                let k = choose|k: int| 0 <= k < stack.len() && stack[k] == x;
                if k < rest.len() {
                    assert(rest[k] == x);
                }
            }
            assert forall|i: int| 0 <= i < rest.len() implies (#[trigger] rest[i]) < n && needs(
                state,
                index,
                rest[i],
            ) by {
                assert(stack[i] == rest[i]);
            }
            walk_ends(state, index, rest, seen);
        } else {
            let all = state.graph.edges.len() as int;
            let children = task_children(state, node, all);
            let next = rest + children;
            let more = seen.push(node);
            assert forall|i: int| 0 <= i < next.len() implies (#[trigger] next[i]) < n && needs(
                state,
                index,
                next[i],
            ) by {
                if i < rest.len() {
                    assert(stack[i] == next[i]);
                } else {
                    let to = children[i - rest.len()];
                    assert(children.contains(to));
                    children_are_needed(state, node, all, to);
                    let e = choose|e: int|
                        0 <= e < all && (#[trigger] state.graph.edges[e]).0 == node
                            && state.graph.edges[e].1 == to && !state.serial[e];
                    assert(state.graph.edges[e].1 < n);
                    assert(needs_task(state, node, to));
                    let steps = choose|steps: nat| needs_over(state, index, node, steps);
                    assert(needs_over(state, index, to, steps + 1));
                }
            }
            assert forall|i: int| 0 <= i < more.len() implies (#[trigger] more[i]) < n && needs(
                state,
                index,
                more[i],
            ) by {
                if i < seen.len() {
                    assert(more[i] == seen[i]);
                }
            }
            assert forall|x: usize| stack.contains(x) implies next.contains(x) || more.contains(
                x,
            ) by {
                let k = choose|k: int| 0 <= k < stack.len() && stack[k] == x;
                if k < rest.len() {
                    assert(next[k] == x);
                } else {
                    assert(more[seen.len() as int] == x);
                }
            }
            assert forall|x: usize| seen.contains(x) implies more.contains(x) by {
                let k = choose|k: int| 0 <= k < seen.len() && seen[k] == x;
                assert(more[k] == x);
            }
            assert forall|x: usize, to: usize|
                more.contains(x) && #[trigger] needs_task(state, x, to) && to
                    < n implies more.contains(to) || next.contains(to) by {
                if seen.contains(x) {
                    assert(seen.contains(to) || stack.contains(to));
                } else {
                    let k = choose|k: int| 0 <= k < more.len() && more[k] == x;
                    assert(x == node) by {
                        if k < seen.len() {
                            assert(seen[k] == x);
                        }
                    }
                    children_are_needed(state, node, all, to);
                    assert(children.contains(to));
                    let c = choose|c: int| 0 <= c < children.len() && children[c] == to;
                    assert(next[rest.len() + c] == to);
                }
            }
            walk_ends(state, index, next, more);
            if seen.len() > 0 {
                assert(more[0] == seen[0]);
            }
        }
    }
}

/// What is needed over steps stays within what holds the start and all that it needs.
proof fn needs_stay_inside(
    state: StateView,
    inside: Seq<usize>,
    from: usize,
    to: usize,
    steps: nat,
)
    requires
        state_valid(state),
        inside.contains(from),
        from < state.nodes.len(),
        forall|x: usize, to: usize|
            inside.contains(x) && #[trigger] needs_task(state, x, to) && to < state.nodes.len()
                ==> inside.contains(to),
        needs_over(state, from, to, steps),
    ensures
        inside.contains(to),
        to < state.nodes.len(),
    decreases steps,
{
    if steps > 0 {
        let middle = choose|middle: usize|
            #[trigger] needs_task(state, middle, to) && needs_over(
                state,
                from,
                middle,
                (steps - 1) as nat,
            );
        needs_stay_inside(state, inside, from, middle, (steps - 1) as nat);
        let e = choose|e: int|
            0 <= e < state.graph.edges.len() && (#[trigger] state.graph.edges[e]).0 == middle
                && state.graph.edges[e].1 == to && !state.serial[e];
        assert(state.graph.edges[e].1 < state.nodes.len());
    }
}

/// The walk over the tasks below an action starts with the action itself and comes by exactly
/// the actions that it needs, over any number of edges that are not serial, by each of them
/// once.
pub proof fn serial_walks_list_what_is_needed(state: StateView, index: usize)
    requires
        state_valid(state),
        index < state.nodes.len(),
    ensures
        ({
            let listed = serial_walk(state, seq![index], Seq::empty());
            &&& listed.len() > 0
            &&& listed[0] == index
            &&& listed.no_duplicates()
            &&& forall|x: usize| #[trigger] listed.contains(x) <==> needs(state, index, x)
        }),
{
    let start = seq![index];
    let none = Seq::<usize>::empty();
    let listed = serial_walk(state, start, none);
    assert(needs_over(state, index, index, 0));
    assert(start[0] == index);
    assert(walking(state, index, start, none));
    walk_ends(state, index, start, none);
    let all = state.graph.edges.len() as int;
    assert(none.push(index)[0] == index);
    assert(listed[0] == index && listed.len() > 0) by {
        let next = start.drop_last() + task_children(state, index, all);
        let more = none.push(index);
        assert(start.last() == index);
        assert(listed == serial_walk(state, next, more));
        children_walk(state, index);
    }
    assert forall|x: usize| #[trigger] listed.contains(x) <==> needs(state, index, x) by {
        if listed.contains(x) {
            let k = choose|k: int| 0 <= k < listed.len() && listed[k] == x;
            assert(needs(state, index, listed[k]));
        }
        if needs(state, index, x) {
            let steps = choose|steps: nat| needs_over(state, index, x, steps);
            needs_stay_inside(state, listed, index, x, steps);
        }
    }
}

/// The first step of a walk over the tasks below an action.
proof fn children_walk(state: StateView, index: usize)
    requires
        state_valid(state),
        index < state.nodes.len(),
    ensures
        ({
            let next = seq![index].drop_last() + task_children(
                state,
                index,
                state.graph.edges.len() as int,
            );
            let listed = serial_walk(state, next, Seq::<usize>::empty().push(index));
            listed.len() > 0 && listed[0] == index
        }),
{
    let all = state.graph.edges.len() as int;
    let children = task_children(state, index, all);
    let next = seq![index].drop_last() + children;
    let more = Seq::<usize>::empty().push(index);
    assert(next =~= children);
    assert(needs_over(state, index, index, 0));
    assert(more[0] == index);
    assert forall|i: int| 0 <= i < next.len() implies (#[trigger] next[i]) < state.nodes.len() && needs(
        state,
        index,
        next[i],
    ) by {
        let to = next[i];
        assert(children.contains(to));
        children_are_needed(state, index, all, to);
        let e = choose|e: int|
            0 <= e < all && (#[trigger] state.graph.edges[e]).0 == index && state.graph.edges[e].1 == to
                && !state.serial[e];
        assert(state.graph.edges[e].1 < state.nodes.len());
        assert(needs_task(state, index, to));
        assert(needs_over(state, index, to, 1));
    }
    assert forall|x: usize, to: usize|
        more.contains(x) && #[trigger] needs_task(state, x, to) && to
            < state.nodes.len() implies more.contains(to) || next.contains(to) by {
        assert(x == index);
        children_are_needed(state, index, all, to);
        assert(next.contains(to));
    }
    walk_ends(state, index, next, more);
}

} // verus!
