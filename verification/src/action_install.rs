//! The actions that set up environments and install dependencies.

use crate::action_node::{
    is_system_spec, ActionNode, InstallDependenciesNode, NodeView, SetupEnvironmentNode, SpecView,
    ToolchainSpec,
};
use crate::action_scene::{
    facts_of, key_view, owner_source, plugin_of, project_spec, spec_for, switched_on, ActionScene,
    DependenciesRoot, DependenciesWorkspaceRole, RootView, SceneView,
};
use crate::action_setup::{
    edges_stay_known, settles_all, setup_toolchain, setup_toolchain_step, sync_workspace_for,
    sync_workspace_step, told_all, Step, Steps,
};
use crate::action_state::{
    edges_known, link_all, link_first, may_wait, place_of_node, required, settles, state_valid, told,
    with_node, with_node_if_missing, ActionGraphError, ActionGraphFault, ActionGraphState,
    StateView,
};
use crate::id::{valid_id, Id};
use crate::keys::{ProjectKey, ProjectKeyView};
use crate::order::views;
use crate::runtime::runtime_of;
use crate::table::Key;
use crate::task::copy_texts;
use vstd::prelude::*;

verus! {

broadcast use crate::order::group_views;

/// The setup of the toolchains that an environment requires, one after the other. All of
/// them must be configured.
pub open spec fn environment_toolchains(
    scene: SceneView,
    state: StateView,
    project: Option<ProjectKeyView>,
    id: Seq<char>,
    requires_ids: Seq<Seq<char>>,
) -> Steps
    decreases requires_ids.len(),
{
    if requires_ids.len() == 0 {
        (state, Ok(Seq::empty()))
    } else {
        let (before, edges) = environment_toolchains(
            scene,
            state,
            project,
            id,
            requires_ids.drop_last(),
        );
        let dep = requires_ids.last();
        match edges {
            Err(fault) => (before, Err(fault)),
            Ok(edges) => if !valid_id(dep) {
                (before, Err(ActionGraphFault::InvalidId { id: dep }))
            } else if dep == id {
                (before, Ok(edges))
            } else {
                match spec_for(scene, project, dep) {
                    None => (
                        before,
                        Err(ActionGraphFault::MissingToolchainRequirement { id, dep_id: dep }),
                    ),
                    Some(spec) => {
                        let (after, index) = setup_toolchain_step(
                            scene,
                            before,
                            project,
                            spec,
                            Set::empty(),
                        );
                        match index {
                            Err(fault) => (after, Err(fault)),
                            Ok(index) => (after, Ok(edges.push(index))),
                        }
                    },
                }
            },
        }
    }
}

/// An environment is set up behind the toolchains that it requires, behind the workspace,
/// and behind its own toolchain. One that was added before stays as it is.
pub open spec fn environment_node_step(
    scene: SceneView,
    state: StateView,
    project: Option<ProjectKeyView>,
    spec: SpecView,
    root: Seq<char>,
    edges: Seq<Option<usize>>,
) -> Step {
    let source = owner_source(scene, project);
    let (synced, workspace) = sync_workspace_step(scene, state, source);
    match workspace {
        Err(fault) => (synced, Err(fault)),
        Ok(workspace) => {
            let (prepared, toolchain) = setup_toolchain_step(
                scene,
                synced,
                project,
                spec,
                Set::empty(),
            );
            match toolchain {
                Err(fault) => (prepared, Err(fault)),
                Ok(toolchain) => {
                    let node = NodeView::SetupEnvironment {
                        project,
                        root,
                        source,
                        toolchain: spec.id,
                    };
                    match place_of_node(prepared.nodes, node) {
                        Some(index) => (prepared, Ok(Some(index))),
                        None => {
                            let (added, index) = with_node(prepared, node);
                            match index {
                                Ok(Some(index)) => {
                                    let (after, done) = link_all(
                                        added,
                                        index,
                                        required(edges.push(workspace).push(toolchain)),
                                    );
                                    match done {
                                        Ok(_) => (after, Ok(Some(index))),
                                        Err(fault) => (after, Err(fault)),
                                    }
                                },
                                _ => (added, index),
                            }
                        },
                    }
                },
            }
        },
    }
}

/// The setup of the environment of a toolchain.
pub open spec fn setup_environment_step(
    scene: SceneView,
    state: StateView,
    project: Option<ProjectKeyView>,
    spec: SpecView,
    root: Seq<char>,
) -> Step {
    let source = owner_source(scene, project);
    match runtime_of(scene.runtimes.entries, source) {
        Err(fault) => (state, Err(ActionGraphFault::Runtime(fault))),
        Ok(_) => if !switched_on(scene.options.setup_environment, spec.id) || is_system_spec(spec) {
            (state, Ok(None))
        } else {
            match facts_of(scene.facts, source, project, spec.id) {
                None => (state, Err(ActionGraphFault::UnknownToolchain { id: spec.id })),
                Some(facts) => {
                    let (before, edges) = if facts.for_setup_environment {
                        environment_toolchains(scene, state, project, spec.id, facts.requires)
                    } else {
                        (state, Ok(Seq::empty()))
                    };
                    match edges {
                        Err(fault) => (before, Err(fault)),
                        Ok(edges) => if !facts.has_setup_environment && edges.len() == 0 {
                            (before, Ok(None))
                        } else {
                            environment_node_step(scene, before, project, spec, root, edges)
                        },
                    }
                },
            }
        },
    }
}

/// Whether the installation of dependencies is switched off for a toolchain.
pub open spec fn install_disabled(scene: SceneView, source: Seq<char>, spec: SpecView) -> bool {
    is_system_spec(spec) || !switched_on(scene.options.install_dependencies, spec.id) || match plugin_of(
        scene,
        source,
        spec.id,
    ) {
        Some(plugin) => !plugin.install_dependencies,
        None => false,
    }
}

/// The installation of dependencies in a root, behind the environment, or else behind the
/// toolchain, or else behind the workspace. Where the toolchain installs nothing, its
/// environment stands for the installation, and else the toolchain itself.
pub open spec fn install_in_root(
    scene: SceneView,
    state: StateView,
    project: Option<ProjectKeyView>,
    spec: SpecView,
    root: RootView,
    role: DependenciesWorkspaceRole,
    installs: bool,
    workspace: Option<usize>,
    toolchain: Option<usize>,
) -> Step {
    let owner = if role == DependenciesWorkspaceRole::PackageRoot {
        project
    } else {
        None
    };
    let (prepared, environment) = setup_environment_step(scene, state, owner, spec, root.root);
    match environment {
        Err(fault) => (prepared, Err(fault)),
        Ok(environment) => if installs {
            let (added, index) = with_node_if_missing(
                prepared,
                NodeView::InstallDependencies {
                    members: root.members,
                    project: owner,
                    root: root.root,
                    source: owner_source(scene, project),
                    toolchain: spec.id,
                },
            );
            match index {
                Ok(Some(index)) => {
                    let (after, done) = link_first(
                        added,
                        index,
                        seq![environment, toolchain, workspace],
                    );
                    match done {
                        Ok(_) => (after, Ok(Some(index))),
                        Err(fault) => (after, Err(fault)),
                    }
                },
                _ => (added, index),
            }
        } else {
            match environment {
                Some(index) => {
                    let (after, done) = link_first(prepared, index, seq![toolchain, workspace]);
                    match done {
                        Ok(_) => (after, Ok(Some(index))),
                        Err(fault) => (after, Err(fault)),
                    }
                },
                None => (prepared, Ok(toolchain)),
            }
        },
    }
}

/// The installation of the dependencies of a project, or of the workspace.
pub open spec fn install_step(
    scene: SceneView,
    state: StateView,
    project: Option<ProjectKeyView>,
    spec: SpecView,
) -> Step {
    let source = owner_source(scene, project);
    match runtime_of(scene.runtimes.entries, source) {
        Err(fault) => (state, Err(ActionGraphFault::Runtime(fault))),
        Ok(_) => if install_disabled(scene, source, spec) {
            (state, Ok(None))
        } else {
            let (synced, workspace) = sync_workspace_step(scene, state, source);
            match workspace {
                Err(fault) => (synced, Err(fault)),
                Ok(workspace) => {
                    let (before, toolchain) = setup_toolchain_step(
                        scene,
                        synced,
                        project,
                        spec,
                        Set::empty(),
                    );
                    match toolchain {
                        Err(fault) => (before, Err(fault)),
                        Ok(toolchain) => match facts_of(scene.facts, source, project, spec.id) {
                            None => (
                                before,
                                Err(ActionGraphFault::UnknownToolchain { id: spec.id }),
                            ),
                            Some(facts) => if !facts.tier_2 || facts.root is None
                                || facts.root->0.role is None {
                                (before, Ok(toolchain))
                            } else {
                                install_in_root(
                                    scene,
                                    before,
                                    project,
                                    spec,
                                    facts.root->0,
                                    facts.root->0.role->0,
                                    facts.has_install_dependencies,
                                    workspace,
                                    toolchain,
                                )
                            },
                        },
                    }
                },
            }
        },
    }
}

/// The installation of the dependencies of a project, for several toolchains.
pub open spec fn install_all(
    scene: SceneView,
    state: StateView,
    project: ProjectKeyView,
    toolchains: Seq<Seq<char>>,
) -> Steps
    decreases toolchains.len(),
{
    if toolchains.len() == 0 {
        (state, Ok(Seq::empty()))
    } else {
        let (before, edges) = install_all(scene, state, project, toolchains.drop_last());
        match edges {
            Err(fault) => (before, Err(fault)),
            Ok(edges) => match runtime_of(scene.runtimes.entries, project.source) {
                Err(fault) => (before, Err(ActionGraphFault::Runtime(fault))),
                Ok(_) => match project_spec(scene, project, toolchains.last()) {
                    None => (before, Ok(edges)),
                    Some(spec) => {
                        let (after, index) = install_step(scene, before, Some(project), spec);
                        match index {
                            Err(fault) => (after, Err(fault)),
                            Ok(index) => (after, Ok(edges.push(index))),
                        }
                    },
                },
            },
        }
    }
}

/// Whether the root of the dependencies of a workspace is the workspace itself. Nothing may
/// be known of the toolchain.
pub open spec fn root_is_workspace(scene: SceneView, id: Seq<char>) -> Option<bool> {
    match facts_of(scene.facts, scene.primary, None, id) {
        None => None,
        Some(facts) => Some(
            facts.tier_2 && facts.root is Some && facts.root->0.is_workspace_root,
        ),
    }
}

/// The installation of the dependencies of the workspace, where it declares them itself.
pub open spec fn install_root_step(scene: SceneView, state: StateView, spec: SpecView) -> Step {
    match runtime_of(scene.runtimes.entries, scene.primary) {
        Err(fault) => (state, Err(ActionGraphFault::Runtime(fault))),
        Ok(_) => if install_disabled(scene, scene.primary, spec) {
            (state, Ok(None))
        } else {
            match root_is_workspace(scene, spec.id) {
                None => (state, Err(ActionGraphFault::UnknownToolchain { id: spec.id })),
                Some(false) => (state, Ok(None)),
                Some(true) => install_step(scene, state, None, spec),
            }
        },
    }
}

/// The setup of the environment of the workspace, where it declares its dependencies itself.
pub open spec fn environment_root_step(scene: SceneView, state: StateView, spec: SpecView) -> Step {
    match runtime_of(scene.runtimes.entries, scene.primary) {
        Err(fault) => (state, Err(ActionGraphFault::Runtime(fault))),
        Ok(_) => if !switched_on(scene.options.setup_environment, spec.id) || is_system_spec(spec) {
            (state, Ok(None))
        } else {
            match root_is_workspace(scene, spec.id) {
                None => (state, Err(ActionGraphFault::UnknownToolchain { id: spec.id })),
                Some(false) => (state, Ok(None)),
                Some(true) => setup_environment_step(scene, state, None, spec, Seq::empty()),
            }
        },
    }
}

proof fn environment_stops(
    scene: SceneView,
    state: StateView,
    project: Option<ProjectKeyView>,
    id: Seq<char>,
    list: Seq<Seq<char>>,
    n: int,
)
    requires
        0 <= n <= list.len(),
        environment_toolchains(scene, state, project, id, list.take(n)).1 is Err,
    ensures
        environment_toolchains(scene, state, project, id, list) == environment_toolchains(
            scene,
            state,
            project,
            id,
            list.take(n),
        ),
    decreases list.len(),
{
    if n == list.len() {
        assert(list.take(n) =~= list);
    } else {
        assert(list.drop_last().take(n) =~= list.take(n));
        environment_stops(scene, state, project, id, list.drop_last(), n);
    }
}

proof fn install_stops(
    scene: SceneView,
    state: StateView,
    project: ProjectKeyView,
    list: Seq<Seq<char>>,
    n: int,
)
    requires
        0 <= n <= list.len(),
        install_all(scene, state, project, list.take(n)).1 is Err,
    ensures
        install_all(scene, state, project, list) == install_all(
            scene,
            state,
            project,
            list.take(n),
        ),
    decreases list.len(),
{
    if n == list.len() {
        assert(list.take(n) =~= list);
    } else {
        assert(list.drop_last().take(n) =~= list.take(n));
        install_stops(scene, state, project, list.drop_last(), n);
    }
}

fn setup_environment_toolchains(
    scene: &ActionScene,
    state: &mut ActionGraphState,
    project: Option<&ProjectKey>,
    id: &Id,
    requires_ids: &Vec<String>,
) -> (edges: Result<Vec<Option<usize>>, ActionGraphError>)
    requires
        state_valid(old(state)@),
    ensures
        (final(state)@, told_all(edges)) == environment_toolchains(
            scene@,
            old(state)@,
            key_view(project),
            id@,
            views(requires_ids@),
        ),
        settles_all(old(state)@, final(state)@, told_all(edges)),
{
    let ghost start = state@;
    let ghost owner = key_view(project);
    let ghost list = views(requires_ids@);
    let mut edges: Vec<Option<usize>> = Vec::new();
    let mut i: usize = 0;
    proof {
        assert(list.take(0) =~= Seq::empty());
        assert(edges@ =~= Seq::empty());
    }
    while i < requires_ids.len()
        invariant
            i <= requires_ids@.len(),
            start == old(state)@,
            owner == key_view(project),
            list == views(requires_ids@),
            state_valid(state@),
            start.nodes.is_prefix_of(state@.nodes),
            start.graph.edges.is_prefix_of(state@.graph.edges),
            edges_known(edges@, state@.nodes.len()),
            (state@, Ok::<Seq<Option<usize>>, ActionGraphFault>(edges@)) == environment_toolchains(
                scene@,
                start,
                owner,
                id@,
                list.take(i as int),
            ),
        decreases requires_ids.len() - i,
    {
        proof {
            assert(list.take(i + 1).drop_last() =~= list.take(i as int));
            assert(list.take(i + 1).last() == requires_ids@[i as int]@);
        }
        let dep = match Id::new(requires_ids[i].as_str()) {
            Ok(dep) => dep,
            Err(error) => {
                proof {
                    environment_stops(scene@, start, owner, id@, list, i + 1);
                }
                return Err(ActionGraphError::InvalidId { id: error.id });
            },
        };
        if !dep.same_key(id) {
            let spec = match scene.spec_for(project, &dep) {
                None => {
                    proof {
                        environment_stops(scene@, start, owner, id@, list, i + 1);
                    }
                    return Err(
                        ActionGraphError::MissingToolchainRequirement {
                            id: id.as_str().to_owned(),
                            dep_id: dep.as_str().to_owned(),
                        },
                    );
                },
                Some(spec) => spec,
            };
            let ghost before = state@;
            match setup_toolchain(scene, state, project, &spec) {
                Err(error) => {
                    proof {
                        environment_stops(scene@, start, owner, id@, list, i + 1);
                    }
                    return Err(error);
                },
                Ok(index) => {
                    proof {
                        edges_stay_known(edges@, before.nodes.len(), state@.nodes.len(), index);
                    }
                    edges.push(index);
                },
            }
        }
        i = i + 1;
    }
    assert(list.take(i as int) =~= list);
    Ok(edges)
}

fn insert_environment(
    scene: &ActionScene,
    state: &mut ActionGraphState,
    project: Option<&ProjectKey>,
    spec: &ToolchainSpec,
    root: &String,
    edges: Vec<Option<usize>>,
) -> (index: Result<Option<usize>, ActionGraphError>)
    requires
        state_valid(old(state)@),
        edges_known(edges@, old(state)@.nodes.len()),
    ensures
        (final(state)@, told(index)) == environment_node_step(
            scene@,
            old(state)@,
            key_view(project),
            spec@,
            root@,
            edges@,
        ),
        settles(old(state)@, final(state)@, told(index)),
        index matches Ok(Some(i)) ==> may_wait(final(state)@.nodes, i),
{
    let mut edges = edges;
    let source = scene.owner_source(project);
    let workspace = match sync_workspace_for(scene, state, source) {
        Err(error) => {
            return Err(error);
        },
        Ok(workspace) => workspace,
    };
    let toolchain = match setup_toolchain(scene, state, project, spec) {
        Err(error) => {
            return Err(error);
        },
        Ok(toolchain) => toolchain,
    };
    edges.push(workspace);
    edges.push(toolchain);
    let node = ActionNode::setup_environment(
        SetupEnvironmentNode {
            project_key: match project {
                Some(key) => Some(key.copy_key()),
                None => None,
            },
            root: root.clone(),
            source_id: source.copy_key(),
            toolchain_id: spec.id.copy_key(),
        },
    );
    if let Some(index) = state.get_index_from_node(&node) {
        return Ok(Some(index));
    }
    let inserted = state.insert_node(node);
    if let Ok(Some(index)) = inserted {
        if let Err(error) = state.link_optional_requirements(index, edges) {
            return Err(error);
        }
    }
    inserted
}

/// Adds the setup of the environment of a toolchain.
pub fn setup_environment(
    scene: &ActionScene,
    state: &mut ActionGraphState,
    project: Option<&ProjectKey>,
    spec: &ToolchainSpec,
    root: &String,
) -> (index: Result<Option<usize>, ActionGraphError>)
    requires
        state_valid(old(state)@),
    ensures
        (final(state)@, told(index)) == setup_environment_step(
            scene@,
            old(state)@,
            key_view(project),
            spec@,
            root@,
        ),
        settles(old(state)@, final(state)@, told(index)),
        index matches Ok(Some(i)) ==> may_wait(final(state)@.nodes, i),
{
    let source = scene.owner_source(project);
    if let Err(error) = scene.runtimes.get(source) {
        return Err(ActionGraphError::Runtime(error));
    }
    if !scene.options.setup_environment.is_enabled(&spec.id) || spec.is_system() {
        return Ok(None);
    }
    let facts = match scene.facts_for(project, &spec.id) {
        None => {
            return Err(
                ActionGraphError::UnknownToolchain { id: spec.id.as_str().to_owned() },
            );
        },
        Some(facts) => facts,
    };
    let edges: Vec<Option<usize>> = if facts.for_setup_environment {
        match setup_environment_toolchains(scene, state, project, &spec.id, &facts.requires) {
            Err(error) => {
                return Err(error);
            },
            Ok(edges) => edges,
        }
    } else {
        let edges: Vec<Option<usize>> = Vec::new();
        assert(edges@ =~= Seq::empty());
        edges
    };
    if !facts.has_setup_environment && edges.len() == 0 {
        return Ok(None);
    }
    insert_environment(scene, state, project, spec, root, edges)
}

/// Whether the installation of dependencies is switched off for a toolchain.
fn is_install_disabled(scene: &ActionScene, project: Option<&ProjectKey>, spec: &ToolchainSpec) -> (r:
    bool)
    ensures
        r == install_disabled(scene@, owner_source(scene@, key_view(project)), spec@),
{
    spec.is_system() || !scene.options.install_dependencies.is_enabled(&spec.id)
        || match scene.plugin(scene.owner_source(project), &spec.id) {
        Some(plugin) => !plugin.install_dependencies,
        None => false,
    }
}

/// Adds the installation of dependencies in a root, behind what it waits for.
#[verifier::rlimit(60)]
fn insert_installation(
    scene: &ActionScene,
    state: &mut ActionGraphState,
    project: Option<&ProjectKey>,
    spec: &ToolchainSpec,
    root: &DependenciesRoot,
    role: DependenciesWorkspaceRole,
    installs: bool,
    workspace: Option<usize>,
    toolchain: Option<usize>,
) -> (index: Result<Option<usize>, ActionGraphError>)
    requires
        state_valid(old(state)@),
        workspace is Some ==> workspace->0 < old(state)@.nodes.len(),
        toolchain is Some ==> toolchain->0 < old(state)@.nodes.len(),
    ensures
        (final(state)@, told(index)) == install_in_root(
            scene@,
            old(state)@,
            key_view(project),
            spec@,
            root@,
            role,
            installs,
            workspace,
            toolchain,
        ),
        settles(old(state)@, final(state)@, told(index)),
{
    let owner: Option<&ProjectKey> = match role {
        DependenciesWorkspaceRole::PackageRoot => project,
        _ => None,
    };
    let environment: Option<usize> = match setup_environment(scene, state, owner, spec, &root.root) {
        Err(error) => {
            return Err(error);
        },
        Ok(environment) => environment,
    };
    if installs {
        let node = ActionNode::install_dependencies(
            InstallDependenciesNode {
                members: match &root.members {
                    Some(members) => Some(copy_texts(members)),
                    None => None,
                },
                project_key: match owner {
                    Some(key) => Some(key.copy_key()),
                    None => None,
                },
                root: root.root.clone(),
                source_id: scene.owner_source(project).copy_key(),
                toolchain_id: spec.id.copy_key(),
            },
        );
        let found = state.insert_node_if_missing(node);
        if let Ok(Some(index)) = found {
            let mut edges: Vec<Option<usize>> = Vec::new();
            edges.push(environment);
            edges.push(toolchain);
            edges.push(workspace);
            assert(edges@ =~= seq![environment, toolchain, workspace]);
            if let Err(error) = state.link_first_requirement(index, edges) {
                return Err(error);
            }
        }
        return found;
    }
    match environment {
        Some(index) => {
            let mut edges: Vec<Option<usize>> = Vec::new();
            edges.push(toolchain);
            edges.push(workspace);
            assert(edges@ =~= seq![toolchain, workspace]);
            if let Err(error) = state.link_first_requirement(index, edges) {
                return Err(error);
            }
            Ok(Some(index))
        },
        None => Ok(toolchain),
    }
}

/// Adds the installation of the dependencies of a project, or of the workspace.
pub fn install_dependencies(
    scene: &ActionScene,
    state: &mut ActionGraphState,
    project: Option<&ProjectKey>,
    spec: &ToolchainSpec,
) -> (index: Result<Option<usize>, ActionGraphError>)
    requires
        state_valid(old(state)@),
    ensures
        (final(state)@, told(index)) == install_step(
            scene@,
            old(state)@,
            key_view(project),
            spec@,
        ),
        settles(old(state)@, final(state)@, told(index)),
{
    let source = scene.owner_source(project);
    if let Err(error) = scene.runtimes.get(source) {
        return Err(ActionGraphError::Runtime(error));
    }
    if is_install_disabled(scene, project, spec) {
        return Ok(None);
    }
    let workspace: Option<usize> = match sync_workspace_for(scene, state, source) {
        Err(error) => {
            return Err(error);
        },
        Ok(workspace) => workspace,
    };
    let toolchain: Option<usize> = match setup_toolchain(scene, state, project, spec) {
        Err(error) => {
            return Err(error);
        },
        Ok(toolchain) => toolchain,
    };
    let facts = match scene.facts_for(project, &spec.id) {
        None => {
            return Err(
                ActionGraphError::UnknownToolchain { id: spec.id.as_str().to_owned() },
            );
        },
        Some(facts) => facts,
    };
    if !facts.tier_2 {
        return Ok(toolchain);
    }
    if let Some(root) = &facts.root {
        if let Some(role) = root.role {
            return insert_installation(
                scene,
                state,
                project,
                spec,
                root,
                role,
                facts.has_install_dependencies,
                workspace,
                toolchain,
            );
        }
    }
    Ok(toolchain)
}

/// Adds the installation of the dependencies of a project, for several toolchains.
pub fn install_dependencies_by_toolchains(
    scene: &ActionScene,
    state: &mut ActionGraphState,
    project: &ProjectKey,
    toolchains: &Vec<Id>,
) -> (edges: Result<Vec<Option<usize>>, ActionGraphError>)
    requires
        state_valid(old(state)@),
    ensures
        (final(state)@, told_all(edges)) == install_all(
            scene@,
            old(state)@,
            project@,
            views(toolchains@),
        ),
        settles_all(old(state)@, final(state)@, told_all(edges)),
{
    let ghost start = state@;
    let ghost list = views(toolchains@);
    let mut edges: Vec<Option<usize>> = Vec::new();
    let mut i: usize = 0;
    proof {
        assert(list.take(0) =~= Seq::empty());
        assert(edges@ =~= Seq::empty());
    }
    while i < toolchains.len()
        invariant
            i <= toolchains@.len(),
            start == old(state)@,
            list == views(toolchains@),
            state_valid(state@),
            start.nodes.is_prefix_of(state@.nodes),
            start.graph.edges.is_prefix_of(state@.graph.edges),
            edges_known(edges@, state@.nodes.len()),
            (state@, Ok::<Seq<Option<usize>>, ActionGraphFault>(edges@)) == install_all(
                scene@,
                start,
                project@,
                list.take(i as int),
            ),
        decreases toolchains.len() - i,
    {
        proof {
            assert(list.take(i + 1).drop_last() =~= list.take(i as int));
            assert(list.take(i + 1).last() == toolchains@[i as int]@);
        }
        if let Err(error) = scene.runtimes.get(project.source_id()) {
            proof {
                install_stops(scene@, start, project@, list, i + 1);
            }
            return Err(ActionGraphError::Runtime(error));
        }
        if let Some(spec) = scene.project_spec(project, &toolchains[i]) {
            let ghost before = state@;
            match install_dependencies(scene, state, Some(project), &spec) {
                Err(error) => {
                    proof {
                        install_stops(scene@, start, project@, list, i + 1);
                    }
                    return Err(error);
                },
                Ok(index) => {
                    proof {
                        edges_stay_known(edges@, before.nodes.len(), state@.nodes.len(), index);
                    }
                    edges.push(index);
                },
            }
        }
        i = i + 1;
    }
    assert(list.take(i as int) =~= list);
    Ok(edges)
}

/// Whether the root of the dependencies of the workspace is the workspace itself.
fn is_root_workspace(scene: &ActionScene, id: &Id) -> (r: Option<bool>)
    ensures
        r == root_is_workspace(scene@, id@),
{
    match scene.facts_for(None, id) {
        None => None,
        Some(facts) => Some(
            facts.tier_2 && match &facts.root {
                Some(root) => root.is_workspace_root,
                None => false,
            },
        ),
    }
}

/// Adds the installation of the dependencies of the workspace, where it declares them
/// itself.
pub fn install_dependencies_root(
    scene: &ActionScene,
    state: &mut ActionGraphState,
    spec: &ToolchainSpec,
) -> (index: Result<Option<usize>, ActionGraphError>)
    requires
        state_valid(old(state)@),
    ensures
        (final(state)@, told(index)) == install_root_step(scene@, old(state)@, spec@),
        settles(old(state)@, final(state)@, told(index)),
{
    if let Err(error) = scene.runtimes.get(&scene.primary) {
        return Err(ActionGraphError::Runtime(error));
    }
    if is_install_disabled(scene, None, spec) {
        return Ok(None);
    }
    match is_root_workspace(scene, &spec.id) {
        None => Err(ActionGraphError::UnknownToolchain { id: spec.id.as_str().to_owned() }),
        Some(false) => Ok(None),
        Some(true) => install_dependencies(scene, state, None, spec),
    }
}

/// Adds the setup of the environment of the workspace, where it declares its dependencies
/// itself.
pub fn setup_environment_root(
    scene: &ActionScene,
    state: &mut ActionGraphState,
    spec: &ToolchainSpec,
) -> (index: Result<Option<usize>, ActionGraphError>)
    requires
        state_valid(old(state)@),
    ensures
        (final(state)@, told(index)) == environment_root_step(scene@, old(state)@, spec@),
        settles(old(state)@, final(state)@, told(index)),
{
    if let Err(error) = scene.runtimes.get(&scene.primary) {
        return Err(ActionGraphError::Runtime(error));
    }
    if !scene.options.setup_environment.is_enabled(&spec.id) || spec.is_system() {
        return Ok(None);
    }
    match is_root_workspace(scene, &spec.id) {
        None => Err(ActionGraphError::UnknownToolchain { id: spec.id.as_str().to_owned() }),
        Some(false) => Ok(None),
        Some(true) => {
            let root = String::new();
            assert(root@ =~= Seq::empty());
            setup_environment(scene, state, None, spec, &root)
        },
    }
}

} // verus!
