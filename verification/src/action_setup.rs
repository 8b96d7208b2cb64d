//! The actions that prepare a run: workspaces, toolchains, environments and dependencies.

use crate::action_node::{
    is_system_spec, ActionNode, NodeView, SetupToolchainNode, SpecView, ToolchainSpec,
};
use crate::action_scene::{
    facts_of, key_view, open_count, open_count_drops, owner_source, spec_for, switched_on,
    ActionScene, SceneView,
};
use crate::action_state::{
    edges_known, link_all, order_setup, place_of_node, required, settles, state_valid, told,
    with_node, with_node_if_missing, ActionGraphError, ActionGraphFault, ActionGraphState,
    StateView,
};
use crate::id::{valid_id, Id};
use crate::keys::{ProjectKey, ProjectKeyView};
use crate::keyset::KeySet;
use crate::order::views;
use crate::runtime::{runtime_of, SourceContext, SourceContextView};
use crate::source::SourceRootId;
use crate::table::{Duplicate, Key};
use vstd::prelude::*;

verus! {

broadcast use crate::order::group_views;

/// What a step makes of the graph, and the action that it gives.
pub type Step = (StateView, Result<Option<usize>, ActionGraphFault>);

/// What steps make of the graph, and the actions that they give.
pub type Steps = (StateView, Result<Seq<Option<usize>>, ActionGraphFault>);

/// The synchronisation of a workspace.
pub open spec fn sync_workspace_step(scene: SceneView, state: StateView, source: Seq<char>) -> Step {
    if !scene.options.sync_workspace {
        (state, Ok(None))
    } else {
        match runtime_of(scene.runtimes.entries, source) {
            Err(fault) => (state, Err(ActionGraphFault::Runtime(fault))),
            Ok(_) => with_node_if_missing(state, NodeView::SyncWorkspace { source }),
        }
    }
}

/// The version of proto that a source root configures.
pub open spec fn proto_version(scene: SceneView, source: Seq<char>) -> Seq<char> {
    if scene.configs.dom().contains(source) {
        scene.configs[source].proto_version
    } else {
        Seq::empty()
    }
}

/// Whether a source root needs proto in any case.
pub open spec fn requires_proto(scene: SceneView, source: Seq<char>) -> bool {
    scene.configs.dom().contains(source) && scene.configs[source].requires_proto
}

/// A setup that was added takes its place among the others in its store.
pub open spec fn ordered_node(state: StateView, node: NodeView, context: SourceContextView) -> Step {
    let (added, index) = with_node(state, node);
    match index {
        Ok(Some(index)) => {
            let (after, done) = order_setup(added, index, context);
            match done {
                Ok(_) => (after, Ok(Some(index))),
                Err(fault) => (after, Err(fault)),
            }
        },
        _ => (added, index),
    }
}

/// The setup of proto.
pub open spec fn setup_proto_step(scene: SceneView, state: StateView, source: Seq<char>) -> Step {
    match runtime_of(scene.runtimes.entries, source) {
        Err(fault) => (state, Err(ActionGraphFault::Runtime(fault))),
        Ok(context) => {
            let node = NodeView::SetupProto { source, version: proto_version(scene, source) };
            match place_of_node(state.nodes, node) {
                Some(index) => (state, Ok(Some(index))),
                None => ordered_node(state, node, context),
            }
        },
    }
}

/// A toolchain is set up behind those that it requires, behind the workspace, and behind
/// proto where proto is needed.
pub open spec fn toolchain_node_step(
    scene: SceneView,
    state: StateView,
    source: Seq<char>,
    context: SourceContextView,
    spec: SpecView,
    edges: Seq<Option<usize>>,
) -> Step {
    let (synced, workspace) = sync_workspace_step(scene, state, source);
    match workspace {
        Err(fault) => (synced, Err(fault)),
        Ok(workspace) => {
            let (prepared, proto) = if spec.req is Some || requires_proto(scene, source) {
                setup_proto_step(scene, synced, source)
            } else {
                (synced, Ok(None))
            };
            match proto {
                Err(fault) => (prepared, Err(fault)),
                Ok(proto) => {
                    linked_setup(
                        prepared,
                        NodeView::SetupToolchain { source, spec },
                        context,
                        edges.push(workspace).push(proto),
                    )
                },
            }
        },
    }
}

/// A setup waits for others. One that was added takes its place among the others in its
/// store.
pub open spec fn linked_setup(
    state: StateView,
    node: NodeView,
    context: SourceContextView,
    edges: Seq<Option<usize>>,
) -> Step {
    let inserted = place_of_node(state.nodes, node) is None;
    let (added, index) = with_node_if_missing(state, node);
    match index {
        Ok(Some(index)) => {
            let (linked, done) = link_all(added, index, required(edges));
            match done {
                Err(fault) => (linked, Err(fault)),
                Ok(_) => if inserted {
                    let (after, done) = order_setup(linked, index, context);
                    match done {
                        Ok(_) => (after, Ok(Some(index))),
                        Err(fault) => (after, Err(fault)),
                    }
                } else {
                    (linked, Ok(Some(index)))
                },
            }
        },
        _ => (added, index),
    }
}

/// The setup of a toolchain. Toolchains that are being set up further out are passed over.
pub open spec fn setup_toolchain_step(
    scene: SceneView,
    state: StateView,
    project: Option<ProjectKeyView>,
    spec: SpecView,
    cycle: Set<Seq<char>>,
) -> Step
    decreases open_count(scene.facts, cycle), 0nat, 0nat,
{
    let source = owner_source(scene, project);
    match runtime_of(scene.runtimes.entries, source) {
        Err(fault) => (state, Err(ActionGraphFault::Runtime(fault))),
        Ok(context) => if !switched_on(scene.options.setup_toolchains, spec.id) || is_system_spec(
            spec,
        ) || cycle.contains(spec.id) {
            (state, Ok(None))
        } else {
            match facts_of(scene.facts, source, project, spec.id) {
                None => (state, Err(ActionGraphFault::UnknownToolchain { id: spec.id })),
                Some(facts) => {
                    proof {
                        if facts_of(scene.facts, source, project, spec.id) is Some {
                            open_count_drops(scene.facts, source, project, cycle, spec.id);
                        }
                    }
                    let (before, edges) = if facts.for_setup_toolchain {
                        required_toolchains(
                            scene,
                            state,
                            project,
                            spec.id,
                            facts.requires,
                            cycle.insert(spec.id),
                        )
                    } else {
                        (state, Ok(Seq::empty()))
                    };
                    match edges {
                        Err(fault) => (before, Err(fault)),
                        Ok(edges) => if !facts.tier_3 && edges.len() == 0 {
                            (before, Ok(None))
                        } else {
                            toolchain_node_step(scene, before, source, context, spec, edges)
                        },
                    }
                },
            }
        },
    }
}

/// The setup of the toolchains that another requires, one after the other. All of them
/// must be configured.
pub open spec fn required_toolchains(
    scene: SceneView,
    state: StateView,
    project: Option<ProjectKeyView>,
    id: Seq<char>,
    requires_ids: Seq<Seq<char>>,
    cycle: Set<Seq<char>>,
) -> Steps
    decreases open_count(scene.facts, cycle), 1nat, requires_ids.len(),
{
    if requires_ids.len() == 0 {
        (state, Ok(Seq::empty()))
    } else {
        let (before, edges) = required_toolchains(
            scene,
            state,
            project,
            id,
            requires_ids.drop_last(),
            cycle,
        );
        let dep = requires_ids.last();
        match edges {
            Err(fault) => (before, Err(fault)),
            Ok(edges) => if !valid_id(dep) {
                (before, Err(ActionGraphFault::InvalidId { id: dep }))
            } else if dep == id || cycle.contains(dep) {
                (before, Ok(edges))
            } else {
                match spec_for(scene, project, dep) {
                    None => (
                        before,
                        Err(ActionGraphFault::MissingToolchainRequirement { id, dep_id: dep }),
                    ),
                    Some(spec) => {
                        let (after, index) = setup_toolchain_step(
                            scene,
                            before,
                            project,
                            spec,
                            cycle,
                        );
                        match index {
                            Err(fault) => (after, Err(fault)),
                            Ok(index) => (after, Ok(edges.push(index))),
                        }
                    },
                }
            },
        }
    }
}

/// Adds the synchronisation of a workspace.
pub fn sync_workspace_for(
    scene: &ActionScene,
    state: &mut ActionGraphState,
    source: &SourceRootId,
) -> (index: Result<Option<usize>, ActionGraphError>)
    requires
        state_valid(old(state)@),
    ensures
        (final(state)@, told(index)) == sync_workspace_step(scene@, old(state)@, source@),
        settles(old(state)@, final(state)@, told(index)),
{
    if !scene.options.sync_workspace {
        return Ok(None);
    }
    match scene.runtimes.get(source) {
        Err(error) => Err(ActionGraphError::Runtime(error)),
        Ok(_) => state.insert_node_if_missing(ActionNode::sync_workspace(source.copy_key())),
    }
}

/// Adds a setup that takes its place among the others in its store.
fn insert_ordered(state: &mut ActionGraphState, node: ActionNode, context: &SourceContext) -> (index:
    Result<Option<usize>, ActionGraphError>)
    requires
        state_valid(old(state)@),
        node@ !is SyncWorkspace,
    ensures
        (final(state)@, told(index)) == ordered_node(old(state)@, node@, context@),
        settles(old(state)@, final(state)@, told(index)),
{
    let inserted = state.insert_node(node);
    if let Ok(Some(index)) = inserted {
        if let Err(error) = state.order_shared_setup(index, context) {
            return Err(error);
        }
    }
    inserted
}

/// Adds the setup of proto.
pub fn setup_proto_for(scene: &ActionScene, state: &mut ActionGraphState, source: &SourceRootId) -> (
index: Result<Option<usize>, ActionGraphError>)
    requires
        state_valid(old(state)@),
    ensures
        (final(state)@, told(index)) == setup_proto_step(scene@, old(state)@, source@),
        settles(old(state)@, final(state)@, told(index)),
{
    let context = match scene.runtimes.get(source) {
        Err(error) => {
            return Err(ActionGraphError::Runtime(error));
        },
        Ok(context) => context,
    };
    let version = match scene.configs.get(source) {
        Some(config) => config.proto_version.clone(),
        None => {
            let text = String::new();
            assert(text@ =~= Seq::empty());
            text
        },
    };
    let node = ActionNode::setup_proto(source.copy_key(), version);
    match state.get_index_from_node(&node) {
        Some(index) => Ok(Some(index)),
        None => insert_ordered(state, node, context),
    }
}

/// Adds the setup of a toolchain behind what it needs.
fn insert_toolchain(
    scene: &ActionScene,
    state: &mut ActionGraphState,
    source: &SourceRootId,
    context: &SourceContext,
    spec: &ToolchainSpec,
    edges: Vec<Option<usize>>,
) -> (index: Result<Option<usize>, ActionGraphError>)
    requires
        state_valid(old(state)@),
        edges_known(edges@, old(state)@.nodes.len()),
    ensures
        (final(state)@, told(index)) == toolchain_node_step(
            scene@,
            old(state)@,
            source@,
            context@,
            spec@,
            edges@,
        ),
        settles(old(state)@, final(state)@, told(index)),
{
    let mut edges = edges;
    let workspace = match sync_workspace_for(scene, state, source) {
        Err(error) => {
            return Err(error);
        },
        Ok(workspace) => workspace,
    };
    let needs_proto = spec.req.is_some() || match scene.configs.get(source) {
        Some(config) => config.requires_proto,
        None => false,
    };
    let proto: Option<usize> = if needs_proto {
        match setup_proto_for(scene, state, source) {
            Err(error) => {
                return Err(error);
            },
            Ok(proto) => proto,
        }
    } else {
        None
    };
    edges.push(workspace);
    edges.push(proto);
    let node = ActionNode::setup_toolchain(
        SetupToolchainNode { source_id: source.copy_key(), toolchain: spec.clone() },
    );
    insert_linked(state, node, context, edges)
}

/// Adds a setup that waits for others.
fn insert_linked(
    state: &mut ActionGraphState,
    node: ActionNode,
    context: &SourceContext,
    edges: Vec<Option<usize>>,
) -> (index: Result<Option<usize>, ActionGraphError>)
    requires
        state_valid(old(state)@),
        edges_known(edges@, old(state)@.nodes.len()),
        node@ !is SyncWorkspace,
    ensures
        (final(state)@, told(index)) == linked_setup(old(state)@, node@, context@, edges@),
        settles(old(state)@, final(state)@, told(index)),
{
    let known = state.get_index_from_node(&node);
    let found = state.insert_node_if_missing(node);
    let index: usize = match found {
        Ok(Some(index)) => index,
        _ => {
            return found;
        },
    };
    if let Err(error) = state.link_optional_requirements(index, edges) {
        return Err(error);
    }
    if known.is_none() {
        if let Err(error) = state.order_shared_setup(index, context) {
            return Err(error);
        }
    }
    Ok(Some(index))
}

/// Adds the setup of a toolchain.
pub fn internal_setup_toolchain(
    scene: &ActionScene,
    state: &mut ActionGraphState,
    project: Option<&ProjectKey>,
    spec: &ToolchainSpec,
    cycle: &KeySet<Id>,
) -> (index: Result<Option<usize>, ActionGraphError>)
    requires
        state_valid(old(state)@),
    ensures
        (final(state)@, told(index)) == setup_toolchain_step(
            scene@,
            old(state)@,
            key_view(project),
            spec@,
            cycle@,
        ),
        settles(old(state)@, final(state)@, told(index)),
    decreases open_count(scene@.facts, cycle@), 0nat, 0nat,
{
    let source = scene.owner_source(project);
    let context = match scene.runtimes.get(source) {
        Err(error) => {
            return Err(ActionGraphError::Runtime(error));
        },
        Ok(context) => context,
    };
    if !scene.options.setup_toolchains.is_enabled(&spec.id) || spec.is_system() || cycle.contains(
        &spec.id,
    ) {
        return Ok(None);
    }
    let facts = match scene.facts_for(project, &spec.id) {
        None => {
            return Err(
                ActionGraphError::UnknownToolchain { id: spec.id.as_str().to_owned() },
            );
        },
        Some(facts) => facts,
    };
    let mut inner = cycle.duplicate();
    inner.insert(spec.id.copy_key());
    proof {
        open_count_drops(scene@.facts, source@, key_view(project), cycle@, spec@.id);
    }
    let edges: Vec<Option<usize>> = if facts.for_setup_toolchain {
        match setup_required(scene, state, project, &spec.id, &facts.requires, &inner) {
            Err(error) => {
                return Err(error);
            },
            Ok(edges) => edges,
        }
    } else {
        let edges: Vec<Option<usize>> = Vec::new();
        assert(edges@ =~= Seq::empty());
        edges
    };
    if !facts.tier_3 && edges.len() == 0 {
        return Ok(None);
    }
    insert_toolchain(scene, state, source, context, spec, edges)
}

/// The actions that steps give, or what the first that failed reports.
pub open spec fn told_all(result: Result<Vec<Option<usize>>, ActionGraphError>) -> Result<
    Seq<Option<usize>>,
    ActionGraphFault,
> {
    match result {
        Ok(edges) => Ok(edges@),
        Err(error) => Err(error@),
    }
}

/// What steps keep: the graph stays sound, no action is lost, and the actions that are
/// given are of the graph.
pub open spec fn settles_all(
    before: StateView,
    after: StateView,
    result: Result<Seq<Option<usize>>, ActionGraphFault>,
) -> bool {
    &&& state_valid(after)
    &&& before.nodes.is_prefix_of(after.nodes)
    &&& before.graph.edges.is_prefix_of(after.graph.edges)
    &&& result matches Ok(edges) ==> edges_known(edges, after.nodes.len())
}

/// The first failure ends the setup of required toolchains.
proof fn required_stops(
    scene: SceneView,
    state: StateView,
    project: Option<ProjectKeyView>,
    id: Seq<char>,
    list: Seq<Seq<char>>,
    cycle: Set<Seq<char>>,
    n: int,
)
    requires
        0 <= n <= list.len(),
        required_toolchains(scene, state, project, id, list.take(n), cycle).1 is Err,
    ensures
        required_toolchains(scene, state, project, id, list, cycle) == required_toolchains(
            scene,
            state,
            project,
            id,
            list.take(n),
            cycle,
        ),
    decreases list.len(),
{
    if n == list.len() {
        assert(list.take(n) =~= list);
    } else {
        assert(list.drop_last().take(n) =~= list.take(n));
        required_stops(scene, state, project, id, list.drop_last(), cycle, n);
    }
}

/// Adds the setup of the toolchains that another requires.
fn setup_required(
    scene: &ActionScene,
    state: &mut ActionGraphState,
    project: Option<&ProjectKey>,
    id: &Id,
    requires_ids: &Vec<String>,
    cycle: &KeySet<Id>,
) -> (edges: Result<Vec<Option<usize>>, ActionGraphError>)
    requires
        state_valid(old(state)@),
    ensures
        (final(state)@, told_all(edges)) == required_toolchains(
            scene@,
            old(state)@,
            key_view(project),
            id@,
            views(requires_ids@),
            cycle@,
        ),
        settles_all(old(state)@, final(state)@, told_all(edges)),
    decreases open_count(scene@.facts, cycle@), 1nat, requires_ids@.len(),
{
    let ghost start = state@;
    let ghost owner = key_view(project);
    let ghost list = views(requires_ids@);
    let mut edges: Vec<Option<usize>> = Vec::new();
    let mut i: usize = 0;
    proof {
        assert(list.take(0) =~= Seq::empty());
        assert(edges@ =~= Seq::empty());
    }
    while i < requires_ids.len()
        invariant
            i <= requires_ids@.len(),
            start == old(state)@,
            owner == key_view(project),
            list == views(requires_ids@),
            state_valid(state@),
            start.nodes.is_prefix_of(state@.nodes),
            start.graph.edges.is_prefix_of(state@.graph.edges),
            edges_known(edges@, state@.nodes.len()),
            (state@, Ok::<Seq<Option<usize>>, ActionGraphFault>(edges@)) == required_toolchains(
                scene@,
                start,
                owner,
                id@,
                list.take(i as int),
                cycle@,
            ),
        decreases requires_ids.len() - i,
    {
        proof {
            assert(list.take(i + 1).drop_last() =~= list.take(i as int));
            assert(list.take(i + 1).last() == requires_ids@[i as int]@);
        }
        let dep = match Id::new(requires_ids[i].as_str()) {
            Ok(dep) => dep,
            Err(error) => {
                proof {
                    required_stops(scene@, start, owner, id@, list, cycle@, i + 1);
                }
                return Err(ActionGraphError::InvalidId { id: error.id });
            },
        };
        if !dep.same_key(id) && !cycle.contains(&dep) {
            let spec = match scene.spec_for(project, &dep) {
                None => {
                    proof {
                        required_stops(scene@, start, owner, id@, list, cycle@, i + 1);
                    }
                    return Err(
                        ActionGraphError::MissingToolchainRequirement {
                            id: id.as_str().to_owned(),
                            dep_id: dep.as_str().to_owned(),
                        },
                    );
                },
                Some(spec) => spec,
            };
            let ghost before = state@;
            match internal_setup_toolchain(scene, state, project, &spec, cycle) {
                Err(error) => {
                    proof {
                        required_stops(scene@, start, owner, id@, list, cycle@, i + 1);
                    }
                    return Err(error);
                },
                Ok(index) => {
                    proof {
                        edges_stay_known(edges@, before.nodes.len(), state@.nodes.len(), index);
                    }
                    edges.push(index);
                },
            }
        }
        i = i + 1;
    }
    assert(list.take(i as int) =~= list);
    Ok(edges)
}

/// Actions stay actions when others are added.
pub proof fn edges_stay_known(edges: Seq<Option<usize>>, n: nat, m: nat, edge: Option<usize>)
    requires
        edges_known(edges, n),
        n <= m,
        edge is Some ==> edge->0 < m,
    ensures
        edges_known(edges.push(edge), m),
        edges_known(edges, m),
{
    assert forall|i: int| 0 <= i < edges.push(edge).len() && (#[trigger] edges.push(edge)[i]) is Some implies edges.push(
        edge,
    )[i]->0 < m by {
        if i < edges.len() {
            assert(edges.push(edge)[i] == edges[i]);
        }
    }
}

/// Adds the setup of a toolchain for a project, or for the workspace.
pub fn setup_toolchain(
    scene: &ActionScene,
    state: &mut ActionGraphState,
    project: Option<&ProjectKey>,
    spec: &ToolchainSpec,
) -> (index: Result<Option<usize>, ActionGraphError>)
    requires
        state_valid(old(state)@),
    ensures
        (final(state)@, told(index)) == setup_toolchain_step(
            scene@,
            old(state)@,
            key_view(project),
            spec@,
            Set::empty(),
        ),
        settles(old(state)@, final(state)@, told(index)),
{
    internal_setup_toolchain(scene, state, project, spec, &KeySet::new())
}

} // verus!
