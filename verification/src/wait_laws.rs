//! What every action waits for, however it came into the graph.

use crate::action_install::{environment_toolchains, install_step, setup_environment_step};
use crate::action_laws::{
    environment_toolchains_prepare, install_prepares, link_all_prepares, linked_setup_prepares,
    order_setup_prepares, place_is_first, prepares, required_toolchains_prepare,
    setup_environment_prepares, setup_proto_prepares, setup_toolchain_prepares,
    sync_workspace_prepares, with_node_prepares,
};
use crate::action_node::{NodeView, SpecView};
use crate::action_scene::{
    facts_of, open_count, open_count_drops, owner_source, spec_for, DependenciesWorkspaceRole,
    RootView, SceneView, SwitchView,
};
use crate::action_setup::{
    linked_setup, required_toolchains, setup_proto_step, setup_toolchain_step,
    sync_workspace_step, toolchain_node_step,
};
use crate::action_state::{
    first_some, link_all, link_all_waits, link_first, place_of_node, required, with_node,
    with_node_if_missing, StateView,
};
use crate::graph::has_edge;
use crate::keys::ProjectKeyView;
use crate::runtime::{runtime_of, SourceContextView};
use vstd::prelude::*;

verus! {

/// An action waits for another, which is one of the graph.
pub open spec fn waits_for_action(state: StateView, index: usize, node: NodeView) -> bool {
    exists|to: usize|
        to < state.nodes.len() && #[trigger] has_edge(state.graph.edges, index, to)
            && state.nodes[to as int] == node
}

/// No action and no edge is lost.
pub open spec fn grew(before: StateView, after: StateView) -> bool {
    &&& before.nodes.len() <= after.nodes.len()
    &&& forall|i: int|
        0 <= i < before.nodes.len() ==> #[trigger] after.nodes[i] == before.nodes[i]
    &&& before.graph.edges.len() <= after.graph.edges.len()
    &&& forall|i: int|
        0 <= i < before.graph.edges.len() ==> #[trigger] after.graph.edges[i]
            == before.graph.edges[i]
}

/// Everything that was added prepares toolchains: a workspace, proto, or a toolchain.
pub open spec fn only_setups(before: StateView, after: StateView) -> bool {
    forall|i: int|
        before.nodes.len() <= i < after.nodes.len() ==> {
            ||| (#[trigger] after.nodes[i]) is SyncWorkspace
            ||| after.nodes[i] is SetupProto
            ||| after.nodes[i] is SetupToolchain
        }
}

proof fn setups_add_up(first: StateView, second: StateView, third: StateView)
    requires
        grew(first, second),
        grew(second, third),
        only_setups(first, second),
        only_setups(second, third),
    ensures
        grew(first, third),
        only_setups(first, third),
{
    assert forall|i: int| first.nodes.len() <= i < third.nodes.len() implies {
        ||| (#[trigger] third.nodes[i]) is SyncWorkspace
        ||| third.nodes[i] is SetupProto
        ||| third.nodes[i] is SetupToolchain
    } by {
        if i < second.nodes.len() {
            assert(third.nodes[i] == second.nodes[i]);
        }
    }
}

/// What an action waits for it still waits for when the graph grows.
pub proof fn waiting_stays(before: StateView, after: StateView, index: usize, node: NodeView)
    requires
        grew(before, after),
        waits_for_action(before, index, node),
    ensures
        waits_for_action(after, index, node),
{
    let to = choose|to: usize|
        to < before.nodes.len() && #[trigger] has_edge(before.graph.edges, index, to)
            && before.nodes[to as int] == node;
    let i = choose|i: int|
        0 <= i < before.graph.edges.len() && (#[trigger] before.graph.edges[i]).0 == index
            && before.graph.edges[i].1 == to;
    assert(after.graph.edges[i] == before.graph.edges[i]);
    assert(after.nodes[to as int] == before.nodes[to as int]);
    assert(has_edge(after.graph.edges, index, to));
}

/// A kind of action is part of the run for a toolchain or a project.
pub open spec fn is_on(switch: SwitchView, id: Seq<char>) -> bool {
    match switch {
        SwitchView::Default => true,
        SwitchView::Enabled(on) => on,
        SwitchView::Only(ids) => exists|i: int|
            0 <= i < ids.len() && #[trigger] ids[i] == id,
    }
}

/// Some required toolchain is another one, outside of those that are being set up.
pub open spec fn requires_another(
    ids: Seq<Seq<char>>,
    id: Seq<char>,
    cycle: Set<Seq<char>>,
) -> bool {
    exists|i: int| 0 <= i < ids.len() && #[trigger] ids[i] != id && !cycle.contains(ids[i])
}

/// A toolchain is set up for a project: it is part of the run and not the system's own, and
/// its plugin sets something up or requires another toolchain for it.
pub open spec fn toolchain_is_wanted(
    scene: SceneView,
    project: Option<ProjectKeyView>,
    spec: SpecView,
    cycle: Set<Seq<char>>,
) -> bool {
    &&& is_on(scene.options.setup_toolchains, spec.id)
    &&& spec.id != "system"@
    &&& !cycle.contains(spec.id)
    &&& facts_of(scene.facts, owner_source(scene, project), project, spec.id) matches Some(facts)
        && (facts.tier_3 || (facts.for_setup_toolchain && requires_another(
        facts.requires,
        spec.id,
        cycle,
    )))
}

/// The environment of a toolchain is set up for a project: it is part of the run and not the
/// system's own, and its plugin sets one up or requires another toolchain for it.
pub open spec fn environment_is_wanted(
    scene: SceneView,
    project: Option<ProjectKeyView>,
    spec: SpecView,
) -> bool {
    &&& is_on(scene.options.setup_environment, spec.id)
    &&& spec.id != "system"@
    &&& facts_of(scene.facts, owner_source(scene, project), project, spec.id) matches Some(facts)
        && (facts.has_setup_environment || (facts.for_setup_environment && requires_another(
        facts.requires,
        spec.id,
        Set::empty(),
    )))
}

pub proof fn switches_agree(switch: SwitchView, id: Seq<char>)
    ensures
        crate::action_scene::switched_on(switch, id) == is_on(switch, id),
{
    if let SwitchView::Only(ids) = switch {
        if ids.contains(id) {
            let i = choose|i: int| 0 <= i < ids.len() && ids[i] == id;
            assert(ids[i] == id);
        }
    }
}

/// The synchronisation of a workspace is an action exactly where it is part of the run.
pub proof fn workspaces_are_synchronised_where_wanted(
    scene: SceneView,
    state: StateView,
    source: Seq<char>,
)
    requires
        state.nodes.len() <= u32::MAX,
        sync_workspace_step(scene, state, source).1 is Ok,
    ensures
        ({
            let (after, index) = sync_workspace_step(scene, state, source);
            &&& grew(state, after)
            &&& only_setups(state, after)
            &&& after.nodes.len() <= u32::MAX
            &&& index->Ok_0 is Some <==> scene.options.sync_workspace
            &&& index->Ok_0 matches Some(index) ==> index < after.nodes.len()
                && after.nodes[index as int] == (NodeView::SyncWorkspace { source })
        }),
{
    place_is_first(state.nodes, NodeView::SyncWorkspace { source });
    sync_workspace_prepares(scene, state, source);
}

/// The setup of proto is an action.
pub proof fn proto_is_set_up(scene: SceneView, state: StateView, source: Seq<char>)
    requires
        state.nodes.len() <= u32::MAX,
        setup_proto_step(scene, state, source).1 is Ok,
    ensures
        ({
            let (after, index) = setup_proto_step(scene, state, source);
            &&& grew(state, after)
            &&& only_setups(state, after)
            &&& after.nodes.len() <= u32::MAX
            &&& index->Ok_0 matches Some(index) && index < after.nodes.len()
                && after.nodes[index as int] == (NodeView::SetupProto {
                source,
                version: if scene.configs.dom().contains(source) {
                    scene.configs[source].proto_version
                } else {
                    Seq::empty()
                },
            })
        }),
{
    let node = NodeView::SetupProto {
        source,
        version: crate::action_setup::proto_version(scene, source),
    };
    place_is_first(state.nodes, node);
    setup_proto_prepares(scene, state, source);
    if place_of_node(state.nodes, node) is None {
        let (added, index) = with_node(state, node);
        if let Ok(Some(index)) = index {
            assert(added.nodes[index as int] == node);
            order_setup_prepares(
                added,
                index,
                runtime_of(scene.runtimes.entries, source)->Ok_0,
            );
        }
    }
}

/// Linking adds no action.
pub proof fn linking_adds_no_action(state: StateView, index: usize, edges: Seq<(Option<usize>, u8)>)
    ensures
        link_all(state, index, edges).0.nodes == state.nodes,
    decreases edges.len(),
{
    if edges.len() > 0 {
        linking_adds_no_action(state, index, edges.drop_last());
    }
}

/// A setup that waits for others does so in the end.
proof fn setups_wait(
    state: StateView,
    node: NodeView,
    context: SourceContextView,
    edges: Seq<Option<usize>>,
)
    requires
        state.nodes.len() <= u32::MAX,
        node !is RunTask,
        linked_setup(state, node, context, edges).1 is Ok,
        forall|i: int|
            0 <= i < edges.len() && (#[trigger] edges[i]) is Some ==> edges[i]->0
                < state.nodes.len(),
    ensures
        ({
            let (after, index) = linked_setup(state, node, context, edges);
            &&& grew(state, after)
            &&& forall|i: int|
                state.nodes.len() <= i < after.nodes.len() ==> #[trigger] after.nodes[i] == node
            &&& after.nodes.len() <= u32::MAX
            &&& index->Ok_0 is Some
            &&& index->Ok_0->0 < after.nodes.len()
            &&& after.nodes[index->Ok_0->0 as int] == node
            &&& forall|i: int|
                0 <= i < edges.len() && (#[trigger] edges[i]) is Some ==> waits_for_action(
                    after,
                    index->Ok_0->0,
                    state.nodes[edges[i]->0 as int],
                )
        }),
{
    let (added, index) = with_node_if_missing(state, node);
    place_is_first(state.nodes, node);
    linked_setup_prepares(state, node, context, edges);
    with_node_prepares(state, node);
    let (after, _) = linked_setup(state, node, context, edges);
    if let Ok(Some(index)) = index {
        let (linked, done) = link_all(added, index, required(edges));
        link_all_prepares(added, index, required(edges));
        linking_adds_no_action(added, index, required(edges));
        order_setup_prepares(linked, index, context);
        assert(added.nodes[index as int] == node);
        link_all_waits(added, index, required(edges));
        assert forall|i: int|
            0 <= i < edges.len() && (#[trigger] edges[i]) is Some implies waits_for_action(
            after,
            index,
            state.nodes[edges[i]->0 as int],
        ) by {
            assert(required(edges)[i].0 is Some);
            let to = edges[i]->0;
            assert(has_edge(linked.graph.edges, index, to));
            assert(linked.nodes[to as int] == added.nodes[to as int]);
            assert(added.nodes[to as int] == state.nodes[to as int]);
            assert(waits_for_action(linked, index, state.nodes[to as int]));
            waiting_stays(linked, after, index, state.nodes[to as int]);
        }
    }
}

/// What the setup of a toolchain gives, and what it waits for: the workspace, proto where it is
/// needed, and the toolchains that it requires.
pub open spec fn toolchain_waits(
    scene: SceneView,
    after: StateView,
    project: Option<ProjectKeyView>,
    spec: SpecView,
    cycle: Set<Seq<char>>,
    index: usize,
) -> bool {
    let source = owner_source(scene, project);
    &&& scene.options.sync_workspace ==> waits_for_action(
        after,
        index,
        NodeView::SyncWorkspace { source },
    )
    &&& spec.req is Some || (scene.configs.dom().contains(source)
        && scene.configs[source].requires_proto) ==> waits_for_action(
        after,
        index,
        NodeView::SetupProto {
            source,
            version: if scene.configs.dom().contains(source) {
                scene.configs[source].proto_version
            } else {
                Seq::empty()
            },
        },
    )
    &&& facts_of(scene.facts, source, project, spec.id) matches Some(facts) ==> forall|i: int|
        facts.for_setup_toolchain && 0 <= i < facts.requires.len() && #[trigger] facts.requires[i] != spec.id
            && !cycle.contains(facts.requires[i]) ==> {
            &&& spec_for(scene, project, facts.requires[i]) is Some
            &&& toolchain_is_wanted(
                scene,
                project,
                spec_for(scene, project, facts.requires[i])->0,
                cycle.insert(spec.id),
            ) ==> waits_for_action(
                after,
                index,
                NodeView::SetupToolchain {
                    source,
                    spec: spec_for(scene, project, facts.requires[i])->0,
                },
            )
        }
}

/// The setups of required toolchains: one for each that is wanted.
pub open spec fn required_are_given(
    scene: SceneView,
    after: StateView,
    project: Option<ProjectKeyView>,
    id: Seq<char>,
    requires_ids: Seq<Seq<char>>,
    cycle: Set<Seq<char>>,
    edges: Seq<Option<usize>>,
) -> bool {
    &&& edges.len() == 0 <==> forall|i: int|
        0 <= i < requires_ids.len() ==> #[trigger] requires_ids[i] == id || cycle.contains(
            requires_ids[i],
        )
    &&& forall|k: int|
        0 <= k < edges.len() && (#[trigger] edges[k]) is Some ==> edges[k]->0 < after.nodes.len()
    &&& forall|i: int|
        0 <= i < requires_ids.len() && #[trigger] requires_ids[i] != id && !cycle.contains(
            requires_ids[i],
        ) ==> {
            &&& spec_for(scene, project, requires_ids[i]) is Some
            &&& toolchain_is_wanted(
                scene,
                project,
                spec_for(scene, project, requires_ids[i])->0,
                cycle,
            ) ==> exists|k: int|
                0 <= k < edges.len() && (#[trigger] edges[k]) is Some
                    && after.nodes[edges[k]->0 as int] == (NodeView::SetupToolchain {
                    source: owner_source(scene, project),
                    spec: spec_for(scene, project, requires_ids[i])->0,
                })
        }
}

/// A toolchain is set up exactly where it is wanted, and its setup waits for what it needs.
pub proof fn toolchains_wait_for_what_they_need(
    scene: SceneView,
    state: StateView,
    project: Option<ProjectKeyView>,
    spec: SpecView,
    cycle: Set<Seq<char>>,
)
    requires
        state.nodes.len() <= u32::MAX,
        setup_toolchain_step(scene, state, project, spec, cycle).1 is Ok,
    ensures
        ({
            let (after, index) = setup_toolchain_step(scene, state, project, spec, cycle);
            let source = owner_source(scene, project);
            &&& grew(state, after)
            &&& only_setups(state, after)
            &&& after.nodes.len() <= u32::MAX
            &&& index->Ok_0 is Some <==> toolchain_is_wanted(scene, project, spec, cycle)
            &&& index->Ok_0 matches Some(index) ==> {
                &&& index < after.nodes.len()
                &&& after.nodes[index as int] == (NodeView::SetupToolchain { source, spec })
                &&& toolchain_waits(scene, after, project, spec, cycle, index)
            }
        }),
    decreases open_count(scene.facts, cycle), 0nat, 0nat,
{
    let source = owner_source(scene, project);
    switches_agree(scene.options.setup_toolchains, spec.id);
    setup_toolchain_prepares(scene, state, project, spec, cycle);
    if is_on(scene.options.setup_toolchains, spec.id) && spec.id != "system"@ && !cycle.contains(
        spec.id,
    ) {
        let context = runtime_of(scene.runtimes.entries, source)->Ok_0;
        let facts = facts_of(scene.facts, source, project, spec.id)->0;
        open_count_drops(scene.facts, source, project, cycle, spec.id);
        let inner = cycle.insert(spec.id);
        let (before, edges) = if facts.for_setup_toolchain {
            required_toolchains(scene, state, project, spec.id, facts.requires, inner)
        } else {
            (state, Ok(Seq::empty()))
        };
        if facts.for_setup_toolchain {
            required_are_set_up(scene, state, project, spec.id, facts.requires, inner);
        }
        let edges = edges->Ok_0;
        if facts.for_setup_toolchain {
            if requires_another(facts.requires, spec.id, cycle) {
                let i = choose|i: int|
                    0 <= i < facts.requires.len() && #[trigger] facts.requires[i] != spec.id
                        && !cycle.contains(facts.requires[i]);
                assert(!inner.contains(facts.requires[i]));
            } else {
                assert forall|i: int| 0 <= i < facts.requires.len() implies (
                #[trigger] facts.requires[i] == spec.id || inner.contains(facts.requires[i])) by {}
            }
        }
        if facts.tier_3 || edges.len() > 0 {
            toolchain_node_waits(scene, before, source, context, spec, edges);
            let (after, index) = toolchain_node_step(scene, before, source, context, spec, edges);
            if facts.for_setup_toolchain {
                let index = index->Ok_0->0;
                assert forall|i: int|
                    0 <= i < facts.requires.len() && #[trigger] facts.requires[i] != spec.id
                        && !cycle.contains(facts.requires[i]) implies {
                    &&& spec_for(scene, project, facts.requires[i]) is Some
                    &&& toolchain_is_wanted(
                        scene,
                        project,
                        spec_for(scene, project, facts.requires[i])->0,
                        cycle.insert(spec.id),
                    ) ==> waits_for_action(
                        after,
                        index,
                        NodeView::SetupToolchain {
                            source,
                            spec: spec_for(scene, project, facts.requires[i])->0,
                        },
                    )
                } by {
                    assert(!inner.contains(facts.requires[i]));
                    let needed = spec_for(scene, project, facts.requires[i])->0;
                    if toolchain_is_wanted(scene, project, needed, inner) {
                        let k = choose|k: int|
                            0 <= k < edges.len() && (#[trigger] edges[k]) is Some
                                && before.nodes[edges[k]->0 as int] == (NodeView::SetupToolchain {
                                source,
                                spec: needed,
                            });
                        assert(edges[k] is Some);
                    }
                }
            }
        }
    }
}

proof fn required_are_set_up(
    scene: SceneView,
    state: StateView,
    project: Option<ProjectKeyView>,
    id: Seq<char>,
    requires_ids: Seq<Seq<char>>,
    cycle: Set<Seq<char>>,
)
    requires
        state.nodes.len() <= u32::MAX,
        required_toolchains(scene, state, project, id, requires_ids, cycle).1 is Ok,
    ensures
        ({
            let (after, edges) = required_toolchains(
                scene,
                state,
                project,
                id,
                requires_ids,
                cycle,
            );
            &&& grew(state, after)
            &&& only_setups(state, after)
            &&& after.nodes.len() <= u32::MAX
            &&& required_are_given(
                scene,
                after,
                project,
                id,
                requires_ids,
                cycle,
                edges->Ok_0,
            )
        }),
    decreases open_count(scene.facts, cycle), 1nat, requires_ids.len(),
{
    required_toolchains_prepare(scene, state, project, id, requires_ids, cycle);
    if requires_ids.len() > 0 {
        let rest = requires_ids.drop_last();
        let dep = requires_ids.last();
        let last = requires_ids.len() - 1;
        assert(requires_ids[last] == dep);
        required_toolchains_prepare(scene, state, project, id, rest, cycle);
        required_are_set_up(scene, state, project, id, rest, cycle);
        let (before, given) = required_toolchains(scene, state, project, id, rest, cycle);
        let given = given->Ok_0;
        let (after, edges) = required_toolchains(scene, state, project, id, requires_ids, cycle);
        let edges = edges->Ok_0;
        assert forall|i: int| 0 <= i < rest.len() implies #[trigger] rest[i]
            == requires_ids[i] by {}
        if dep != id && !cycle.contains(dep) {
            let spec = spec_for(scene, project, dep)->0;
            toolchains_wait_for_what_they_need(scene, before, project, spec, cycle);
            setup_toolchain_prepares(scene, before, project, spec, cycle);
            let found = setup_toolchain_step(scene, before, project, spec, cycle).1->Ok_0;
            assert(edges == given.push(found));
            assert(requires_ids[last] != id);
            next_is_given(scene, before, after, project, id, requires_ids, cycle, given, found);
        } else {
            assert forall|i: int|
                0 <= i < requires_ids.len() && #[trigger] requires_ids[i] != id && !cycle.contains(
                    requires_ids[i],
                ) implies rest[i] != id && i < rest.len() by {}
            assert((forall|i: int|
                0 <= i < requires_ids.len() ==> #[trigger] requires_ids[i] == id || cycle.contains(
                    requires_ids[i],
                )) <==> (forall|i: int|
                0 <= i < rest.len() ==> #[trigger] rest[i] == id || cycle.contains(rest[i]))) by {
                if forall|i: int|
                    0 <= i < rest.len() ==> #[trigger] rest[i] == id || cycle.contains(rest[i]) {
                    assert forall|i: int| 0 <= i < requires_ids.len() implies (
                    #[trigger] requires_ids[i] == id || cycle.contains(requires_ids[i])) by {
                        if i < last {
                            assert(rest[i] == requires_ids[i]);
                        }
                    }
                }
                if forall|i: int|
                    0 <= i < requires_ids.len() ==> #[trigger] requires_ids[i] == id
                        || cycle.contains(requires_ids[i]) {
                    assert forall|i: int| 0 <= i < rest.len() implies (#[trigger] rest[i] == id
                        || cycle.contains(rest[i])) by {
                        assert(requires_ids[i] == rest[i]);
                    }
                }
            }
            assert forall|i: int|
                0 <= i < requires_ids.len() && #[trigger] requires_ids[i] != id && !cycle.contains(
                    requires_ids[i],
                ) implies {
                &&& spec_for(scene, project, requires_ids[i]) is Some
                &&& toolchain_is_wanted(
                    scene,
                    project,
                    spec_for(scene, project, requires_ids[i])->0,
                    cycle,
                ) ==> exists|k: int|
                    0 <= k < edges.len() && (#[trigger] edges[k]) is Some
                        && after.nodes[edges[k]->0 as int] == (NodeView::SetupToolchain {
                        source: owner_source(scene, project),
                        spec: spec_for(scene, project, requires_ids[i])->0,
                    })
            } by {
                assert(rest[i] == requires_ids[i]);
            }
        }
    }
}

proof fn next_is_given(
    scene: SceneView,
    before: StateView,
    after: StateView,
    project: Option<ProjectKeyView>,
    id: Seq<char>,
    requires_ids: Seq<Seq<char>>,
    cycle: Set<Seq<char>>,
    given: Seq<Option<usize>>,
    found: Option<usize>,
)
    requires
        requires_ids.len() > 0,
        grew(before, after),
        required_are_given(
            scene,
            before,
            project,
            id,
            requires_ids.drop_last(),
            cycle,
            given,
        ),
        requires_ids.last() != id,
        !cycle.contains(requires_ids.last()),
        spec_for(scene, project, requires_ids.last()) is Some,
        ({
            let spec = spec_for(scene, project, requires_ids.last())->0;
            &&& toolchain_is_wanted(scene, project, spec, cycle) ==> found is Some
            &&& found matches Some(index) ==> index < after.nodes.len() && after.nodes[index as int]
                == (NodeView::SetupToolchain { source: owner_source(scene, project), spec })
        }),
    ensures
        required_are_given(
            scene,
            after,
            project,
            id,
            requires_ids,
            cycle,
            given.push(found),
        ),
{
    let rest = requires_ids.drop_last();
    let edges = given.push(found);
    let last = requires_ids.len() - 1;
    assert(requires_ids[last] != id && !cycle.contains(requires_ids[last]));
    assert forall|k: int| 0 <= k < edges.len() && (#[trigger] edges[k]) is Some implies edges[k]->0
        < after.nodes.len() by {
        if k < given.len() {
            assert(given[k] == edges[k]);
        }
    }
    assert forall|i: int|
        0 <= i < requires_ids.len() && #[trigger] requires_ids[i] != id && !cycle.contains(
            requires_ids[i],
        ) implies {
        &&& spec_for(scene, project, requires_ids[i]) is Some
        &&& toolchain_is_wanted(
            scene,
            project,
            spec_for(scene, project, requires_ids[i])->0,
            cycle,
        ) ==> exists|k: int|
            0 <= k < edges.len() && (#[trigger] edges[k]) is Some && after.nodes[edges[k]->0 as int]
                == (NodeView::SetupToolchain {
                source: owner_source(scene, project),
                spec: spec_for(scene, project, requires_ids[i])->0,
            })
    } by {
        if i < last {
            assert(rest[i] == requires_ids[i]);
            let spec = spec_for(scene, project, rest[i])->0;
            if toolchain_is_wanted(scene, project, spec, cycle) {
                let k = choose|k: int|
                    0 <= k < given.len() && (#[trigger] given[k]) is Some
                        && before.nodes[given[k]->0 as int] == (NodeView::SetupToolchain {
                        source: owner_source(scene, project),
                        spec,
                    });
                assert(edges[k] == given[k]);
                assert(after.nodes[given[k]->0 as int] == before.nodes[given[k]->0 as int]);
            }
        } else {
            assert(edges[given.len() as int] == found);
        }
    }
}

proof fn toolchain_node_waits(
    scene: SceneView,
    state: StateView,
    source: Seq<char>,
    context: SourceContextView,
    spec: SpecView,
    edges: Seq<Option<usize>>,
)
    requires
        state.nodes.len() <= u32::MAX,
        toolchain_node_step(scene, state, source, context, spec, edges).1 is Ok,
        forall|i: int|
            0 <= i < edges.len() && (#[trigger] edges[i]) is Some ==> edges[i]->0
                < state.nodes.len(),
    ensures
        ({
            let (after, index) = toolchain_node_step(scene, state, source, context, spec, edges);
            &&& grew(state, after)
            &&& only_setups(state, after)
            &&& after.nodes.len() <= u32::MAX
            &&& index->Ok_0 is Some
            &&& index->Ok_0->0 < after.nodes.len()
            &&& after.nodes[index->Ok_0->0 as int] == (NodeView::SetupToolchain { source, spec })
            &&& forall|i: int|
                0 <= i < edges.len() && (#[trigger] edges[i]) is Some ==> waits_for_action(
                    after,
                    index->Ok_0->0,
                    state.nodes[edges[i]->0 as int],
                )
            &&& scene.options.sync_workspace ==> waits_for_action(
                after,
                index->Ok_0->0,
                NodeView::SyncWorkspace { source },
            )
            &&& spec.req is Some || (scene.configs.dom().contains(source)
                && scene.configs[source].requires_proto) ==> waits_for_action(
                after,
                index->Ok_0->0,
                NodeView::SetupProto {
                    source,
                    version: if scene.configs.dom().contains(source) {
                        scene.configs[source].proto_version
                    } else {
                        Seq::empty()
                    },
                },
            )
        }),
{
    let (synced, workspace) = sync_workspace_step(scene, state, source);
    workspaces_are_synchronised_where_wanted(scene, state, source);
    let workspace = workspace->Ok_0;
    let needs_proto = spec.req is Some || (scene.configs.dom().contains(source)
        && scene.configs[source].requires_proto);
    let (prepared, proto) = if needs_proto {
        setup_proto_step(scene, synced, source)
    } else {
        (synced, Ok(None))
    };
    if needs_proto {
        proto_is_set_up(scene, synced, source);
    }
    let proto = proto->Ok_0;
    let node = NodeView::SetupToolchain { source, spec };
    let all = edges.push(workspace).push(proto);
    assert forall|i: int| 0 <= i < all.len() && (#[trigger] all[i]) is Some implies all[i]->0
        < prepared.nodes.len() by {
        if i < edges.len() {
            assert(all[i] == edges[i]);
        }
    }
    setups_wait(prepared, node, context, all);
    let (after, index) = linked_setup(prepared, node, context, all);
    let index = index->Ok_0->0;
    assert forall|i: int|
        0 <= i < edges.len() && (#[trigger] edges[i]) is Some implies waits_for_action(
        after,
        index,
        state.nodes[edges[i]->0 as int],
    ) by {
        assert(all[i] == edges[i]);
        let to = edges[i]->0;
        assert(prepared.nodes[to as int] == synced.nodes[to as int]);
        assert(synced.nodes[to as int] == state.nodes[to as int]);
    }
    assert(all[edges.len() as int] == workspace);
    assert(all[edges.len() as int + 1] == proto);
    if scene.options.sync_workspace {
        assert(prepared.nodes[workspace->0 as int] == synced.nodes[workspace->0 as int]);
    }
}

/// An action that is linked to the first of others that is there waits for it.
proof fn first_is_awaited(state: StateView, index: usize, edges: Seq<Option<usize>>, k: int)
    requires
        link_first(state, index, edges).1 is Ok,
        0 <= k < edges.len(),
        edges[k] is Some,
        edges[k]->0 < state.nodes.len(),
        forall|i: int| 0 <= i < k ==> (#[trigger] edges[i]) is None,
    ensures
        ({
            let after = link_first(state, index, edges).0;
            &&& grew(state, after)
            &&& after.nodes == state.nodes
            &&& waits_for_action(after, index, state.nodes[edges[k]->0 as int])
        }),
{
    first_is(edges, k);
    let to = edges[k]->0;
    let after = link_first(state, index, edges).0;
    if !has_edge(state.graph.edges, index, to) {
        let n = state.graph.edges.len() as int;
        assert(after.graph.edges[n] == (index, to, 1u8));
    }
    assert(has_edge(after.graph.edges, index, to));
}

proof fn first_is(edges: Seq<Option<usize>>, k: int)
    requires
        0 <= k < edges.len(),
        edges[k] is Some,
        forall|i: int| 0 <= i < k ==> (#[trigger] edges[i]) is None,
    ensures
        first_some(edges) == edges[k],
    decreases edges.len(),
{
    if k < edges.len() - 1 {
        first_is(edges.drop_last(), k);
    } else {
        none_is(edges.drop_last());
    }
}

pub proof fn none_is(edges: Seq<Option<usize>>)
    requires
        forall|i: int| 0 <= i < edges.len() ==> (#[trigger] edges[i]) is None,
    ensures
        first_some(edges) is None,
    decreases edges.len(),
{
    if edges.len() > 0 {
        none_is(edges.drop_last());
        assert(edges[edges.len() - 1] is None);
    }
}

/// What the setup of an environment that is added waits for: the workspace, its toolchain, and
/// the toolchains that it requires.
pub open spec fn environment_waits(
    scene: SceneView,
    after: StateView,
    project: Option<ProjectKeyView>,
    spec: SpecView,
    index: usize,
) -> bool {
    let source = owner_source(scene, project);
    &&& scene.options.sync_workspace ==> waits_for_action(
        after,
        index,
        NodeView::SyncWorkspace { source },
    )
    &&& toolchain_is_wanted(scene, project, spec, Set::empty()) ==> waits_for_action(
        after,
        index,
        NodeView::SetupToolchain { source, spec },
    )
    &&& facts_of(scene.facts, source, project, spec.id) matches Some(facts) ==> forall|i: int|
        facts.for_setup_environment && 0 <= i < facts.requires.len()
            && #[trigger] facts.requires[i] != spec.id ==> {
            &&& spec_for(scene, project, facts.requires[i]) is Some
            &&& toolchain_is_wanted(
                scene,
                project,
                spec_for(scene, project, facts.requires[i])->0,
                Set::empty(),
            ) ==> waits_for_action(
                after,
                index,
                NodeView::SetupToolchain {
                    source,
                    spec: spec_for(scene, project, facts.requires[i])->0,
                },
            )
        }
}

proof fn environment_toolchains_are_set_up(
    scene: SceneView,
    state: StateView,
    project: Option<ProjectKeyView>,
    id: Seq<char>,
    requires_ids: Seq<Seq<char>>,
)
    requires
        state.nodes.len() <= u32::MAX,
        environment_toolchains(scene, state, project, id, requires_ids).1 is Ok,
    ensures
        ({
            let (after, edges) = environment_toolchains(scene, state, project, id, requires_ids);
            &&& grew(state, after)
            &&& only_setups(state, after)
            &&& after.nodes.len() <= u32::MAX
            &&& required_are_given(
                scene,
                after,
                project,
                id,
                requires_ids,
                Set::empty(),
                edges->Ok_0,
            )
        }),
    decreases requires_ids.len(),
{
    environment_toolchains_prepare(scene, state, project, id, requires_ids);
    if requires_ids.len() > 0 {
        let none = Set::<Seq<char>>::empty();
        let rest = requires_ids.drop_last();
        let dep = requires_ids.last();
        let last = requires_ids.len() - 1;
        assert(requires_ids[last] == dep);
        environment_toolchains_are_set_up(scene, state, project, id, rest);
        let (before, given) = environment_toolchains(scene, state, project, id, rest);
        let given = given->Ok_0;
        let (after, edges) = environment_toolchains(scene, state, project, id, requires_ids);
        let edges = edges->Ok_0;
        if dep != id {
            let spec = spec_for(scene, project, dep)->0;
            toolchains_wait_for_what_they_need(scene, before, project, spec, none);
            let found = setup_toolchain_step(scene, before, project, spec, none).1->Ok_0;
            assert(edges == given.push(found));
            next_is_given(scene, before, after, project, id, requires_ids, none, given, found);
            setups_add_up(state, before, after);
        } else {
            own_adds_nothing(scene, before, project, id, requires_ids, none, given);
        }
    }
}

/// A toolchain that requires itself requires nothing by that.
proof fn own_adds_nothing(
    scene: SceneView,
    state: StateView,
    project: Option<ProjectKeyView>,
    id: Seq<char>,
    requires_ids: Seq<Seq<char>>,
    cycle: Set<Seq<char>>,
    given: Seq<Option<usize>>,
)
    requires
        requires_ids.len() > 0,
        requires_ids.last() == id,
        required_are_given(
            scene,
            state,
            project,
            id,
            requires_ids.drop_last(),
            cycle,
            given,
        ),
    ensures
        required_are_given(scene, state, project, id, requires_ids, cycle, given),
{
    let rest = requires_ids.drop_last();
    assert forall|i: int| 0 <= i < rest.len() implies #[trigger] rest[i] == requires_ids[i] by {}
    if given.len() == 0 {
        assert forall|i: int| 0 <= i < requires_ids.len() implies (
        #[trigger] requires_ids[i] == id || cycle.contains(requires_ids[i])) by {
            if i < rest.len() {
                assert(rest[i] == requires_ids[i]);
            }
        }
    } else {
        let i = choose|i: int|
            0 <= i < rest.len() && #[trigger] rest[i] != id && !cycle.contains(rest[i]);
        assert(requires_ids[i] != id);
    }
    assert forall|i: int|
        0 <= i < requires_ids.len() && #[trigger] requires_ids[i] != id && !cycle.contains(
            requires_ids[i],
        ) implies {
        &&& spec_for(scene, project, requires_ids[i]) is Some
        &&& toolchain_is_wanted(
            scene,
            project,
            spec_for(scene, project, requires_ids[i])->0,
            cycle,
        ) ==> exists|k: int|
            0 <= k < given.len() && (#[trigger] given[k]) is Some && state.nodes[given[k]->0 as int]
                == (NodeView::SetupToolchain {
                source: owner_source(scene, project),
                spec: spec_for(scene, project, requires_ids[i])->0,
            })
    } by {
        assert(rest[i] == requires_ids[i]);
    }
}

/// An environment is set up exactly where it is wanted. One that is added waits for what it
/// needs.
pub proof fn environments_wait_for_what_they_need(
    scene: SceneView,
    state: StateView,
    project: Option<ProjectKeyView>,
    spec: SpecView,
    root: Seq<char>,
)
    requires
        state.nodes.len() <= u32::MAX,
        setup_environment_step(scene, state, project, spec, root).1 is Ok,
    ensures
        ({
            let (after, index) = setup_environment_step(scene, state, project, spec, root);
            let node = NodeView::SetupEnvironment {
                project,
                root,
                source: owner_source(scene, project),
                toolchain: spec.id,
            };
            &&& grew(state, after)
            &&& after.nodes.len() <= u32::MAX
            &&& index->Ok_0 is Some <==> environment_is_wanted(scene, project, spec)
            &&& index->Ok_0 is None ==> only_setups(state, after)
            &&& index->Ok_0 matches Some(index) ==> {
                &&& index < after.nodes.len()
                &&& after.nodes[index as int] == node
                &&& !state.nodes.contains(node) ==> environment_waits(
                    scene,
                    after,
                    project,
                    spec,
                    index,
                )
            }
        }),
{
    let source = owner_source(scene, project);
    switches_agree(scene.options.setup_environment, spec.id);
    setup_environment_prepares(scene, state, project, spec, root);
    if is_on(scene.options.setup_environment, spec.id) && spec.id != "system"@ {
        let facts = facts_of(scene.facts, source, project, spec.id)->0;
        let none = Set::<Seq<char>>::empty();
        let (before, edges) = if facts.for_setup_environment {
            environment_toolchains(scene, state, project, spec.id, facts.requires)
        } else {
            (state, Ok(Seq::empty()))
        };
        if facts.for_setup_environment {
            environment_toolchains_are_set_up(scene, state, project, spec.id, facts.requires);
        }
        let edges = edges->Ok_0;
        if facts.for_setup_environment {
            if requires_another(facts.requires, spec.id, none) {
                let i = choose|i: int|
                    0 <= i < facts.requires.len() && #[trigger] facts.requires[i] != spec.id
                        && !none.contains(facts.requires[i]);
                assert(facts.requires[i] != spec.id);
            } else {
                assert forall|i: int| 0 <= i < facts.requires.len() implies (
                #[trigger] facts.requires[i] == spec.id || none.contains(facts.requires[i])) by {}
            }
        }
        if facts.has_setup_environment || edges.len() > 0 {
            let (synced, workspace) = sync_workspace_step(scene, before, source);
            workspaces_are_synchronised_where_wanted(scene, before, source);
            let workspace = workspace->Ok_0;
            let (prepared, toolchain) = setup_toolchain_step(scene, synced, project, spec, none);
            toolchains_wait_for_what_they_need(scene, synced, project, spec, none);
            let toolchain = toolchain->Ok_0;
            setups_add_up(state, before, synced);
            setups_add_up(state, synced, prepared);
            let node = NodeView::SetupEnvironment { project, root, source, toolchain: spec.id };
            place_is_first(prepared.nodes, node);
            if place_of_node(prepared.nodes, node) is Some {
                let i = place_of_node(prepared.nodes, node)->0;
                assert(prepared.nodes[i as int] == node);
                assert(i < state.nodes.len());
                assert(state.nodes[i as int] == node);
            } else {
                let (added, index) = with_node(prepared, node);
                let index = index->Ok_0->0;
                let all = edges.push(workspace).push(toolchain);
                let (after, done) = link_all(added, index, required(all));
                link_all_waits(added, index, required(all));
                linking_adds_no_action(added, index, required(all));
                assert(added.nodes[index as int] == node);
                assert forall|i: int|
                    0 <= i < all.len() && (#[trigger] all[i]) is Some && all[i]->0
                        < prepared.nodes.len() implies waits_for_action(
                    after,
                    index,
                    prepared.nodes[all[i]->0 as int],
                ) by {
                    assert(required(all)[i].0 is Some);
                    assert(has_edge(after.graph.edges, index, all[i]->0));
                    assert(added.nodes[all[i]->0 as int] == prepared.nodes[all[i]->0 as int]);
                }
                let n = edges.len() as int;
                assert(all[n] == workspace);
                assert(all[n + 1] == toolchain);
                if scene.options.sync_workspace {
                    let w = workspace->0 as int;
                    assert(prepared.nodes[w] == synced.nodes[w]);
                    assert(waits_for_action(after, index, prepared.nodes[all[n]->0 as int]));
                }
                if toolchain is Some {
                    assert(waits_for_action(after, index, prepared.nodes[all[n + 1]->0 as int]));
                }
                if facts.for_setup_environment {
                    assert forall|i: int|
                        facts.for_setup_environment && 0 <= i < facts.requires.len()
                            && #[trigger] facts.requires[i] != spec.id implies {
                        &&& spec_for(scene, project, facts.requires[i]) is Some
                        &&& toolchain_is_wanted(
                            scene,
                            project,
                            spec_for(scene, project, facts.requires[i])->0,
                            Set::empty(),
                        ) ==> waits_for_action(
                            after,
                            index,
                            NodeView::SetupToolchain {
                                source,
                                spec: spec_for(scene, project, facts.requires[i])->0,
                            },
                        )
                    } by {
                        assert(!none.contains(facts.requires[i]));
                        let needed = spec_for(scene, project, facts.requires[i])->0;
                        if toolchain_is_wanted(scene, project, needed, none) {
                            let k = choose|k: int|
                                0 <= k < edges.len() && (#[trigger] edges[k]) is Some
                                    && before.nodes[edges[k]->0 as int]
                                    == (NodeView::SetupToolchain { source, spec: needed });
                            assert(all[k] == edges[k]);
                            let to = edges[k]->0 as int;
                            assert(synced.nodes[to] == before.nodes[to]);
                            assert(prepared.nodes[to] == synced.nodes[to]);
                            assert(waits_for_action(
                                after,
                                index,
                                prepared.nodes[all[k]->0 as int],
                            ));
                        }
                    }
                }
            }
        }
    }
}

/// The installation of dependencies is part of the run for a toolchain.
pub open spec fn installation_is_on(scene: SceneView, source: Seq<char>, spec: SpecView) -> bool {
    &&& spec.id != "system"@
    &&& is_on(scene.options.install_dependencies, spec.id)
    &&& !(scene.configs.dom().contains(source) && scene.configs[source].plugins.dom().contains(
        spec.id,
    ) && !scene.configs[source].plugins[spec.id].install_dependencies)
}

/// Whom the installation in a root belongs to: the project where it is the only package, and
/// the workspace otherwise.
pub open spec fn root_owner(
    project: Option<ProjectKeyView>,
    role: DependenciesWorkspaceRole,
) -> Option<ProjectKeyView> {
    match role {
        DependenciesWorkspaceRole::PackageRoot => project,
        _ => None,
    }
}

/// The action that stands for the dependencies of a project: their installation; where the
/// toolchain installs nothing the setup of its environment; and else that of the toolchain.
pub open spec fn installation_of(
    scene: SceneView,
    project: Option<ProjectKeyView>,
    spec: SpecView,
) -> Option<NodeView> {
    let source = owner_source(scene, project);
    let toolchain = if toolchain_is_wanted(scene, project, spec, Set::empty()) {
        Some(NodeView::SetupToolchain { source, spec })
    } else {
        None
    };
    match facts_of(scene.facts, source, project, spec.id) {
        None => None,
        Some(facts) => if !installation_is_on(scene, source, spec) {
            None
        } else {
            match facts.root {
                Some(RootView { role: Some(role), root, members, .. }) => if !facts.tier_2 {
                    toolchain
                } else {
                    let owner = root_owner(project, role);
                    if facts.has_install_dependencies {
                        Some(
                            NodeView::InstallDependencies {
                                members,
                                project: owner,
                                root,
                                source,
                                toolchain: spec.id,
                            },
                        )
                    } else if environment_is_wanted(scene, owner, spec) {
                        Some(
                            NodeView::SetupEnvironment {
                                project: owner,
                                root,
                                source: owner_source(scene, owner),
                                toolchain: spec.id,
                            },
                        )
                    } else {
                        toolchain
                    }
                },
                _ => toolchain,
            }
        },
    }
}

/// The installation of dependencies waits for the setup of its environment where there is one,
/// and else for the setup of its toolchain where there is one, and only else for the
/// workspace. So the toolchain is there before anything is installed with it.
pub proof fn installations_wait_for_their_setup(
    scene: SceneView,
    state: StateView,
    project: Option<ProjectKeyView>,
    spec: SpecView,
)
    requires
        state.nodes.len() <= u32::MAX,
        install_step(scene, state, project, spec).1 is Ok,
    ensures
        ({
            let (after, index) = install_step(scene, state, project, spec);
            let source = owner_source(scene, project);
            &&& grew(state, after)
            &&& after.nodes.len() <= u32::MAX
            &&& index->Ok_0 is Some <==> installation_of(scene, project, spec) is Some
            &&& index->Ok_0 matches Some(index) ==> {
                &&& index < after.nodes.len()
                &&& after.nodes[index as int] == installation_of(scene, project, spec)->0
                &&& after.nodes[index as int] matches NodeView::InstallDependencies {
                    project: owner,
                    root,
                    toolchain,
                    ..
                } ==> {
                    let environment = NodeView::SetupEnvironment {
                        project: owner,
                        root,
                        source: owner_source(scene, owner),
                        toolchain,
                    };
                    &&& environment_is_wanted(scene, owner, spec) ==> waits_for_action(
                        after,
                        index,
                        environment,
                    )
                    &&& after.nodes.contains(environment) && !state.nodes.contains(environment)
                        ==> waits_for_action(after, index, environment)
                    &&& !environment_is_wanted(scene, owner, spec) && toolchain_is_wanted(
                        scene,
                        project,
                        spec,
                        Set::empty(),
                    ) ==> waits_for_action(
                        after,
                        index,
                        NodeView::SetupToolchain { source, spec },
                    )
                    &&& !environment_is_wanted(scene, owner, spec) && !toolchain_is_wanted(
                        scene,
                        project,
                        spec,
                        Set::empty(),
                    ) && scene.options.sync_workspace ==> waits_for_action(
                        after,
                        index,
                        NodeView::SyncWorkspace { source },
                    )
                }
                &&& after.nodes[index as int] is SetupEnvironment ==> {
                    &&& toolchain_is_wanted(
                        scene,
                        project,
                        spec,
                        Set::empty(),
                    ) ==> waits_for_action(
                        after,
                        index,
                        NodeView::SetupToolchain { source, spec },
                    )
                    &&& !toolchain_is_wanted(
                        scene,
                        project,
                        spec,
                        Set::empty(),
                    ) && scene.options.sync_workspace ==> waits_for_action(
                        after,
                        index,
                        NodeView::SyncWorkspace { source },
                    )
                }
            }
        }),
{
    let source = owner_source(scene, project);
    let none = Set::<Seq<char>>::empty();
    switches_agree(scene.options.install_dependencies, spec.id);
    install_prepares(scene, state, project, spec);
    if installation_is_on(scene, source, spec) {
        let (synced, workspace) = sync_workspace_step(scene, state, source);
        workspaces_are_synchronised_where_wanted(scene, state, source);
        let workspace = workspace->Ok_0;
        let (before, toolchain) = setup_toolchain_step(scene, synced, project, spec, none);
        toolchains_wait_for_what_they_need(scene, synced, project, spec, none);
        let toolchain = toolchain->Ok_0;
        setups_add_up(state, synced, before);
        let facts = facts_of(scene.facts, source, project, spec.id)->0;
        if facts.tier_2 && facts.root is Some && facts.root->0.role is Some {
            let root = facts.root->0;
            let owner = root_owner(project, root.role->0);
            let (prepared, environment) = setup_environment_step(
                scene,
                before,
                owner,
                spec,
                root.root,
            );
            environments_wait_for_what_they_need(scene, before, owner, spec, root.root);
            let environment = environment->Ok_0;
            if scene.options.sync_workspace {
                let w = workspace->0 as int;
                assert(before.nodes[w] == synced.nodes[w]);
                assert(prepared.nodes[w] == before.nodes[w]);
            }
            if toolchain is Some {
                let t = toolchain->0 as int;
                assert(prepared.nodes[t] == before.nodes[t]);
            }
            if facts.has_install_dependencies {
                let node = NodeView::InstallDependencies {
                    members: root.members,
                    project: owner,
                    root: root.root,
                    source,
                    toolchain: spec.id,
                };
                place_is_first(prepared.nodes, node);
                let (added, index) = with_node_if_missing(prepared, node);
                let index = index->Ok_0->0;
                assert(added.nodes[index as int] == node);
                assert forall|i: int| 0 <= i < prepared.nodes.len() implies #[trigger] added.nodes[i]
                    == prepared.nodes[i] by {}
                let edges = seq![environment, toolchain, workspace];
                let after = link_first(added, index, edges).0;
                assert(after.nodes == added.nodes);
                if environment is Some {
                    first_is_awaited(added, index, edges, 0);
                } else if toolchain is Some {
                    first_is_awaited(added, index, edges, 1);
                } else if workspace is Some {
                    first_is_awaited(added, index, edges, 2);
                }
                let wanted = NodeView::SetupEnvironment {
                    project: owner,
                    root: root.root,
                    source: owner_source(scene, owner),
                    toolchain: spec.id,
                };
                if environment is None && after.nodes.contains(wanted) {
                    setups_add_up(state, before, prepared);
                    let i = choose|i: int| 0 <= i < after.nodes.len() && after.nodes[i] == wanted;
                    assert(i < prepared.nodes.len());
                    assert(prepared.nodes[i] == wanted);
                    assert(i < state.nodes.len());
                    assert(state.nodes[i] == wanted);
                }
            } else if environment is Some {
                let edges = seq![toolchain, workspace];
                if toolchain is Some {
                    first_is_awaited(prepared, environment->0, edges, 0);
                } else if workspace is Some {
                    first_is_awaited(prepared, environment->0, edges, 1);
                }
            }
        }
    }
}

} // verus!
