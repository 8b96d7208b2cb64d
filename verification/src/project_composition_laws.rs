//! What the projects of a composed graph depend on.

use crate::composition_laws::{
    assembled_is_numbered, assembled_is_sound, locals_sound, ordered_graphs_apart,
    ordered_graphs_sound, owns_projects, sources_apart,
};
use crate::config::{ConstraintsView, DependencyScope, DependencyView, RefusalView};
use crate::keys::{project_key_text, ProjectKey, ProjectKeyView};
use crate::order::{arranged_holds, ranked, ranked_same_items};
use crate::project_compose::{
    add_edges, add_projects, add_projects_grows, assemble, composable, composed, is_own_alias,
    key_edge, keys_in_order, last_wins, link_all, link_reaches, links_reach, local_edges,
    local_valid, locals_valid, ordered_links, ordered_links_known, own_aliases, project_keys_rank,
    resolve_all, resolve_all_known, resolve_cross, resolved_known, same_ends, without_ends,
    AssemblyView, CrossView, KeyEdge, KeyEdgeView, LinkView, ResolvedDependency, ResolvedView,
};
use crate::project_graph::{
    AliasView, ContextView, ProjectGraph, ProjectGraphFault, ProjectGraphView, ProjectNodeView,
};
use crate::source::RegistryView;
use vstd::prelude::*;

verus! {

/// A project belongs to one of several graphs.
pub open spec fn is_project(graphs: Seq<ProjectGraphView>, key: ProjectKeyView) -> bool {
    exists|local: ProjectGraphView| #[trigger]
        graphs.contains(local) && local.nodes.dom().contains(key)
}

/// A name stands for a project of a source root, in the graph of that source root.
pub open spec fn is_alias(
    graphs: Seq<ProjectGraphView>,
    source: Seq<char>,
    name: Seq<char>,
    target: ProjectKeyView,
) -> bool {
    let alias = AliasView { source, alias: name };
    exists|local: ProjectGraphView| #[trigger]
        graphs.contains(local) && local.context.registry.primary == source
            && local.aliases.dom().contains(alias) && local.aliases[alias] == target
            && target.source == source
}

/// The source root that a dependency names. Projects of the primary source root may use its
/// names for others, and `workspace` is the primary source root in every workspace.
pub open spec fn meant_source(
    registry: RegistryView,
    aliases: Map<Seq<char>, Seq<char>>,
    owner: ProjectKeyView,
    requested: Seq<char>,
) -> Seq<char> {
    let named = if owner.source == registry.primary && aliases.dom().contains(requested) {
        aliases[requested]
    } else {
        requested
    };
    if named == "workspace"@ {
        registry.primary
    } else {
        named
    }
}

/// A dependency on another source root leads to a project: the one with the identifier, and
/// where there is none, the one with the name.
pub open spec fn leads_across(
    registry: RegistryView,
    aliases: Map<Seq<char>, Seq<char>>,
    graphs: Seq<ProjectGraphView>,
    owner: ProjectKeyView,
    dependency: DependencyView,
    target: ProjectKeyView,
) -> bool {
    let source = meant_source(registry, aliases, owner, dependency.source_root->0);
    let key = ProjectKeyView { source, project: dependency.id };
    &&& dependency.source_root is Some
    &&& source != owner.source
    &&& if is_project(graphs, key) {
        target == key
    } else {
        is_alias(graphs, source, dependency.id, target)
    }
}

/// At one place a list has a dependency that leads to a project, and behind it none that does.
pub open spec fn is_last_across(
    registry: RegistryView,
    aliases: Map<Seq<char>, Seq<char>>,
    graphs: Seq<ProjectGraphView>,
    owner: ProjectKeyView,
    declared: Seq<DependencyView>,
    at: int,
    target: ProjectKeyView,
) -> bool {
    &&& 0 <= at < declared.len()
    &&& leads_across(registry, aliases, graphs, owner, declared[at], target)
    &&& forall|later: int|
        at < later < declared.len() ==> !leads_across(
            registry,
            aliases,
            graphs,
            owner,
            #[trigger] declared[later],
            target,
        )
}

/// A project depends on one of another source root as its declarations say: where several
/// lead to the same project, the last counts.
pub open spec fn depends_across(
    registry: RegistryView,
    aliases: Map<Seq<char>, Seq<char>>,
    graphs: Seq<ProjectGraphView>,
    owner: ProjectKeyView,
    target: ProjectKeyView,
    dependency: DependencyView,
) -> bool {
    exists|local: ProjectGraphView, at: int|
        graphs.contains(local) && local.nodes.dom().contains(owner) && #[trigger] is_last_across(
            registry,
            aliases,
            graphs,
            owner,
            local.nodes[owner].project.cross_source_dependencies,
            at,
            target,
        ) && local.nodes[owner].project.cross_source_dependencies[at] == dependency
}

/// A project depends on another in the graph of their source root.
pub open spec fn depends_within(
    graphs: Seq<ProjectGraphView>,
    owner: ProjectKeyView,
    target: ProjectKeyView,
    label: u8,
) -> bool {
    exists|local: ProjectGraphView, i: int|
        graphs.contains(local) && 0 <= i < local.graph.edges.len()
            && local.indexes[(#[trigger] local.graph.edges[i]).0 as int] == owner
            && local.indexes[local.graph.edges[i].1 as int] == target && local.graph.edges[i].2
            == label
}

/// The number that labels the edges of a scope.
pub open spec fn label_of(scope: DependencyScope) -> u8 {
    match scope {
        DependencyScope::Build => 0,
        DependencyScope::Development => 1,
        DependencyScope::Peer => 2,
        DependencyScope::Production => 3,
        DependencyScope::Root => 4,
    }
}

/// The constraints of a source root do not let a project depend on another.
pub open spec fn is_refused(
    constraints: ConstraintsView,
    owner: ProjectKeyView,
    target: ProjectKeyView,
    scope: DependencyScope,
) -> bool {
    let dependency = RefusalView { owner, target, scope };
    ||| constraints.enforce_layer_relationships && constraints.refused_layers.contains(dependency)
    ||| exists|i: int|
        0 <= i < constraints.tag_relationships.len() && (
        #[trigger] constraints.tag_relationships[i]).refused.contains(dependency)
}

/// The dependencies of one project on other source roots stand in a row among those of all.
pub open spec fn stand_in_a_row(
    cross: Seq<CrossView>,
    owner: ProjectKeyView,
    declared: Seq<DependencyView>,
    start: int,
) -> bool {
    &&& 0 <= start
    &&& start + declared.len() <= cross.len()
    &&& forall|k: int|
        0 <= k < declared.len() ==> #[trigger] cross[start + k] == (CrossView {
            owner,
            dependency: declared[k],
        })
    &&& forall|i: int|
        0 <= i < cross.len() && (#[trigger] cross[i]).owner == owner ==> start <= i < start
            + declared.len()
}

proof fn projects_bring_their_dependencies(
    assembly: AssemblyView,
    keys: Seq<ProjectKeyView>,
    nodes: Map<ProjectKeyView, ProjectNodeView>,
)
    requires
        keys.no_duplicates(),
        forall|i: int|
            0 <= i < keys.len() ==> !assembly.nodes.dom().contains(#[trigger] keys[i]),
        forall|i: int|
            0 <= i < assembly.cross.len() ==> assembly.nodes.dom().contains(
                (#[trigger] assembly.cross[i]).owner,
            ),
    ensures
        ({
            let more = add_projects(assembly, keys, nodes);
            &&& forall|i: int|
                0 <= i < more.cross.len() ==> more.nodes.dom().contains(
                    (#[trigger] more.cross[i]).owner,
                )
            &&& forall|i: int|
                0 <= i < keys.len() ==> exists|start: int| #[trigger]
                    stand_in_a_row(
                        more.cross,
                        #[trigger] keys[i],
                        nodes[keys[i]].project.cross_source_dependencies,
                        start,
                    )
            &&& forall|owner: ProjectKeyView, declared: Seq<DependencyView>, start: int|
                assembly.nodes.dom().contains(owner) && #[trigger] stand_in_a_row(
                    assembly.cross,
                    owner,
                    declared,
                    start,
                ) ==> stand_in_a_row(more.cross, owner, declared, start)
            &&& forall|i: int|
                0 <= i < keys.len() ==> more.nodes[#[trigger] keys[i]].project.dependencies
                    == nodes[keys[i]].project.dependencies
            &&& forall|key: ProjectKeyView| #[trigger]
                assembly.nodes.dom().contains(key) ==> more.nodes.dom().contains(key)
                    && more.nodes[key] == assembly.nodes[key]
        }),
    decreases keys.len(),
{
    if keys.len() > 0 {
        let rest = keys.drop_last();
        let key = keys.last();
        let last = keys.len() - 1;
        assert(keys[last] == key);
        assert forall|i: int| 0 <= i < rest.len() implies !assembly.nodes.dom().contains(
            #[trigger] rest[i],
        ) by {
            assert(rest[i] == keys[i]);
        }
        projects_bring_their_dependencies(assembly, rest, nodes);
        add_projects_grows(assembly, rest, nodes);
        let before = add_projects(assembly, rest, nodes);
        let more = add_projects(assembly, keys, nodes);
        let own = nodes[key].project.cross_source_dependencies;
        assert(!rest.contains(key));
        assert(!before.nodes.dom().contains(key));
        let start = before.cross.len() as int;
        assert forall|k: int| 0 <= k < own.len() implies #[trigger] more.cross[start + k] == (
        CrossView { owner: key, dependency: own[k] }) by {}
        assert forall|i: int| 0 <= i < start implies #[trigger] more.cross[i]
            == before.cross[i] by {}
        assert forall|i: int| start <= i < more.cross.len() implies (
        #[trigger] more.cross[i]).owner == key by {
            assert(more.cross[start + (i - start)].owner == key);
        }
        assert(stand_in_a_row(more.cross, key, own, start));
        assert forall|owner: ProjectKeyView, declared: Seq<DependencyView>, at: int|
            before.nodes.dom().contains(owner) && #[trigger] stand_in_a_row(
                before.cross,
                owner,
                declared,
                at,
            ) implies stand_in_a_row(more.cross, owner, declared, at) by {
            assert forall|k: int| 0 <= k < declared.len() implies #[trigger] more.cross[at + k]
                == (CrossView { owner, dependency: declared[k] }) by {
                assert(more.cross[at + k] == before.cross[at + k]);
            }
            assert forall|i: int|
                0 <= i < more.cross.len() && (#[trigger] more.cross[i]).owner == owner implies at
                <= i < at + declared.len() by {
                if i < start {
                    assert(before.cross[i].owner == owner);
                }
            }
        }
        assert forall|i: int| 0 <= i < keys.len() implies exists|at: int| #[trigger]
            stand_in_a_row(
                more.cross,
                #[trigger] keys[i],
                nodes[keys[i]].project.cross_source_dependencies,
                at,
            ) by {
            if i < last {
                assert(rest[i] == keys[i]);
                let at = choose|at: int| #[trigger]
                    stand_in_a_row(
                        before.cross,
                        rest[i],
                        nodes[rest[i]].project.cross_source_dependencies,
                        at,
                    );
                assert(rest.contains(rest[i]));
                assert(before.nodes.dom().contains(rest[i]));
                assert(stand_in_a_row(
                    more.cross,
                    rest[i],
                    nodes[rest[i]].project.cross_source_dependencies,
                    at,
                ));
            } else {
                assert(stand_in_a_row(more.cross, keys[i], own, start));
            }
        }
        assert forall|i: int| 0 <= i < keys.len() implies more.nodes[
            #[trigger] keys[i]].project.dependencies == nodes[keys[i]].project.dependencies by {
            if i < last {
                assert(rest[i] == keys[i]);
                assert(keys[i] != key);
            }
        }
    }
}

proof fn edges_are_put_in(
    before: Seq<KeyEdgeView>,
    indexes: Seq<ProjectKeyView>,
    edges: Seq<(usize, usize, u8)>,
    edge: KeyEdgeView,
)
    requires
        add_edges(before, indexes, edges) is Ok,
    ensures
        add_edges(before, indexes, edges)->Ok_0.contains(edge) <==> before.contains(edge) || exists|
            i: int,
        |
            0 <= i < edges.len() && indexes[(#[trigger] edges[i]).0 as int] == edge.source
                && indexes[edges[i].1 as int] == edge.target && edges[i].2 == edge.label,
    decreases edges.len(),
{
    if edges.len() > 0 {
        let rest = edges.drop_last();
        let last = edges.len() - 1;
        edges_are_put_in(before, indexes, rest, edge);
        let all = add_edges(before, indexes, rest)->Ok_0;
        vstd::seq_lib::lemma_seq_contains_after_push(all, key_edge(indexes, edges.last()), edge);
        let more = add_edges(before, indexes, edges)->Ok_0;
        assert(more == all.push(key_edge(indexes, edges.last())));
        if more.contains(edge) && !before.contains(edge) {
            if all.contains(edge) {
                let i = choose|i: int|
                    0 <= i < rest.len() && indexes[(#[trigger] rest[i]).0 as int] == edge.source
                        && indexes[rest[i].1 as int] == edge.target && rest[i].2 == edge.label;
                assert(edges[i] == rest[i]);
            } else {
                let i = choose|i: int| 0 <= i < more.len() && more[i] == edge;
                if i < all.len() {
                    assert(all[i] == edge);
                }
                assert(edges[last].2 == edge.label);
            }
        }
        if !before.contains(edge) && exists|i: int|
            0 <= i < edges.len() && indexes[(#[trigger] edges[i]).0 as int] == edge.source
                && indexes[edges[i].1 as int] == edge.target && edges[i].2 == edge.label {
            let i = choose|i: int|
                0 <= i < edges.len() && indexes[(#[trigger] edges[i]).0 as int] == edge.source
                    && indexes[edges[i].1 as int] == edge.target && edges[i].2 == edge.label;
            if i < last {
                assert(rest[i] == edges[i]);
                assert(all.contains(edge));
            } else {
                assert(more[all.len() as int] == edge);
            }
        }
        if all.contains(edge) {
            let i = choose|i: int| 0 <= i < all.len() && all[i] == edge;
            assert(more[i] == edge);
        }
    }
}

/// What is put together of several graphs.
pub open spec fn is_put_together(graphs: Seq<ProjectGraphView>, assembly: AssemblyView) -> bool {
    &&& forall|i: int|
        0 <= i < assembly.cross.len() ==> assembly.nodes.dom().contains(
            (#[trigger] assembly.cross[i]).owner,
        )
    &&& forall|local: ProjectGraphView, key: ProjectKeyView|
        #![trigger graphs.contains(local), local.nodes.dom().contains(key)]
        graphs.contains(local) && local.nodes.dom().contains(key) ==> {
            &&& assembly.nodes.dom().contains(key)
            &&& assembly.nodes[key].project.dependencies == local.nodes[key].project.dependencies
            &&& exists|start: int| #[trigger]
                stand_in_a_row(
                    assembly.cross,
                    key,
                    local.nodes[key].project.cross_source_dependencies,
                    start,
                )
        }
    &&& forall|key: ProjectKeyView| #[trigger]
        assembly.nodes.dom().contains(key) <==> is_project(graphs, key)
    &&& forall|alias: AliasView, target: ProjectKeyView| #[trigger]
        is_alias(graphs, alias.source, alias.alias, target) <==> assembly.aliases.dom().contains(
            alias,
        ) && assembly.aliases[alias] == target
    &&& forall|alias: AliasView| #[trigger]
        assembly.aliases.dom().contains(alias) ==> is_alias(
            graphs,
            alias.source,
            alias.alias,
            assembly.aliases[alias],
        )
    &&& forall|edge: KeyEdgeView| #[trigger]
        assembly.edges.contains(edge) <==> depends_within(
            graphs,
            edge.source,
            edge.target,
            edge.label,
        )
    &&& forall|local: ProjectGraphView| #[trigger]
        graphs.contains(local) ==> assembly.contexts.dom().contains(local.context.registry.primary)
            && assembly.contexts[local.context.registry.primary] == local.context
}

proof fn front_is_apart(graphs: Seq<ProjectGraphView>)
    requires
        locals_valid(graphs),
        sources_apart(graphs),
        graphs.len() > 0,
    ensures
        locals_valid(graphs.drop_last()),
        sources_apart(graphs.drop_last()),
        owns_projects(graphs.last()),
        local_valid(graphs.last()),
        forall|local: ProjectGraphView| #[trigger]
            graphs.drop_last().contains(local) ==> owns_projects(local)
                && local.context.registry.primary != graphs.last().context.registry.primary,
        forall|local: ProjectGraphView| #[trigger]
            graphs.contains(local) <==> graphs.drop_last().contains(local) || local
                == graphs.last(),
{
    let rest = graphs.drop_last();
    let last = graphs.len() - 1;
    assert(local_valid(graphs[last]));
    assert(owns_projects(graphs[last]));
    assert forall|i: int| 0 <= i < rest.len() implies local_valid(#[trigger] rest[i])
        && owns_projects(rest[i]) by {
        assert(local_valid(graphs[i]));
        assert(owns_projects(graphs[i]));
    }
    assert forall|i: int, j: int| 0 <= i < j < rest.len() implies (
    #[trigger] rest[i]).context.registry.primary != (
    #[trigger] rest[j]).context.registry.primary by {
        assert(graphs[i].context.registry.primary != graphs[j].context.registry.primary);
    }
    assert forall|local: ProjectGraphView| #[trigger] rest.contains(local) implies owns_projects(
        local,
    ) && local.context.registry.primary != graphs.last().context.registry.primary by {
        let i = choose|i: int| 0 <= i < rest.len() && rest[i] == local;
        assert(owns_projects(graphs[i]));
        assert(graphs[i].context.registry.primary != graphs[last].context.registry.primary);
    }
    assert(graphs =~= rest.push(graphs.last()));
    assert forall|local: ProjectGraphView| #[trigger] graphs.contains(local) <==> rest.contains(
        local,
    ) || local == graphs.last() by {
        if graphs.contains(local) && local != graphs.last() {
            let i = choose|i: int| 0 <= i < graphs.len() && graphs[i] == local;
            assert(rest[i] == local);
        }
        if rest.contains(local) {
            let i = choose|i: int| 0 <= i < rest.len() && rest[i] == local;
            assert(graphs[i] == local);
        }
        assert(graphs[last] == graphs.last());
    }
}

proof fn graphs_are_put_together(graphs: Seq<ProjectGraphView>, assembly: AssemblyView)
    requires
        locals_valid(graphs),
        sources_apart(graphs),
        assemble(graphs) == Ok::<AssemblyView, ProjectGraphFault>(assembly),
    ensures
        is_put_together(graphs, assembly),
    decreases graphs.len(),
{
    if graphs.len() > 0 {
        let rest = graphs.drop_last();
        let local = graphs.last();
        let before = assemble(rest)->Ok_0;
        front_is_apart(graphs);
        graphs_are_put_together(rest, before);
        let keys = keys_in_order(local.nodes);
        project_keys_rank();
        arranged_holds::<ProjectKey>(local.nodes.dom());
        let more = add_projects(before, keys, local.nodes);
        assert forall|i: int| 0 <= i < keys.len() implies !before.nodes.dom().contains(
            #[trigger] keys[i],
        ) by {
            assert(keys.contains(keys[i]));
            assert(local.nodes.dom().contains(keys[i]));
            if is_project(rest, keys[i]) {
                let other = choose|other: ProjectGraphView| #[trigger]
                    rest.contains(other) && other.nodes.dom().contains(keys[i]);
                assert(owns_projects(other));
            }
        }
        projects_bring_their_dependencies(before, keys, local.nodes);
        add_projects_grows(before, keys, local.nodes);
        assert(assembly.cross == more.cross && assembly.nodes == more.nodes);
        projects_are_put_together(graphs, before, assembly, keys);
        aliases_are_put_together(graphs, before, assembly);
        assert forall|edge: KeyEdgeView| #[trigger]
            assembly.edges.contains(edge) <==> depends_within(
            graphs,
            edge.source,
            edge.target,
            edge.label,
        ) by {
            edges_are_put_in(before.edges, local.indexes, local.graph.edges, edge);
            within_one_or_before(graphs, edge);
        }
    } else {
        assert forall|alias: AliasView, target: ProjectKeyView| #[trigger]
            is_alias(graphs, alias.source, alias.alias, target) <==> assembly.aliases.dom().contains(
            alias,
        ) && assembly.aliases[alias] == target by {}
    }
}

proof fn within_one_or_before(graphs: Seq<ProjectGraphView>, edge: KeyEdgeView)
    requires
        graphs.len() > 0,
        forall|local: ProjectGraphView| #[trigger]
            graphs.contains(local) <==> graphs.drop_last().contains(local) || local
                == graphs.last(),
    ensures
        depends_within(graphs, edge.source, edge.target, edge.label) <==> depends_within(
            graphs.drop_last(),
            edge.source,
            edge.target,
            edge.label,
        ) || exists|i: int|
            0 <= i < graphs.last().graph.edges.len() && graphs.last().indexes[(
            #[trigger] graphs.last().graph.edges[i]).0 as int] == edge.source
                && graphs.last().indexes[graphs.last().graph.edges[i].1 as int] == edge.target
                && graphs.last().graph.edges[i].2 == edge.label,
{
    let rest = graphs.drop_last();
    if depends_within(graphs, edge.source, edge.target, edge.label) {
        let (local, i) = choose|local: ProjectGraphView, i: int|
            graphs.contains(local) && 0 <= i < local.graph.edges.len()
                && local.indexes[(#[trigger] local.graph.edges[i]).0 as int] == edge.source
                && local.indexes[local.graph.edges[i].1 as int] == edge.target
                && local.graph.edges[i].2 == edge.label;
        if rest.contains(local) {
            assert(local.graph.edges[i].2 == edge.label);
        }
    }
    if depends_within(rest, edge.source, edge.target, edge.label) {
        let (local, i) = choose|local: ProjectGraphView, i: int|
            rest.contains(local) && 0 <= i < local.graph.edges.len()
                && local.indexes[(#[trigger] local.graph.edges[i]).0 as int] == edge.source
                && local.indexes[local.graph.edges[i].1 as int] == edge.target
                && local.graph.edges[i].2 == edge.label;
        assert(graphs.contains(local));
    }
    assert(graphs.contains(graphs.last()));
}

proof fn projects_are_put_together(
    graphs: Seq<ProjectGraphView>,
    before: AssemblyView,
    assembly: AssemblyView,
    keys: Seq<ProjectKeyView>,
)
    requires
        graphs.len() > 0,
        is_put_together(graphs.drop_last(), before),
        forall|local: ProjectGraphView| #[trigger]
            graphs.contains(local) <==> graphs.drop_last().contains(local) || local
                == graphs.last(),
        forall|key: ProjectKeyView|
            graphs.last().nodes.dom().contains(key) <==> #[trigger] keys.contains(key),
        forall|key: ProjectKeyView| #[trigger]
            assembly.nodes.dom().contains(key) <==> before.nodes.dom().contains(key)
                || keys.contains(key),
        forall|i: int|
            0 <= i < keys.len() ==> exists|start: int| #[trigger]
                stand_in_a_row(
                    assembly.cross,
                    #[trigger] keys[i],
                    graphs.last().nodes[keys[i]].project.cross_source_dependencies,
                    start,
                ),
        forall|i: int|
            0 <= i < keys.len() ==> assembly.nodes[#[trigger] keys[i]].project.dependencies
                == graphs.last().nodes[keys[i]].project.dependencies,
        forall|owner: ProjectKeyView, declared: Seq<DependencyView>, start: int|
            before.nodes.dom().contains(owner) && #[trigger] stand_in_a_row(
                before.cross,
                owner,
                declared,
                start,
            ) ==> stand_in_a_row(assembly.cross, owner, declared, start),
        forall|key: ProjectKeyView| #[trigger]
            before.nodes.dom().contains(key) ==> assembly.nodes.dom().contains(key)
                && assembly.nodes[key] == before.nodes[key],
    ensures
        forall|local: ProjectGraphView, key: ProjectKeyView|
            #![trigger graphs.contains(local), local.nodes.dom().contains(key)]
            graphs.contains(local) && local.nodes.dom().contains(key) ==> {
                &&& assembly.nodes.dom().contains(key)
                &&& assembly.nodes[key].project.dependencies
                    == local.nodes[key].project.dependencies
                &&& exists|start: int| #[trigger]
                    stand_in_a_row(
                        assembly.cross,
                        key,
                        local.nodes[key].project.cross_source_dependencies,
                        start,
                    )
            },
        forall|key: ProjectKeyView| #[trigger]
            assembly.nodes.dom().contains(key) <==> is_project(graphs, key),
{
    let rest = graphs.drop_last();
    let last = graphs.last();
    assert forall|local: ProjectGraphView, key: ProjectKeyView|
        #![trigger graphs.contains(local), local.nodes.dom().contains(key)]
        graphs.contains(local) && local.nodes.dom().contains(key) implies {
        &&& assembly.nodes.dom().contains(key)
        &&& assembly.nodes[key].project.dependencies == local.nodes[key].project.dependencies
        &&& exists|start: int| #[trigger]
            stand_in_a_row(
                assembly.cross,
                key,
                local.nodes[key].project.cross_source_dependencies,
                start,
            )
    } by {
        if rest.contains(local) {
            assert(before.nodes.dom().contains(key));
            let start = choose|start: int| #[trigger]
                stand_in_a_row(
                    before.cross,
                    key,
                    local.nodes[key].project.cross_source_dependencies,
                    start,
                );
            assert(stand_in_a_row(
                assembly.cross,
                key,
                local.nodes[key].project.cross_source_dependencies,
                start,
            ));
        } else {
            assert(keys.contains(key));
            let i = choose|i: int| 0 <= i < keys.len() && keys[i] == key;
            assert(keys[i] == key);
        }
    }
    assert forall|key: ProjectKeyView| #[trigger] assembly.nodes.dom().contains(key)
        <==> is_project(graphs, key) by {
        if is_project(graphs, key) {
            let local = choose|local: ProjectGraphView| #[trigger]
                graphs.contains(local) && local.nodes.dom().contains(key);
            if rest.contains(local) {
                assert(is_project(rest, key));
            }
        }
        if assembly.nodes.dom().contains(key) {
            if keys.contains(key) {
                assert(graphs.contains(last));
            } else {
                assert(is_project(rest, key));
                let local = choose|local: ProjectGraphView| #[trigger]
                    rest.contains(local) && local.nodes.dom().contains(key);
                assert(graphs.contains(local));
            }
        }
    }
}

proof fn aliases_are_put_together(
    graphs: Seq<ProjectGraphView>,
    before: AssemblyView,
    assembly: AssemblyView,
)
    requires
        graphs.len() > 0,
        is_put_together(graphs.drop_last(), before),
        assembly.aliases == before.aliases.union_prefer_right(own_aliases(graphs.last())),
        forall|local: ProjectGraphView| #[trigger]
            graphs.contains(local) <==> graphs.drop_last().contains(local) || local
                == graphs.last(),
        forall|local: ProjectGraphView| #[trigger]
            graphs.drop_last().contains(local) ==> local.context.registry.primary
                != graphs.last().context.registry.primary,
    ensures
        forall|alias: AliasView, target: ProjectKeyView| #[trigger]
            is_alias(graphs, alias.source, alias.alias, target)
                <==> assembly.aliases.dom().contains(alias) && assembly.aliases[alias] == target,
        forall|alias: AliasView| #[trigger]
            assembly.aliases.dom().contains(alias) ==> is_alias(
                graphs,
                alias.source,
                alias.alias,
                assembly.aliases[alias],
            ),
{
    let rest = graphs.drop_last();
    let last = graphs.last();
    assert forall|alias: AliasView, target: ProjectKeyView| #[trigger]
        is_alias(graphs, alias.source, alias.alias, target) <==> assembly.aliases.dom().contains(
        alias,
    ) && assembly.aliases[alias] == target by {
        assert(alias == AliasView { source: alias.source, alias: alias.alias });
        if is_alias(graphs, alias.source, alias.alias, target) {
            let local = choose|local: ProjectGraphView| #[trigger]
                graphs.contains(local) && local.context.registry.primary == alias.source
                    && local.aliases.dom().contains(alias) && local.aliases[alias] == target
                    && target.source == alias.source;
            if rest.contains(local) {
                assert(is_alias(rest, alias.source, alias.alias, target));
                assert(!is_own_alias(last, alias));
            } else {
                assert(is_own_alias(last, alias));
            }
        }
        if assembly.aliases.dom().contains(alias) && assembly.aliases[alias] == target {
            if is_own_alias(last, alias) {
                assert(graphs.contains(last));
            } else {
                assert(before.aliases.dom().contains(alias));
                assert(is_alias(rest, alias.source, alias.alias, target));
                let local = choose|local: ProjectGraphView| #[trigger]
                    rest.contains(local) && local.context.registry.primary == alias.source
                        && local.aliases.dom().contains(alias) && local.aliases[alias] == target
                        && target.source == alias.source;
                assert(graphs.contains(local));
            }
        }
    }
    assert forall|alias: AliasView| #[trigger]
        assembly.aliases.dom().contains(alias) implies is_alias(
        graphs,
        alias.source,
        alias.alias,
        assembly.aliases[alias],
    ) by {
        let target = assembly.aliases[alias];
        assert(is_alias(graphs, alias.source, alias.alias, target)
            <==> assembly.aliases.dom().contains(alias) && assembly.aliases[alias] == target);
    }
}

proof fn dependencies_lead_where_they_say(
    registry: RegistryView,
    aliases: Map<Seq<char>, Seq<char>>,
    graphs: Seq<ProjectGraphView>,
    assembly: AssemblyView,
    cross: CrossView,
)
    requires
        is_put_together(graphs, assembly),
        cross.dependency.source_root is Some,
        resolve_cross(registry, aliases, assembly, cross) is Ok,
    ensures
        ({
            let item = resolve_cross(registry, aliases, assembly, cross)->Ok_0;
            &&& item.owner == cross.owner
            &&& item.dependency.scope == cross.dependency.scope
            &&& forall|target: ProjectKeyView| #[trigger]
                leads_across(
                    registry,
                    aliases,
                    graphs,
                    cross.owner,
                    cross.dependency,
                    target,
                ) <==> target == item.target
        }),
{
    let source = meant_source(
        registry,
        aliases,
        cross.owner,
        cross.dependency.source_root->0,
    );
    let key = ProjectKeyView { source, project: cross.dependency.id };
    let alias = AliasView { source, alias: cross.dependency.id };
    let item = resolve_cross(registry, aliases, assembly, cross)->Ok_0;
    assert(assembly.nodes.dom().contains(key) <==> is_project(graphs, key));
    assert forall|target: ProjectKeyView| #[trigger]
        leads_across(
            registry,
            aliases,
            graphs,
            cross.owner,
            cross.dependency,
            target,
        ) <==> target == item.target by {
        if !is_project(graphs, key) {
            assert(is_alias(graphs, alias.source, alias.alias, target)
                <==> assembly.aliases.dom().contains(alias) && assembly.aliases[alias] == target);
        }
    }
}

proof fn all_lead_where_they_say(
    registry: RegistryView,
    aliases: Map<Seq<char>, Seq<char>>,
    assembly: AssemblyView,
    cross: Seq<CrossView>,
)
    requires
        resolve_all(registry, aliases, assembly, cross) is Ok,
    ensures
        ({
            let resolved = resolve_all(registry, aliases, assembly, cross)->Ok_0;
            &&& resolved.len() == cross.len()
            &&& forall|i: int|
                0 <= i < cross.len() ==> resolve_cross(
                    registry,
                    aliases,
                    assembly,
                    #[trigger] cross[i],
                ) == Ok::<ResolvedView, ProjectGraphFault>(resolved[i])
        }),
    decreases cross.len(),
{
    if cross.len() > 0 {
        all_lead_where_they_say(registry, aliases, assembly, cross.drop_last());
        let resolved = resolve_all(registry, aliases, assembly, cross)->Ok_0;
        assert forall|i: int| 0 <= i < cross.len() implies resolve_cross(
            registry,
            aliases,
            assembly,
            #[trigger] cross[i],
        ) == Ok::<ResolvedView, ProjectGraphFault>(resolved[i]) by {
            if i < cross.len() - 1 {
                assert(cross.drop_last()[i] == cross[i]);
            }
        }
    }
}

proof fn others_stay(items: Seq<ResolvedView>, other: ResolvedView, item: ResolvedView)
    ensures
        without_ends(items, other).contains(item) <==> items.contains(item) && !same_ends(
            item,
            other,
        ),
    decreases items.len(),
{
    if items.len() > 0 {
        let rest = items.drop_last();
        others_stay(rest, other, item);
        assert(items =~= rest.push(items.last()));
        pushed_is_there(rest, items.last(), item);
        pushed_is_there(without_ends(rest, other), items.last(), item);
    }
}

proof fn pushed_is_there(items: Seq<ResolvedView>, last: ResolvedView, item: ResolvedView)
    ensures
        items.push(last).contains(item) <==> items.contains(item) || item == last,
{
    let more = items.push(last);
    if items.contains(item) {
        let i = choose|i: int| 0 <= i < items.len() && items[i] == item;
        assert(more[i] == item);
    }
    assert(more[items.len() as int] == last);
    if more.contains(item) && item != last {
        let i = choose|i: int| 0 <= i < more.len() && more[i] == item;
        assert(items[i] == item);
    }
}

/// An item stands at a place, and behind it none has the same ends.
pub open spec fn is_last_of_its_ends(items: Seq<ResolvedView>, at: int, item: ResolvedView) -> bool {
    &&& 0 <= at < items.len()
    &&& items[at] == item
    &&& forall|later: int|
        at < later < items.len() ==> (#[trigger] items[later]).owner != item.owner
            || items[later].target != item.target
}

proof fn the_last_wins(items: Seq<ResolvedView>, item: ResolvedView)
    ensures
        last_wins(items).contains(item) <==> exists|at: int| #[trigger]
            is_last_of_its_ends(items, at, item),
    decreases items.len(),
{
    if items.len() > 0 {
        let rest = items.drop_last();
        let last = items.last();
        the_last_wins(rest, item);
        others_stay(last_wins(rest), last, item);
        pushed_is_there(without_ends(last_wins(rest), last), last, item);
        if last_wins(items).contains(item) {
            if item == last {
                assert(is_last_of_its_ends(items, items.len() - 1, item));
            } else {
                let at = choose|at: int| #[trigger] is_last_of_its_ends(rest, at, item);
                assert forall|later: int| at < later < items.len() implies (
                #[trigger] items[later]).owner != item.owner || items[later].target
                    != item.target by {
                    if later < items.len() - 1 {
                        assert(rest[later] == items[later]);
                    }
                }
                assert(is_last_of_its_ends(items, at, item));
            }
        }
        if exists|at: int| #[trigger] is_last_of_its_ends(items, at, item) {
            let at = choose|at: int| #[trigger] is_last_of_its_ends(items, at, item);
            if at < items.len() - 1 {
                assert(!same_ends(item, last)) by {
                    assert(items[items.len() - 1] == last);
                }
                assert forall|later: int| at < later < rest.len() implies (
                #[trigger] rest[later]).owner != item.owner || rest[later].target
                    != item.target by {
                    assert(rest[later] == items[later]);
                }
                assert(is_last_of_its_ends(rest, at, item));
            }
        }
    } else {
        assert(!last_wins(items).contains(item));
    }
}

/// The edge that a dependency on another source root makes.
pub open spec fn edge_of(
    nodes: Map<ProjectKeyView, ProjectNodeView>,
    item: ResolvedView,
) -> (usize, usize, u8) {
    (nodes[item.owner].index, nodes[item.target].index, label_of(item.dependency.scope))
}

proof fn links_are_made(
    contexts: Map<Seq<char>, ContextView>,
    start: LinkView,
    items: Seq<ResolvedView>,
)
    requires
        link_all(contexts, start, items) is Ok,
    ensures
        ({
            let links = link_all(contexts, start, items)->Ok_0;
            &&& forall|key: ProjectKeyView| #![trigger links.nodes[key]]
                links.nodes[key].index == start.nodes[key].index
            &&& forall|edge: (usize, usize, u8)| #[trigger]
                links.edges.contains(edge) <==> start.edges.contains(edge) || exists|k: int|
                    0 <= k < items.len() && !((#[trigger] items[k]).dependency.scope is Root)
                        && edge == edge_of(start.nodes, items[k])
            &&& forall|k: int|
                0 <= k < items.len() && !((#[trigger] items[k]).dependency.scope is Root)
                    ==> !is_refused(
                    contexts[items[k].owner.source].constraints,
                    items[k].owner,
                    items[k].target,
                    items[k].dependency.scope,
                )
        }),
    decreases items.len(),
{
    if items.len() > 0 {
        let rest = items.drop_last();
        let last = items.len() - 1;
        let item = items.last();
        assert(items[last] == item);
        links_are_made(contexts, start, rest);
        let before = link_all(contexts, start, rest)->Ok_0;
        let links = link_all(contexts, start, items)->Ok_0;
        assert forall|key: ProjectKeyView| #![trigger links.nodes[key]]
            links.nodes[key].index == start.nodes[key].index by {
            assert(before.nodes[key].index == start.nodes[key].index);
            assert(before.nodes[item.owner].index == start.nodes[item.owner].index);
        }
        assert(before.nodes[item.owner].index == start.nodes[item.owner].index);
        assert(before.nodes[item.target].index == start.nodes[item.target].index);
        assert forall|edge: (usize, usize, u8)| #[trigger]
            links.edges.contains(edge) <==> start.edges.contains(edge) || exists|k: int|
            0 <= k < items.len() && !((#[trigger] items[k]).dependency.scope is Root) && edge
                == edge_of(start.nodes, items[k]) by {
            assert(before.edges.contains(edge) <==> start.edges.contains(edge) || exists|k: int|
                0 <= k < rest.len() && !((#[trigger] rest[k]).dependency.scope is Root) && edge
                    == edge_of(start.nodes, rest[k]));
            if !(item.dependency.scope is Root) {
                assert(links.edges == before.edges.push(edge_of(start.nodes, item)));
                if links.edges.contains(edge) {
                    let i = choose|i: int| 0 <= i < links.edges.len() && links.edges[i] == edge;
                    if i < before.edges.len() {
                        assert(before.edges[i] == edge);
                    } else {
                        assert(edge == edge_of(start.nodes, items[last]));
                    }
                }
                if before.edges.contains(edge) {
                    let i = choose|i: int| 0 <= i < before.edges.len() && before.edges[i] == edge;
                    assert(links.edges[i] == edge);
                }
                assert(links.edges[before.edges.len() as int] == edge_of(start.nodes, item));
            }
            if exists|k: int|
                0 <= k < rest.len() && !((#[trigger] rest[k]).dependency.scope is Root) && edge
                    == edge_of(start.nodes, rest[k]) {
                let k = choose|k: int|
                    0 <= k < rest.len() && !((#[trigger] rest[k]).dependency.scope is Root)
                        && edge == edge_of(start.nodes, rest[k]);
                assert(items[k] == rest[k]);
            }
            if exists|k: int|
                0 <= k < items.len() && !((#[trigger] items[k]).dependency.scope is Root) && edge
                    == edge_of(start.nodes, items[k]) {
                let k = choose|k: int|
                    0 <= k < items.len() && !((#[trigger] items[k]).dependency.scope is Root)
                        && edge == edge_of(start.nodes, items[k]);
                if k < last {
                    assert(rest[k] == items[k]);
                    assert(before.edges.contains(edge));
                }
            }
        }
        assert forall|k: int|
            0 <= k < items.len() && !((#[trigger] items[k]).dependency.scope is Root) implies
            !is_refused(
            contexts[items[k].owner.source].constraints,
            items[k].owner,
            items[k].target,
            items[k].dependency.scope,
        ) by {
            if k < last {
                assert(rest[k] == items[k]);
            }
        }
    }
}

/// A dependency is added exactly where a project declares it.
proof fn added_are_declared(
    registry: RegistryView,
    aliases: Map<Seq<char>, Seq<char>>,
    graphs: Seq<ProjectGraphView>,
    assembly: AssemblyView,
    owner: ProjectKeyView,
    target: ProjectKeyView,
    scope: DependencyScope,
)
    requires
        is_put_together(graphs, assembly),
        forall|i: int|
            0 <= i < assembly.cross.len() ==> (
            #[trigger] assembly.cross[i]).dependency.source_root is Some,
        resolve_all(registry, aliases, assembly, assembly.cross) is Ok,
    ensures
        ({
            let items = ordered_links(
                resolve_all(registry, aliases, assembly, assembly.cross)->Ok_0,
            );
            (exists|k: int|
                0 <= k < items.len() && (#[trigger] items[k]).owner == owner && items[k].target
                    == target && items[k].dependency.scope == scope) <==> exists|
                dependency: DependencyView,
            |
                dependency.scope == scope && #[trigger] depends_across(
                    registry,
                    aliases,
                    graphs,
                    owner,
                    target,
                    dependency,
                )
        }),
{
    let cross = assembly.cross;
    let resolved = resolve_all(registry, aliases, assembly, cross)->Ok_0;
    let items = ordered_links(resolved);
    all_lead_where_they_say(registry, aliases, assembly, cross);
    assert forall|i: int| 0 <= i < cross.len() implies (#[trigger] resolved[i]).owner
        == cross[i].owner && resolved[i].dependency.scope == cross[i].dependency.scope && (
    leads_across(
        registry,
        aliases,
        graphs,
        cross[i].owner,
        cross[i].dependency,
        target,
    ) <==> target == resolved[i].target) by {
        assert(cross[i].dependency.source_root is Some);
        dependencies_lead_where_they_say(registry, aliases, graphs, assembly, cross[i]);
    }
    if exists|k: int|
        0 <= k < items.len() && (#[trigger] items[k]).owner == owner && items[k].target == target
            && items[k].dependency.scope == scope {
        let k = choose|k: int|
            0 <= k < items.len() && (#[trigger] items[k]).owner == owner && items[k].target
                == target && items[k].dependency.scope == scope;
        let item = items[k];
        assert(items.contains(item));
        ranked_same_items::<ResolvedDependency>(last_wins(resolved), item);
        the_last_wins(resolved, item);
        let at = choose|at: int| #[trigger] is_last_of_its_ends(resolved, at, item);
        assert(resolved[at].owner == cross[at].owner);
        assert(assembly.nodes.dom().contains(cross[at].owner));
        assert(is_project(graphs, owner));
        let local = choose|local: ProjectGraphView| #[trigger]
            graphs.contains(local) && local.nodes.dom().contains(owner);
        let declared = local.nodes[owner].project.cross_source_dependencies;
        let start = choose|start: int| #[trigger] stand_in_a_row(cross, owner, declared, start);
        let place = at - start;
        assert(cross[start + place] == (CrossView { owner, dependency: declared[place] }));
        assert forall|later: int| place < later < declared.len() implies !leads_across(
            registry,
            aliases,
            graphs,
            owner,
            #[trigger] declared[later],
            target,
        ) by {
            assert(cross[start + later] == (CrossView { owner, dependency: declared[later] }));
            assert(resolved[start + later].owner == owner);
        }
        assert(is_last_across(registry, aliases, graphs, owner, declared, place, target));
        assert(depends_across(registry, aliases, graphs, owner, target, declared[place]));
    }
    if exists|dependency: DependencyView|
        dependency.scope == scope && #[trigger] depends_across(
            registry,
            aliases,
            graphs,
            owner,
            target,
            dependency,
        ) {
        let dependency = choose|dependency: DependencyView|
            dependency.scope == scope && #[trigger] depends_across(
                registry,
                aliases,
                graphs,
                owner,
                target,
                dependency,
            );
        let (local, place) = choose|local: ProjectGraphView, at: int|
            graphs.contains(local) && local.nodes.dom().contains(owner) && #[trigger] is_last_across(
                registry,
                aliases,
                graphs,
                owner,
                local.nodes[owner].project.cross_source_dependencies,
                at,
                target,
            ) && local.nodes[owner].project.cross_source_dependencies[at] == dependency;
        let declared = local.nodes[owner].project.cross_source_dependencies;
        let start = choose|start: int| #[trigger] stand_in_a_row(cross, owner, declared, start);
        let at = start + place;
        assert(cross[start + place] == (CrossView { owner, dependency: declared[place] }));
        let item = resolved[at];
        assert(item.target == target && item.owner == owner);
        assert forall|later: int| at < later < resolved.len() implies (
        #[trigger] resolved[later]).owner != item.owner || resolved[later].target
            != item.target by {
            if resolved[later].owner == owner {
                assert(cross[later].owner == owner);
                let next = later - start;
                assert(cross[start + next] == (CrossView { owner, dependency: declared[next] }));
                assert(!leads_across(registry, aliases, graphs, owner, declared[next], target));
            }
        }
        assert(is_last_of_its_ends(resolved, at, item));
        the_last_wins(resolved, item);
        ranked_same_items::<ResolvedDependency>(last_wins(resolved), item);
        let k = choose|k: int| 0 <= k < items.len() && items[k] == item;
        assert(items[k].owner == owner);
    }
}

proof fn local_edges_are_numbered(
    assembly: AssemblyView,
    graphs: Seq<ProjectGraphView>,
    owner: ProjectKeyView,
    target: ProjectKeyView,
    label: u8,
)
    requires
        is_put_together(graphs, assembly),
        crate::composition_laws::assembly_numbered(assembly),
        crate::project_compose::assembly_valid(assembly),
        assembly.nodes.dom().contains(owner),
        assembly.nodes.dom().contains(target),
    ensures
        local_edges(assembly).contains(
            (assembly.nodes[owner].index, assembly.nodes[target].index, label),
        ) <==> depends_within(graphs, owner, target, label),
{
    let ordered = ranked::<KeyEdge>(assembly.edges);
    let edges = local_edges(assembly);
    let edge = (assembly.nodes[owner].index, assembly.nodes[target].index, label);
    let keyed = KeyEdgeView { source: owner, target, label };
    ranked_same_items::<KeyEdge>(assembly.edges, keyed);
    if edges.contains(edge) {
        let i = choose|i: int| 0 <= i < edges.len() && edges[i] == edge;
        let found = ordered[i];
        assert(ordered.contains(found));
        ranked_same_items::<KeyEdge>(assembly.edges, found);
        let j = choose|j: int| 0 <= j < assembly.edges.len() && assembly.edges[j] == found;
        assert(crate::project_compose::edge_known(assembly, assembly.edges[j]));
        assert(assembly.nodes[found.source].index == assembly.nodes[owner].index);
        assert(found.source == owner);
        assert(found.target == target);
        assert(found == keyed);
    }
    if depends_within(graphs, owner, target, label) {
        assert(assembly.edges.contains(keyed));
        let i = choose|i: int| 0 <= i < ordered.len() && ordered[i] == keyed;
        assert(edges[i] == edge);
    }
}

proof fn same_among_permuted(
    registry: RegistryView,
    aliases: Map<Seq<char>, Seq<char>>,
    graphs: Seq<ProjectGraphView>,
    others: Seq<ProjectGraphView>,
    owner: ProjectKeyView,
    target: ProjectKeyView,
)
    requires
        forall|local: ProjectGraphView| #[trigger]
            graphs.contains(local) <==> others.contains(local),
    ensures
        forall|label: u8| #[trigger]
            depends_within(graphs, owner, target, label) <==> depends_within(
                others,
                owner,
                target,
                label,
            ),
        forall|dependency: DependencyView| #[trigger]
            depends_across(registry, aliases, graphs, owner, target, dependency)
                <==> depends_across(registry, aliases, others, owner, target, dependency),
{
    projects_among_permuted(graphs, others);
    assert forall|dependency: DependencyView| #[trigger]
        leads_across(registry, aliases, graphs, owner, dependency, target) <==> leads_across(
        registry,
        aliases,
        others,
        owner,
        dependency,
        target,
    ) by {
        let source = meant_source(registry, aliases, owner, dependency.source_root->0);
        let key = ProjectKeyView { source, project: dependency.id };
        assert(is_project(graphs, key) <==> is_project(others, key));
        assert(is_alias(graphs, source, dependency.id, target) <==> is_alias(
            others,
            source,
            dependency.id,
            target,
        ));
    }
    assert forall|declared: Seq<DependencyView>, at: int| #[trigger]
        is_last_across(registry, aliases, graphs, owner, declared, at, target)
            <==> is_last_across(registry, aliases, others, owner, declared, at, target) by {
        if 0 <= at < declared.len() {
            assert(leads_across(registry, aliases, graphs, owner, declared[at], target)
                <==> leads_across(registry, aliases, others, owner, declared[at], target));
            assert forall|later: int| at < later < declared.len() implies (leads_across(
                registry,
                aliases,
                graphs,
                owner,
                #[trigger] declared[later],
                target,
            ) <==> leads_across(registry, aliases, others, owner, declared[later], target)) by {}
        }
    }
    across_among_permuted(registry, aliases, graphs, others, owner, target);
    across_among_permuted(registry, aliases, others, graphs, owner, target);
    assert forall|label: u8| #[trigger]
        depends_within(graphs, owner, target, label) <==> depends_within(
        others,
        owner,
        target,
        label,
    ) by {
        within_among_permuted(graphs, others, owner, target, label);
        within_among_permuted(others, graphs, owner, target, label);
    }
}

proof fn within_among_permuted(
    graphs: Seq<ProjectGraphView>,
    others: Seq<ProjectGraphView>,
    owner: ProjectKeyView,
    target: ProjectKeyView,
    label: u8,
)
    requires
        forall|local: ProjectGraphView| #[trigger]
            graphs.contains(local) <==> others.contains(local),
    ensures
        depends_within(graphs, owner, target, label) ==> depends_within(
            others,
            owner,
            target,
            label,
        ),
{
    if depends_within(graphs, owner, target, label) {
        let (local, i) = choose|local: ProjectGraphView, i: int|
            graphs.contains(local) && 0 <= i < local.graph.edges.len()
                && local.indexes[(#[trigger] local.graph.edges[i]).0 as int] == owner
                && local.indexes[local.graph.edges[i].1 as int] == target && local.graph.edges[i].2
                == label;
        assert(others.contains(local));
        assert(local.graph.edges[i].2 == label);
    }
}

proof fn across_among_permuted(
    registry: RegistryView,
    aliases: Map<Seq<char>, Seq<char>>,
    graphs: Seq<ProjectGraphView>,
    others: Seq<ProjectGraphView>,
    owner: ProjectKeyView,
    target: ProjectKeyView,
)
    requires
        forall|local: ProjectGraphView| #[trigger]
            graphs.contains(local) <==> others.contains(local),
        forall|declared: Seq<DependencyView>, at: int| #[trigger]
            is_last_across(registry, aliases, graphs, owner, declared, at, target)
                ==> is_last_across(registry, aliases, others, owner, declared, at, target),
    ensures
        forall|dependency: DependencyView| #[trigger]
            depends_across(registry, aliases, graphs, owner, target, dependency)
                ==> depends_across(registry, aliases, others, owner, target, dependency),
{
    assert forall|dependency: DependencyView| #[trigger]
        depends_across(registry, aliases, graphs, owner, target, dependency) implies
        depends_across(registry, aliases, others, owner, target, dependency) by {
        let (local, at) = choose|local: ProjectGraphView, at: int|
            graphs.contains(local) && local.nodes.dom().contains(owner) && #[trigger] is_last_across(
                registry,
                aliases,
                graphs,
                owner,
                local.nodes[owner].project.cross_source_dependencies,
                at,
                target,
            ) && local.nodes[owner].project.cross_source_dependencies[at] == dependency;
        assert(others.contains(local));
        assert(is_last_across(
            registry,
            aliases,
            others,
            owner,
            local.nodes[owner].project.cross_source_dependencies,
            at,
            target,
        ));
    }
}

proof fn projects_among_permuted(graphs: Seq<ProjectGraphView>, others: Seq<ProjectGraphView>)
    requires
        forall|local: ProjectGraphView| #[trigger]
            graphs.contains(local) <==> others.contains(local),
    ensures
        forall|key: ProjectKeyView| #[trigger] is_project(graphs, key) <==> is_project(others, key),
        forall|source: Seq<char>, name: Seq<char>, target: ProjectKeyView| #[trigger]
            is_alias(graphs, source, name, target) <==> is_alias(others, source, name, target),
{
    assert forall|key: ProjectKeyView| #[trigger] is_project(graphs, key) <==> is_project(
        others,
        key,
    ) by {
        if is_project(graphs, key) {
            let local = choose|local: ProjectGraphView| #[trigger]
                graphs.contains(local) && local.nodes.dom().contains(key);
            assert(others.contains(local));
        }
        if is_project(others, key) {
            let local = choose|local: ProjectGraphView| #[trigger]
                others.contains(local) && local.nodes.dom().contains(key);
            assert(graphs.contains(local));
        }
    }
    assert forall|source: Seq<char>, name: Seq<char>, target: ProjectKeyView| #[trigger]
        is_alias(graphs, source, name, target) <==> is_alias(others, source, name, target) by {
        let alias = AliasView { source, alias: name };
        if is_alias(graphs, source, name, target) {
            let local = choose|local: ProjectGraphView| #[trigger]
                graphs.contains(local) && local.context.registry.primary == source
                    && local.aliases.dom().contains(alias) && local.aliases[alias] == target
                    && target.source == source;
            assert(others.contains(local));
        }
        if is_alias(others, source, name, target) {
            let local = choose|local: ProjectGraphView| #[trigger]
                others.contains(local) && local.context.registry.primary == source
                    && local.aliases.dom().contains(alias) && local.aliases[alias] == target
                    && target.source == source;
            assert(graphs.contains(local));
        }
    }
}

/// A project of a composed graph depends on another exactly where it does in its source root,
/// or where it declares it as a dependency on another source root. Such a one is not refused
/// by the constraints of the source root of the project, and one on the root of the workspace
/// makes no edge.
pub proof fn composed_projects_depend_as_declared(
    registry: RegistryView,
    aliases: Map<Seq<char>, Seq<char>>,
    graphs: Seq<ProjectGraphView>,
    owner: ProjectKeyView,
    target: ProjectKeyView,
)
    requires
        locals_sound(graphs),
        sources_apart(graphs),
        links_reach(registry, aliases, graphs),
        composable(graphs),
        composed(registry, aliases, graphs) is Ok,
        is_project(graphs, owner),
        is_project(graphs, target),
    ensures
        ({
            let graph = composed(registry, aliases, graphs)->Ok_0;
            &&& forall|label: u8| #[trigger]
                graph.graph.edges.contains(
                    (graph.nodes[owner].index, graph.nodes[target].index, label),
                ) <==> depends_within(graphs, owner, target, label) || exists|
                    dependency: DependencyView,
                |
                    !(dependency.scope is Root) && label_of(dependency.scope) == label
                        && #[trigger] depends_across(
                        registry,
                        aliases,
                        graphs,
                        owner,
                        target,
                        dependency,
                    )
            &&& forall|dependency: DependencyView, local: ProjectGraphView|
                !(dependency.scope is Root) && #[trigger] depends_across(
                    registry,
                    aliases,
                    graphs,
                    owner,
                    target,
                    dependency,
                ) && #[trigger] graphs.contains(local) && local.context.registry.primary
                    == owner.source ==> !is_refused(
                    local.context.constraints,
                    owner,
                    target,
                    dependency.scope,
                )
        }),
{
    let ordered = ranked::<&ProjectGraph>(graphs);
    ordered_graphs_sound(graphs);
    ordered_graphs_apart(graphs);
    let assembly = assemble(ordered)->Ok_0;
    assembled_is_sound(ordered, assembly);
    assembled_is_numbered(ordered, assembly);
    graphs_are_put_together(ordered, assembly);
    assert forall|local: ProjectGraphView| #[trigger]
        graphs.contains(local) <==> ordered.contains(local) by {
        ranked_same_items::<&ProjectGraph>(graphs, local);
    }
    projects_among_permuted(graphs, ordered);
    same_among_permuted(registry, aliases, graphs, ordered, owner, target);
    let resolved = resolve_all(registry, aliases, assembly, assembly.cross)->Ok_0;
    let items = ordered_links(resolved);
    let start = LinkView { nodes: assembly.nodes, edges: local_edges(assembly) };
    let links = link_all(assembly.contexts, start, items)->Ok_0;
    links_are_made(assembly.contexts, start, items);
    let graph = composed(registry, aliases, graphs)->Ok_0;
    assert(graph.nodes == links.nodes && graph.graph.edges == links.edges);
    assert(assembly.nodes.dom().contains(owner) && assembly.nodes.dom().contains(target));
    assert(links.nodes[owner].index == assembly.nodes[owner].index);
    assert(links.nodes[target].index == assembly.nodes[target].index);
    assert forall|i: int| 0 <= i < assembly.cross.len() implies (
    #[trigger] assembly.cross[i]).dependency.source_root is Some by {
        assert(crate::project_compose::cross_known(assembly, assembly.cross[i]));
    }
    resolve_all_known(registry, aliases, assembly, assembly.cross, resolved);
    ordered_links_known(assembly, resolved);
    assert forall|label: u8| #[trigger]
        graph.graph.edges.contains(
            (graph.nodes[owner].index, graph.nodes[target].index, label),
        ) <==> depends_within(graphs, owner, target, label) || exists|dependency: DependencyView|
        !(dependency.scope is Root) && label_of(dependency.scope) == label
            && #[trigger] depends_across(
            registry,
            aliases,
            graphs,
            owner,
            target,
            dependency,
        ) by {
        let edge = (assembly.nodes[owner].index, assembly.nodes[target].index, label);
        local_edges_are_numbered(assembly, ordered, owner, target, label);
        assert(links.edges.contains(edge) <==> start.edges.contains(edge) || exists|k: int|
            0 <= k < items.len() && !((#[trigger] items[k]).dependency.scope is Root) && edge
                == edge_of(start.nodes, items[k]));
        if exists|k: int|
            0 <= k < items.len() && !((#[trigger] items[k]).dependency.scope is Root) && edge
                == edge_of(start.nodes, items[k]) {
            let k = choose|k: int|
                0 <= k < items.len() && !((#[trigger] items[k]).dependency.scope is Root) && edge
                    == edge_of(start.nodes, items[k]);
            let item = items[k];
            assert(resolved_known(assembly, items[k]));
            assert(link_reaches(assembly, items[k]));
            assert(item.owner == owner);
            assert(item.target == target);
            added_are_declared(
                registry,
                aliases,
                ordered,
                assembly,
                owner,
                target,
                item.dependency.scope,
            );
            let dependency = choose|dependency: DependencyView|
                dependency.scope == item.dependency.scope && #[trigger] depends_across(
                    registry,
                    aliases,
                    ordered,
                    owner,
                    target,
                    dependency,
                );
            assert(depends_across(registry, aliases, graphs, owner, target, dependency));
        }
        if exists|dependency: DependencyView|
            !(dependency.scope is Root) && label_of(dependency.scope) == label
                && #[trigger] depends_across(
                registry,
                aliases,
                graphs,
                owner,
                target,
                dependency,
            ) {
            let dependency = choose|dependency: DependencyView|
                !(dependency.scope is Root) && label_of(dependency.scope) == label
                    && #[trigger] depends_across(
                    registry,
                    aliases,
                    graphs,
                    owner,
                    target,
                    dependency,
                );
            assert(depends_across(registry, aliases, ordered, owner, target, dependency));
            added_are_declared(
                registry,
                aliases,
                ordered,
                assembly,
                owner,
                target,
                dependency.scope,
            );
            let k = choose|k: int|
                0 <= k < items.len() && (#[trigger] items[k]).owner == owner && items[k].target
                    == target && items[k].dependency.scope == dependency.scope;
            assert(edge == edge_of(start.nodes, items[k]));
        }
    }
    assert forall|dependency: DependencyView, local: ProjectGraphView|
        !(dependency.scope is Root) && #[trigger] depends_across(
            registry,
            aliases,
            graphs,
            owner,
            target,
            dependency,
        ) && #[trigger] graphs.contains(local) && local.context.registry.primary
            == owner.source implies !is_refused(
        local.context.constraints,
        owner,
        target,
        dependency.scope,
    ) by {
        assert(depends_across(registry, aliases, ordered, owner, target, dependency));
        added_are_declared(
            registry,
            aliases,
            ordered,
            assembly,
            owner,
            target,
            dependency.scope,
        );
        let k = choose|k: int|
            0 <= k < items.len() && (#[trigger] items[k]).owner == owner && items[k].target
                == target && items[k].dependency.scope == dependency.scope;
        assert(!is_refused(
            assembly.contexts[items[k].owner.source].constraints,
            items[k].owner,
            items[k].target,
            items[k].dependency.scope,
        ));
        assert(ordered.contains(local));
    }
}

/// A dependency that is added is refused.
pub open spec fn some_is_refused(
    contexts: Map<Seq<char>, ContextView>,
    items: Seq<ResolvedView>,
    k: int,
    layers: bool,
) -> bool {
    let item = items[k];
    let constraints = contexts[item.owner.source].constraints;
    let dependency = RefusalView {
        owner: item.owner,
        target: item.target,
        scope: item.dependency.scope,
    };
    &&& 0 <= k < items.len()
    &&& !(item.dependency.scope is Root)
    &&& if layers {
        constraints.enforce_layer_relationships && constraints.refused_layers.contains(dependency)
    } else {
        exists|i: int|
            0 <= i < constraints.tag_relationships.len() && (
            #[trigger] constraints.tag_relationships[i]).refused.contains(dependency)
    }
}

/// Linking fails exactly where a dependency is refused, and says which: for its layer where the
/// layers are looked at, and else for a tag.
pub proof fn links_are_refused_for_a_reason(
    contexts: Map<Seq<char>, ContextView>,
    start: LinkView,
    items: Seq<ResolvedView>,
)
    ensures
        match link_all(contexts, start, items) {
            Ok(_) => forall|k: int|
                0 <= k < items.len() && !((#[trigger] items[k]).dependency.scope is Root)
                    ==> !is_refused(
                    contexts[items[k].owner.source].constraints,
                    items[k].owner,
                    items[k].target,
                    items[k].dependency.scope,
                ),
            Err(ProjectGraphFault::LayerViolation { project_key, target_key }) => exists|k: int|
                #[trigger] some_is_refused(contexts, items, k, true) && project_key
                    == project_key_text(items[k].owner) && target_key == project_key_text(
                    items[k].target,
                ),
            Err(ProjectGraphFault::TagViolation { project_key, target_key }) => exists|k: int|
                #[trigger] some_is_refused(contexts, items, k, false) && project_key
                    == project_key_text(items[k].owner) && target_key == project_key_text(
                    items[k].target,
                ),
            Err(_) => false,
        },
    decreases items.len(),
{
    if items.len() > 0 {
        let rest = items.drop_last();
        let last = items.len() - 1;
        let item = items.last();
        assert(items[last] == item);
        links_are_refused_for_a_reason(contexts, start, rest);
        match link_all(contexts, start, rest) {
            Ok(before) => {
                match link_all(contexts, start, items) {
                    Ok(links) => {
                        assert forall|k: int|
                            0 <= k < items.len() && !((
                            #[trigger] items[k]).dependency.scope is Root) implies !is_refused(
                            contexts[items[k].owner.source].constraints,
                            items[k].owner,
                            items[k].target,
                            items[k].dependency.scope,
                        ) by {
                            if k < last {
                                assert(rest[k] == items[k]);
                            }
                        }
                    },
                    Err(ProjectGraphFault::LayerViolation { .. }) => {
                        assert(some_is_refused(contexts, items, last, true));
                    },
                    Err(ProjectGraphFault::TagViolation { .. }) => {
                        assert(some_is_refused(contexts, items, last, false));
                    },
                    Err(_) => {},
                }
            },
            Err(ProjectGraphFault::LayerViolation { project_key, target_key }) => {
                let k = choose|k: int| #[trigger]
                    some_is_refused(contexts, rest, k, true) && project_key == project_key_text(
                        rest[k].owner,
                    ) && target_key == project_key_text(rest[k].target);
                assert(items[k] == rest[k]);
                assert(some_is_refused(contexts, items, k, true));
            },
            Err(ProjectGraphFault::TagViolation { project_key, target_key }) => {
                let k = choose|k: int| #[trigger]
                    some_is_refused(contexts, rest, k, false) && project_key == project_key_text(
                        rest[k].owner,
                    ) && target_key == project_key_text(rest[k].target);
                assert(items[k] == rest[k]);
                assert(some_is_refused(contexts, items, k, false));
            },
            Err(_) => {},
        }
    }
}

/// A dependency on another source root is refused where that is not registered, is the own one,
/// or has no project with the identifier or name; in that order, and for no other reason than
/// an invalid identifier.
pub proof fn dependencies_are_refused_for_a_reason(
    registry: RegistryView,
    aliases: Map<Seq<char>, Seq<char>>,
    graphs: Seq<ProjectGraphView>,
    assembly: AssemblyView,
    cross: CrossView,
)
    requires
        is_put_together(graphs, assembly),
        cross.dependency.source_root is Some,
        registry.roots.dom().contains("workspace"@) ==> registry.primary == "workspace"@,
        registry.roots.dom().contains(registry.primary),
    ensures
        ({
            let source = meant_source(
                registry,
                aliases,
                cross.owner,
                cross.dependency.source_root->0,
            );
            let key = ProjectKeyView { source, project: cross.dependency.id };
            match resolve_cross(registry, aliases, assembly, cross) {
                Ok(_) => registry.roots.dom().contains(source),
                Err(ProjectGraphFault::UnknownDependencySource { source_id, .. }) => source_id
                    == cross.dependency.source_root->0 && !registry.roots.dom().contains(source),
                Err(ProjectGraphFault::RedundantDependencySource { source_id, .. }) => source_id
                    == source && source == cross.owner.source,
                Err(ProjectGraphFault::InvalidId { id }) => id == cross.dependency.id
                    && !crate::id::valid_id(id),
                Err(ProjectGraphFault::UnknownCrossSourceTarget { source_id, target_id, .. }) => {
                    &&& source_id == source
                    &&& target_id == cross.dependency.id
                    &&& !is_project(graphs, key)
                    &&& forall|target: ProjectKeyView| !#[trigger]
                        is_alias(graphs, source, cross.dependency.id, target)
                },
                Err(_) => false,
            }
        }),
{
    let source = meant_source(registry, aliases, cross.owner, cross.dependency.source_root->0);
    let key = ProjectKeyView { source, project: cross.dependency.id };
    let alias = AliasView { source, alias: cross.dependency.id };
    assert(assembly.nodes.dom().contains(key) <==> is_project(graphs, key));
    assert forall|target: ProjectKeyView| #[trigger]
        is_alias(graphs, source, cross.dependency.id, target) implies assembly.aliases.dom().contains(
        alias,
    ) by {
        assert(is_alias(graphs, alias.source, alias.alias, target));
    }
}

} // verus!
