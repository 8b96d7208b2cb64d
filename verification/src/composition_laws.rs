//! What holds of every composed project graph.

use crate::config::{key_of_project, ProjectView};
use crate::graph::{
    acyclic_empty, acyclic_push, breadth_first, edges_within, leads_to, neighbors,
    neighbors_are_edges, walk, Direction,
};
use crate::id::valid_id;
use crate::keys::{ProjectKey, ProjectKeyView};
use crate::order::{
    arranged_holds, ranked, ranked_ignores_order, ranked_is_permutation, ranked_same_items,
    ranks_apart,
};
use crate::project_compose::{
    add_projects, assemble, assembly_valid, composable, composed, edge_known, keys_in_order,
    link_all, link_reaches, links_reach, local_edges, local_valid, locals_valid, number_edge,
    ordered_links, ordered_links_known, project_keys_rank, resolve_all, resolve_all_known,
    resolved_known, AssemblyView, KeyEdge, LinkView, ResolvedView,
};
use crate::project_graph::{
    ProjectGraph, ProjectGraphFault, ProjectGraphView, ProjectNodeView,
};
use crate::project_queries::{graph_valid, has_project, keys_at, partition_reached_keys};
use crate::scopes::{
    closes_cycle, first_cycle, label_in, partition_edges, partition_edges_empty,
    partition_edges_push, partition_edges_within, parts_acyclic, scoped_valid, ScopePartition,
};
use crate::source::RegistryView;
use crate::walks::{breadth_first_meets, distance, no_way_back, steps_to};
use vstd::prelude::*;

verus! {

/// Composition does not depend on the order in which the graphs are given, where no
/// two of them have the same source root.
pub proof fn composition_ignores_order(
    registry: RegistryView,
    aliases: Map<Seq<char>, Seq<char>>,
    a: Seq<ProjectGraphView>,
    b: Seq<ProjectGraphView>,
)
    requires
        ranks_apart::<&ProjectGraph>(a),
        a.to_multiset() == b.to_multiset(),
    ensures
        composed(registry, aliases, a) == composed(registry, aliases, b),
{
    ranked_ignores_order::<&ProjectGraph>(a, b);
}

/// Some edge is the first to close a cycle where any edge closes one.
proof fn first_closing(edges: Seq<(usize, usize, u8)>, i: int)
    requires
        0 <= i < edges.len(),
        closes_cycle(edges, i),
    ensures
        exists|j: int| first_cycle(edges, j),
    decreases i,
{
    if forall|j: int| 0 <= j < i ==> !#[trigger] closes_cycle(edges, j) {
        assert(first_cycle(edges, i));
    } else {
        let j = choose|j: int| 0 <= j < i && #[trigger] closes_cycle(edges, j);
        first_closing(edges, j);
    }
}

/// Where no edge closes a cycle, the parts of the front are free of cycles.
proof fn front_is_acyclic(edges: Seq<(usize, usize, u8)>, n: int)
    requires
        0 <= n <= edges.len(),
        forall|i: int| 0 <= i < edges.len() ==> !#[trigger] closes_cycle(edges, i),
    ensures
        parts_acyclic(edges.take(n)),
    decreases n,
{
    if n == 0 {
        assert(edges.take(0) =~= Seq::empty());
        partition_edges_empty(ScopePartition::Production);
        partition_edges_empty(ScopePartition::Development);
        acyclic_empty();
    } else {
        let front = edges.take(n - 1);
        let edge = edges[n - 1];
        front_is_acyclic(edges, n - 1);
        assert(edges.take(n) =~= front.push(edge));
        partition_edges_push(front, edge, ScopePartition::Production);
        partition_edges_push(front, edge, ScopePartition::Development);
        assert(!closes_cycle(edges, n - 1));
        if label_in(edge.2, ScopePartition::Production) {
            acyclic_push(partition_edges(front, ScopePartition::Production), edge);
        }
        if label_in(edge.2, ScopePartition::Development) {
            acyclic_push(partition_edges(front, ScopePartition::Development), edge);
        }
    }
}

/// The parts of a composed graph are free of cycles.
pub proof fn composed_parts_are_acyclic(
    registry: RegistryView,
    aliases: Map<Seq<char>, Seq<char>>,
    graphs: Seq<ProjectGraphView>,
)
    requires
        composed(registry, aliases, graphs) is Ok,
    ensures
        parts_acyclic(composed(registry, aliases, graphs)->Ok_0.graph.edges),
{
    let edges = composed(registry, aliases, graphs)->Ok_0.graph.edges;
    assert forall|i: int| 0 <= i < edges.len() implies !#[trigger] closes_cycle(edges, i) by {
        if closes_cycle(edges, i) {
            first_closing(edges, i);
        }
    }
    front_is_acyclic(edges, edges.len() as int);
    assert(edges.take(edges.len() as int) =~= edges);
}

/// A project belongs to one of the graphs.
pub open spec fn in_some_graph(graphs: Seq<ProjectGraphView>, key: ProjectKeyView) -> bool {
    exists|i: int| 0 <= i < graphs.len() && (#[trigger] graphs[i]).nodes.dom().contains(key)
}

/// Adding projects adds their keys.
proof fn add_projects_adds(
    assembly: AssemblyView,
    keys: Seq<ProjectKeyView>,
    nodes: Map<ProjectKeyView, ProjectNodeView>,
    key: ProjectKeyView,
)
    ensures
        add_projects(assembly, keys, nodes).nodes.dom().contains(key) <==> (
        assembly.nodes.dom().contains(key) || keys.contains(key)),
    decreases keys.len(),
{
    if keys.len() > 0 {
        add_projects_adds(assembly, keys.drop_last(), nodes, key);
        assert(keys =~= keys.drop_last().push(keys.last()));
        vstd::seq_lib::lemma_seq_contains_after_push(keys.drop_last(), keys.last(), key);
    }
}

/// What was put together are the projects of the graphs.
proof fn assembled_projects(
    graphs: Seq<ProjectGraphView>,
    assembly: AssemblyView,
    key: ProjectKeyView,
)
    requires
        locals_valid(graphs),
        assemble(graphs) == Ok::<AssemblyView, ProjectGraphFault>(assembly),
    ensures
        assembly.nodes.dom().contains(key) <==> in_some_graph(graphs, key),
    decreases graphs.len(),
{
    if graphs.len() > 0 {
        let rest = graphs.drop_last();
        let local = graphs.last();
        let before = assemble(rest)->Ok_0;
        assert(local_valid(graphs[graphs.len() - 1]));
        assert forall|i: int| 0 <= i < rest.len() implies local_valid(#[trigger] rest[i]) by {
            assert(local_valid(graphs[i]));
        }
        assembled_projects(rest, before, key);
        project_keys_rank();
        arranged_holds::<ProjectKey>(local.nodes.dom());
        let keys = keys_in_order(local.nodes);
        add_projects_adds(before, keys, local.nodes, key);
        assert(local.nodes.dom().contains(key) <==> keys.contains(key));
        if in_some_graph(rest, key) {
            let i = choose|i: int| 0 <= i < rest.len() && (#[trigger] rest[i]).nodes.dom().contains(key);
            assert(graphs[i].nodes.dom().contains(key));
        }
        if local.nodes.dom().contains(key) {
            assert(graphs[graphs.len() - 1].nodes.dom().contains(key));
        }
        if in_some_graph(graphs, key) && !local.nodes.dom().contains(key) {
            let i = choose|i: int|
                0 <= i < graphs.len() && (#[trigger] graphs[i]).nodes.dom().contains(key);
            assert(rest[i].nodes.dom().contains(key));
        }
    }
}

/// A graph of one source root whose edges are within its nodes and whose projects
/// have valid identifiers.
pub open spec fn local_sound(local: ProjectGraphView) -> bool {
    &&& local_valid(local)
    &&& edges_within(local.graph.edges, local.graph.nodes)
    &&& forall|key: ProjectKeyView| #[trigger]
        local.nodes.dom().contains(key) ==> valid_id(local.nodes[key].project.id)
}

/// All graphs are sound.
pub open spec fn locals_sound(graphs: Seq<ProjectGraphView>) -> bool {
    forall|i: int| 0 <= i < graphs.len() ==> local_sound(#[trigger] graphs[i])
}

/// The numbers and projects that were put together belong together.
pub open spec fn assembly_sound(assembly: AssemblyView) -> bool {
    &&& assembly_valid(assembly)
    &&& forall|i: int|
        0 <= i < assembly.indexes.len() ==> assembly.nodes.dom().contains(
            #[trigger] assembly.indexes[i],
        )
    &&& forall|key: ProjectKeyView| #[trigger]
        assembly.nodes.dom().contains(key) ==> valid_id(assembly.nodes[key].project.id)
}

/// Adding projects with valid identifiers keeps numbers and projects together.
proof fn add_projects_sound(
    assembly: AssemblyView,
    keys: Seq<ProjectKeyView>,
    nodes: Map<ProjectKeyView, ProjectNodeView>,
)
    requires
        forall|i: int|
            0 <= i < assembly.indexes.len() ==> assembly.nodes.dom().contains(
                #[trigger] assembly.indexes[i],
            ),
        forall|key: ProjectKeyView| #[trigger]
            assembly.nodes.dom().contains(key) ==> valid_id(assembly.nodes[key].project.id),
        forall|i: int|
            0 <= i < keys.len() ==> valid_id(nodes[#[trigger] keys[i]].project.id),
    ensures
        ({
            let more = add_projects(assembly, keys, nodes);
            &&& forall|i: int|
                0 <= i < more.indexes.len() ==> more.nodes.dom().contains(#[trigger] more.indexes[i])
            &&& forall|key: ProjectKeyView| #[trigger]
                more.nodes.dom().contains(key) ==> valid_id(more.nodes[key].project.id)
        }),
    decreases keys.len(),
{
    if keys.len() > 0 {
        let rest = keys.drop_last();
        let before = add_projects(assembly, rest, nodes);
        let more = add_projects(assembly, keys, nodes);
        assert forall|i: int| 0 <= i < rest.len() implies valid_id(
            nodes[#[trigger] rest[i]].project.id,
        ) by {
            assert(rest[i] == keys[i]);
        }
        add_projects_sound(assembly, rest, nodes);
        assert forall|i: int| 0 <= i < more.indexes.len() implies more.nodes.dom().contains(
            #[trigger] more.indexes[i],
        ) by {
            if i < before.indexes.len() {
                assert(more.indexes[i] == before.indexes[i]);
            }
        }
        assert forall|key: ProjectKeyView| #[trigger] more.nodes.dom().contains(key) implies valid_id(
            more.nodes[key].project.id,
        ) by {
            if key == keys.last() {
                assert(keys[keys.len() - 1] == key);
            } else {
                assert(before.nodes.dom().contains(key));
            }
        }
    }
}

/// Graphs that are sound are sound together.
pub proof fn assembled_is_sound(graphs: Seq<ProjectGraphView>, assembly: AssemblyView)
    requires
        locals_sound(graphs),
        assemble(graphs) == Ok::<AssemblyView, ProjectGraphFault>(assembly),
        assembly.indexes.len() <= usize::MAX,
    ensures
        assembly_sound(assembly),
    decreases graphs.len(),
{
    if graphs.len() > 0 {
        let rest = graphs.drop_last();
        let local = graphs.last();
        let before = assemble(rest)->Ok_0;
        let keys = keys_in_order(local.nodes);
        assert(local_sound(graphs[graphs.len() - 1]));
        assert forall|i: int| 0 <= i < rest.len() implies local_sound(#[trigger] rest[i]) by {
            assert(local_sound(graphs[i]));
        }
        crate::project_compose::add_projects_grows(before, keys, local.nodes);
        assembled_is_sound(rest, before);
        project_keys_rank();
        arranged_holds::<ProjectKey>(local.nodes.dom());
        crate::project_compose::add_local_valid(before, local, assembly);
        assert forall|i: int| 0 <= i < keys.len() implies valid_id(
            local.nodes[#[trigger] keys[i]].project.id,
        ) by {
            assert(keys.contains(keys[i]));
            assert(local.nodes.dom().contains(keys[i]));
        }
        add_projects_sound(before, keys, local.nodes);
    }
}

/// Linking changes neither which projects there are nor their numbers, and keeps the
/// edges within the projects.
proof fn links_keep_projects(
    assembly: AssemblyView,
    start: LinkView,
    items: Seq<ResolvedView>,
    links: LinkView,
)
    requires
        assembly_sound(assembly),
        start.nodes == assembly.nodes,
        edges_within(start.edges, assembly.indexes.len()),
        forall|i: int|
            0 <= i < items.len() ==> resolved_known(assembly, #[trigger] items[i]) && link_reaches(
                assembly,
                items[i],
            ),
        link_all(assembly.contexts, start, items) == Ok::<LinkView, ProjectGraphFault>(links),
    ensures
        links.nodes.dom() == assembly.nodes.dom(),
        forall|key: ProjectKeyView| #[trigger]
            assembly.nodes.dom().contains(key) ==> links.nodes[key].index
                == assembly.nodes[key].index && links.nodes[key].project.id
                == assembly.nodes[key].project.id,
        edges_within(links.edges, assembly.indexes.len()),
    decreases items.len(),
{
    if items.len() > 0 {
        let rest = items.drop_last();
        let item = items.last();
        let before = link_all(assembly.contexts, start, rest)->Ok_0;
        assert forall|i: int| 0 <= i < rest.len() implies resolved_known(
            assembly,
            #[trigger] rest[i],
        ) && link_reaches(assembly, rest[i]) by {
            assert(rest[i] == items[i]);
        }
        links_keep_projects(assembly, start, rest, before);
        assert(resolved_known(assembly, items[items.len() - 1]));
        assert(assembly.nodes.dom().contains(item.owner));
        assert(link_reaches(assembly, items[items.len() - 1]));
        assert(links.nodes.dom() =~= before.nodes.dom());
    }
}

/// The edges within the source roots are within the projects.
proof fn local_edges_within(assembly: AssemblyView)
    requires
        assembly_valid(assembly),
    ensures
        edges_within(local_edges(assembly), assembly.indexes.len()),
{
    let ordered = ranked::<KeyEdge>(assembly.edges);
    let edges = local_edges(assembly);
    assert forall|i: int| 0 <= i < edges.len() implies (#[trigger] edges[i]).0
        < assembly.indexes.len() && edges[i].1 < assembly.indexes.len() by {
        assert(edges[i] == number_edge(assembly.nodes, ordered[i]));
        assert(ordered.contains(ordered[i]));
        ranked_same_items::<KeyEdge>(assembly.edges, ordered[i]);
        let j = choose|j: int| 0 <= j < assembly.edges.len() && assembly.edges[j] == ordered[i];
        assert(edge_known(assembly, assembly.edges[j]));
    }
}

/// The graphs in the order of their source roots are sound where they are.
pub proof fn ordered_graphs_sound(graphs: Seq<ProjectGraphView>)
    requires
        locals_sound(graphs),
    ensures
        locals_sound(ranked::<&ProjectGraph>(graphs)),
        locals_valid(ranked::<&ProjectGraph>(graphs)),
{
    let ordered = ranked::<&ProjectGraph>(graphs);
    assert forall|i: int| 0 <= i < ordered.len() implies local_sound(#[trigger] ordered[i]) by {
        assert(ordered.contains(ordered[i]));
        ranked_same_items::<&ProjectGraph>(graphs, ordered[i]);
        let j = choose|j: int| 0 <= j < graphs.len() && graphs[j] == ordered[i];
        assert(local_sound(graphs[j]));
    }
    assert forall|i: int| 0 <= i < ordered.len() implies local_valid(#[trigger] ordered[i]) by {
        assert(local_sound(ordered[i]));
    }
}

/// A composed graph holds exactly the projects of the graphs that it is made of,
/// and its numbers and projects belong together.
pub proof fn composition_keeps_projects(
    registry: RegistryView,
    aliases: Map<Seq<char>, Seq<char>>,
    graphs: Seq<ProjectGraphView>,
)
    requires
        locals_sound(graphs),
        links_reach(registry, aliases, graphs),
        composable(graphs),
        composed(registry, aliases, graphs) is Ok,
    ensures
        graph_valid(composed(registry, aliases, graphs)->Ok_0),
        forall|key: ProjectKeyView| #[trigger]
            composed(registry, aliases, graphs)->Ok_0.nodes.dom().contains(key) <==> in_some_graph(
                graphs,
                key,
            ),
{
    let ordered = ranked::<&ProjectGraph>(graphs);
    ordered_graphs_sound(graphs);
    let assembly = assemble(ordered)->Ok_0;
    assembled_is_sound(ordered, assembly);
    let resolved = resolve_all(registry, aliases, assembly, assembly.cross)->Ok_0;
    resolve_all_known(registry, aliases, assembly, assembly.cross, resolved);
    ordered_links_known(assembly, resolved);
    local_edges_within(assembly);
    let start = LinkView { nodes: assembly.nodes, edges: local_edges(assembly) };
    let links = link_all(assembly.contexts, start, ordered_links(resolved))->Ok_0;
    links_keep_projects(assembly, start, ordered_links(resolved), links);
    let graph = composed(registry, aliases, graphs)->Ok_0;
    assert(graph.nodes == links.nodes);
    assert forall|key: ProjectKeyView| #[trigger] graph.nodes.dom().contains(key)
        <==> in_some_graph(graphs, key) by {
        assembled_projects(ordered, assembly, key);
        if in_some_graph(ordered, key) {
            let i = choose|i: int|
                0 <= i < ordered.len() && (#[trigger] ordered[i]).nodes.dom().contains(key);
            assert(ordered.contains(ordered[i]));
            ranked_same_items::<&ProjectGraph>(graphs, ordered[i]);
            let j = choose|j: int| 0 <= j < graphs.len() && graphs[j] == ordered[i];
            assert(graphs[j].nodes.dom().contains(key));
        }
        if in_some_graph(graphs, key) {
            let i = choose|i: int|
                0 <= i < graphs.len() && (#[trigger] graphs[i]).nodes.dom().contains(key);
            assert(graphs.contains(graphs[i]));
            ranked_same_items::<&ProjectGraph>(graphs, graphs[i]);
            let j = choose|j: int| 0 <= j < ordered.len() && ordered[j] == graphs[i];
            assert(ordered[j].nodes.dom().contains(key));
        }
    }
    assert forall|key: ProjectKeyView| #[trigger] graph.nodes.dom().contains(key) implies graph.nodes[key].index
        < graph.indexes.len() && valid_id(graph.nodes[key].project.id) by {
        assert(assembly.nodes.dom().contains(key));
    }
    assert forall|i: int| 0 <= i < graph.indexes.len() implies graph.nodes.dom().contains(
        #[trigger] graph.indexes[i],
    ) by {
        assert(assembly.nodes.dom().contains(assembly.indexes[i]));
    }
}

/// Every project has a number of its own, under which its key is listed.
pub open spec fn projects_numbered(graph: ProjectGraphView) -> bool {
    &&& forall|i: int|
        0 <= i < graph.indexes.len() ==> graph.nodes[#[trigger] graph.indexes[i]].index == i
    &&& forall|key: ProjectKeyView| #[trigger]
        graph.nodes.dom().contains(key) ==> graph.indexes[graph.nodes[key].index as int] == key
}

/// Every project that was put together has a number of its own, under which its key is listed.
pub open spec fn assembly_numbered(assembly: AssemblyView) -> bool {
    &&& forall|i: int|
        0 <= i < assembly.indexes.len() ==> assembly.nodes.dom().contains(
            #[trigger] assembly.indexes[i],
        ) && assembly.nodes[assembly.indexes[i]].index == i
    &&& forall|key: ProjectKeyView| #[trigger]
        assembly.nodes.dom().contains(key) ==> assembly.nodes[key].index < assembly.indexes.len()
            && assembly.indexes[assembly.nodes[key].index as int] == key
}

/// Adding projects that are not there yet keeps the numbers apart.
proof fn add_projects_numbered(
    assembly: AssemblyView,
    keys: Seq<ProjectKeyView>,
    nodes: Map<ProjectKeyView, ProjectNodeView>,
)
    requires
        assembly_numbered(assembly),
        keys.no_duplicates(),
        forall|i: int|
            0 <= i < keys.len() ==> !assembly.nodes.dom().contains(#[trigger] keys[i]),
        assembly.indexes.len() + keys.len() <= usize::MAX,
    ensures
        assembly_numbered(add_projects(assembly, keys, nodes)),
    decreases keys.len(),
{
    if keys.len() > 0 {
        let rest = keys.drop_last();
        let key = keys.last();
        let before = add_projects(assembly, rest, nodes);
        let more = add_projects(assembly, keys, nodes);
        assert forall|i: int| 0 <= i < rest.len() implies !assembly.nodes.dom().contains(
            #[trigger] rest[i],
        ) by {
            assert(rest[i] == keys[i]);
        }
        add_projects_numbered(assembly, rest, nodes);
        crate::project_compose::add_projects_grows(assembly, rest, nodes);
        assert(!assembly.nodes.dom().contains(keys[keys.len() - 1]));
        assert(!rest.contains(key));
        assert(!before.nodes.dom().contains(key));
        assert forall|i: int| 0 <= i < more.indexes.len() implies more.nodes.dom().contains(
            #[trigger] more.indexes[i],
        ) && more.nodes[more.indexes[i]].index == i by {
            if i < before.indexes.len() {
                assert(more.indexes[i] == before.indexes[i]);
            }
        }
        assert forall|other: ProjectKeyView| #[trigger]
            more.nodes.dom().contains(other) implies more.nodes[other].index < more.indexes.len()
            && more.indexes[more.nodes[other].index as int] == other by {
            if other != key {
                assert(before.nodes.dom().contains(other));
            }
        }
    }
}

/// Every project of a graph belongs to its source root.
pub open spec fn owns_projects(local: ProjectGraphView) -> bool {
    forall|key: ProjectKeyView| #[trigger]
        local.nodes.dom().contains(key) ==> key.source == local.context.registry.primary
}

/// Every graph holds projects of its own source root alone, and no two have the same one.
pub open spec fn sources_apart(graphs: Seq<ProjectGraphView>) -> bool {
    &&& forall|i: int| 0 <= i < graphs.len() ==> owns_projects(#[trigger] graphs[i])
    &&& forall|i: int, j: int|
        0 <= i < j < graphs.len() ==> (#[trigger] graphs[i]).context.registry.primary != (
        #[trigger] graphs[j]).context.registry.primary
}

/// Graphs of different source roots are numbered apart when put together.
pub proof fn assembled_is_numbered(graphs: Seq<ProjectGraphView>, assembly: AssemblyView)
    requires
        locals_valid(graphs),
        sources_apart(graphs),
        assemble(graphs) == Ok::<AssemblyView, ProjectGraphFault>(assembly),
        assembly.indexes.len() <= usize::MAX,
    ensures
        assembly_numbered(assembly),
    decreases graphs.len(),
{
    if graphs.len() > 0 {
        let rest = graphs.drop_last();
        let local = graphs.last();
        let before = assemble(rest)->Ok_0;
        let keys = keys_in_order(local.nodes);
        assert(local_valid(graphs[graphs.len() - 1]));
        assert(owns_projects(graphs[graphs.len() - 1]));
        assert forall|i: int| 0 <= i < rest.len() implies local_valid(#[trigger] rest[i])
            && owns_projects(rest[i]) by {
            assert(local_valid(graphs[i]));
            assert(owns_projects(graphs[i]));
        }
        assert forall|i: int, j: int| 0 <= i < j < rest.len() implies (
        #[trigger] rest[i]).context.registry.primary != (
        #[trigger] rest[j]).context.registry.primary by {
            assert(graphs[i].context.registry.primary != graphs[j].context.registry.primary);
        }
        crate::project_compose::add_projects_grows(before, keys, local.nodes);
        assembled_is_numbered(rest, before);
        project_keys_rank();
        arranged_holds::<ProjectKey>(local.nodes.dom());
        assert forall|i: int| 0 <= i < keys.len() implies !before.nodes.dom().contains(
            #[trigger] keys[i],
        ) by {
            assert(keys.contains(keys[i]));
            assert(local.nodes.dom().contains(keys[i]));
            assembled_projects(rest, before, keys[i]);
            if in_some_graph(rest, keys[i]) {
                let j = choose|j: int|
                    0 <= j < rest.len() && (#[trigger] rest[j]).nodes.dom().contains(keys[i]);
                assert(owns_projects(rest[j]));
                assert(graphs[j].context.registry.primary != graphs[graphs.len()
                    - 1].context.registry.primary);
            }
        }
        add_projects_numbered(before, keys, local.nodes);
    }
}

/// Graphs of different source roots stay so in the order of their source roots.
pub proof fn ordered_graphs_apart(graphs: Seq<ProjectGraphView>)
    requires
        sources_apart(graphs),
    ensures
        sources_apart(ranked::<&ProjectGraph>(graphs)),
{
    let ordered = ranked::<&ProjectGraph>(graphs);
    assert forall|i: int, j: int| 0 <= i < graphs.len() && 0 <= j < graphs.len() && i
        != j implies graphs[i] != graphs[j] by {
        if i < j {
            assert(graphs[i].context.registry.primary != graphs[j].context.registry.primary);
        } else {
            assert(graphs[j].context.registry.primary != graphs[i].context.registry.primary);
        }
    }
    assert(graphs.no_duplicates());
    graphs.lemma_multiset_has_no_duplicates();
    ranked_is_permutation::<&ProjectGraph>(graphs);
    ordered.lemma_multiset_has_no_duplicates_conv();
    assert forall|i: int| 0 <= i < ordered.len() implies owns_projects(#[trigger] ordered[i]) by {
        assert(ordered.contains(ordered[i]));
        ranked_same_items::<&ProjectGraph>(graphs, ordered[i]);
        let j = choose|j: int| 0 <= j < graphs.len() && graphs[j] == ordered[i];
        assert(owns_projects(graphs[j]));
    }
    assert forall|i: int, j: int| 0 <= i < j < ordered.len() implies (
    #[trigger] ordered[i]).context.registry.primary != (
    #[trigger] ordered[j]).context.registry.primary by {
        assert(ordered.contains(ordered[i]));
        assert(ordered.contains(ordered[j]));
        ranked_same_items::<&ProjectGraph>(graphs, ordered[i]);
        ranked_same_items::<&ProjectGraph>(graphs, ordered[j]);
        let a = choose|a: int| 0 <= a < graphs.len() && graphs[a] == ordered[i];
        let b = choose|b: int| 0 <= b < graphs.len() && graphs[b] == ordered[j];
        assert(a != b);
        if a < b {
            assert(graphs[a].context.registry.primary != graphs[b].context.registry.primary);
        } else {
            assert(graphs[b].context.registry.primary != graphs[a].context.registry.primary);
        }
    }
}

/// Every project of a composed graph has a number of its own, where each graph holds projects
/// of its own source root alone and no two have the same source root.
pub proof fn composition_numbers_projects(
    registry: RegistryView,
    aliases: Map<Seq<char>, Seq<char>>,
    graphs: Seq<ProjectGraphView>,
)
    requires
        locals_sound(graphs),
        sources_apart(graphs),
        links_reach(registry, aliases, graphs),
        composable(graphs),
        composed(registry, aliases, graphs) is Ok,
    ensures
        projects_numbered(composed(registry, aliases, graphs)->Ok_0),
{
    let ordered = ranked::<&ProjectGraph>(graphs);
    ordered_graphs_sound(graphs);
    ordered_graphs_apart(graphs);
    let assembly = assemble(ordered)->Ok_0;
    assembled_is_sound(ordered, assembly);
    assembled_is_numbered(ordered, assembly);
    let resolved = resolve_all(registry, aliases, assembly, assembly.cross)->Ok_0;
    resolve_all_known(registry, aliases, assembly, assembly.cross, resolved);
    ordered_links_known(assembly, resolved);
    local_edges_within(assembly);
    let start = LinkView { nodes: assembly.nodes, edges: local_edges(assembly) };
    let links = link_all(assembly.contexts, start, ordered_links(resolved))->Ok_0;
    links_keep_projects(assembly, start, ordered_links(resolved), links);
    let graph = composed(registry, aliases, graphs)->Ok_0;
    assert(graph.nodes == links.nodes);
    assert forall|i: int| 0 <= i < graph.indexes.len() implies graph.nodes[
        #[trigger] graph.indexes[i]].index == i by {
        assert(assembly.nodes.dom().contains(assembly.indexes[i]));
    }
    assert forall|key: ProjectKeyView| #[trigger]
        graph.nodes.dom().contains(key) implies graph.indexes[graph.nodes[key].index as int]
        == key by {
        assert(assembly.nodes.dom().contains(key));
    }
}

/// The keys of the neighbors of a project, in the graph or in one of its parts.
pub open spec fn project_neighbors(
    graph: ProjectGraphView,
    edges: Seq<(usize, usize, u8)>,
    key: ProjectKeyView,
    direction: Direction,
) -> Seq<ProjectKeyView> {
    keys_at(graph, neighbors(edges, graph.nodes[key].index, direction))
}

/// A project depends on another exactly where it is among the dependents of the other, in the
/// graph and in each of its parts.
pub proof fn dependents_mirror_dependencies(
    graph: ProjectGraphView,
    edges: Seq<(usize, usize, u8)>,
    key: ProjectKeyView,
    other: ProjectKeyView,
)
    requires
        graph_valid(graph),
        projects_numbered(graph),
        edges_within(edges, graph.graph.nodes),
        graph.nodes.dom().contains(key),
        graph.nodes.dom().contains(other),
    ensures
        project_neighbors(graph, edges, key, Direction::Outgoing).contains(other)
            <==> project_neighbors(graph, edges, other, Direction::Incoming).contains(key),
{
    let from = graph.nodes[key].index;
    let to = graph.nodes[other].index;
    let below = neighbors(edges, from, Direction::Outgoing);
    let above = neighbors(edges, to, Direction::Incoming);
    neighbors_are_edges(edges, from, Direction::Outgoing, to);
    neighbors_are_edges(edges, to, Direction::Incoming, from);
    if below.contains(to) {
        let i = choose|i: int| 0 <= i < below.len() && below[i] == to;
        assert(keys_at(graph, below)[i] == other);
    }
    if above.contains(from) {
        let i = choose|i: int| 0 <= i < above.len() && above[i] == from;
        assert(keys_at(graph, above)[i] == key);
    }
    if keys_at(graph, below).contains(other) {
        let i = choose|i: int| 0 <= i < below.len() && keys_at(graph, below)[i] == other;
        assert(below.contains(below[i]));
        neighbors_are_edges(edges, from, Direction::Outgoing, below[i]);
        assert(graph.indexes[below[i] as int] == other);
        assert(below[i] == to);
    }
    if keys_at(graph, above).contains(key) {
        let i = choose|i: int| 0 <= i < above.len() && keys_at(graph, above)[i] == key;
        assert(above.contains(above[i]));
        neighbors_are_edges(edges, to, Direction::Incoming, above[i]);
        assert(graph.indexes[above[i] as int] == key);
        assert(above[i] == from);
    }
}

/// Some walk over one or more edges of a part leads from one project to the other.
pub open spec fn part_leads_to(
    graph: ProjectGraphView,
    partition: ScopePartition,
    direction: Direction,
    key: ProjectKeyView,
    other: ProjectKeyView,
) -> bool {
    exists|steps: nat|
        steps > 0 && #[trigger] steps_to(
            partition_edges(graph.graph.edges, partition),
            direction,
            graph.nodes[key].index,
            graph.nodes[other].index,
            steps,
        )
}

/// How far one project is from another in one part of the graph.
pub open spec fn part_distance(
    graph: ProjectGraphView,
    partition: ScopePartition,
    direction: Direction,
    key: ProjectKeyView,
    other: ProjectKeyView,
) -> nat {
    distance(
        partition_edges(graph.graph.edges, partition),
        direction,
        graph.nodes[key].index,
        graph.nodes[other].index,
    )
}

/// The walk from a project over the edges of one part lists exactly the projects that the
/// project leads to over one or more of these edges: each once, never the project itself, and
/// nearer ones before those that are further away.
pub proof fn part_walks_list_what_is_reached(
    graph: ProjectGraphView,
    project: ProjectView,
    partition: ScopePartition,
    direction: Direction,
)
    requires
        graph_valid(graph),
        scoped_valid(graph.graph),
        projects_numbered(graph),
        has_project(graph, project),
    ensures
        ({
            let key = key_of_project(project);
            let keys = partition_reached_keys(graph, project, partition, direction);
            &&& keys.no_duplicates()
            &&& !keys.contains(key)
            &&& forall|other: ProjectKeyView|
                graph.nodes.dom().contains(other) ==> (#[trigger] keys.contains(other)
                    <==> part_leads_to(graph, partition, direction, key, other))
            &&& forall|other: ProjectKeyView| #[trigger]
                keys.contains(other) ==> graph.nodes.dom().contains(other)
            &&& forall|i: int, j: int|
                0 <= i <= j < keys.len() ==> part_distance(
                    graph,
                    partition,
                    direction,
                    key,
                    #[trigger] keys[i],
                ) <= part_distance(graph, partition, direction, key, #[trigger] keys[j])
        }),
{
    let key = key_of_project(project);
    let start = graph.nodes[key].index;
    let edges = partition_edges(graph.graph.edges, partition);
    let nodes = graph.graph.nodes;
    let seen = breadth_first(edges, nodes, start, direction);
    let rest = seen.skip(1);
    let keys = partition_reached_keys(graph, project, partition, direction);
    partition_edges_within(graph.graph.edges, partition, nodes);
    breadth_first_meets(edges, nodes, start, direction);
    assert(keys =~= keys_at(graph, rest));
    assert forall|i: int| 0 <= i < keys.len() implies {
        &&& #[trigger] keys[i] == graph.indexes[seen[i + 1] as int]
        &&& graph.nodes.dom().contains(keys[i])
        &&& graph.nodes[keys[i]].index == seen[i + 1]
    } by {
        assert(rest[i] == seen[i + 1]);
        assert(seen[i + 1] < nodes);
        assert(graph.nodes.dom().contains(graph.indexes[seen[i + 1] as int]));
        assert(graph.nodes[graph.indexes[seen[i + 1] as int]].index == seen[i + 1]);
    }
    assert forall|i: int, j: int| 0 <= i < keys.len() && 0 <= j < keys.len() && i != j implies keys[i]
        != keys[j] by {
        assert(seen[i + 1] != seen[j + 1]);
    }
    assert(!keys.contains(key)) by {
        if keys.contains(key) {
            let i = choose|i: int| 0 <= i < keys.len() && keys[i] == key;
            assert(seen[i + 1] == start);
            assert(seen[0] == start);
        }
    }
    assert forall|other: ProjectKeyView| graph.nodes.dom().contains(other) implies (
    #[trigger] keys.contains(other) <==> part_leads_to(graph, partition, direction, key, other)) by {
        let to = graph.nodes[other].index;
        assert(graph.indexes[to as int] == other);
        if keys.contains(other) {
            let i = choose|i: int| 0 <= i < keys.len() && keys[i] == other;
            assert(seen[i + 1] == to);
            assert(seen.contains(to));
            let steps = walk_that_leads(edges, direction, start, to);
            if steps == 0 {
                assert(to == start);
                assert(seen[0] == seen[i + 1]);
            }
            assert(steps_to(edges, direction, start, to, steps));
        }
        if part_leads_to(graph, partition, direction, key, other) {
            let steps = choose|steps: nat|
                steps > 0 && #[trigger] steps_to(edges, direction, start, to, steps);
            steps_lead(edges, direction, start, to, steps);
            assert(seen.contains(to));
            let i = choose|i: int| 0 <= i < seen.len() && seen[i] == to;
            if i == 0 {
                no_way_back(edges, direction, start, steps);
            }
            assert(keys[i - 1] == graph.indexes[seen[i - 1 + 1] as int]);
            assert(keys.contains(other));
        }
    }
    assert forall|i: int, j: int| 0 <= i <= j < keys.len() implies part_distance(
        graph,
        partition,
        direction,
        key,
        #[trigger] keys[i],
    ) <= part_distance(graph, partition, direction, key, #[trigger] keys[j]) by {
        assert(distance(edges, direction, start, seen[i + 1]) <= distance(
            edges,
            direction,
            start,
            seen[j + 1],
        ));
    }
}

/// A walk over edges connects.
proof fn steps_lead(
    edges: Seq<(usize, usize, u8)>,
    direction: Direction,
    from: usize,
    to: usize,
    steps: nat,
)
    requires
        steps_to(edges, direction, from, to, steps),
    ensures
        leads_to(edges, direction, from, to),
{
    match direction {
        Direction::Outgoing => {
            assert(walk(edges, from, to, steps));
        },
        Direction::Incoming => {
            assert(walk(edges, to, from, steps));
        },
    }
}

/// A walk that connects.
proof fn walk_that_leads(
    edges: Seq<(usize, usize, u8)>,
    direction: Direction,
    from: usize,
    to: usize,
) -> (steps: nat)
    requires
        leads_to(edges, direction, from, to),
    ensures
        steps_to(edges, direction, from, to, steps),
{
    match direction {
        Direction::Outgoing => choose|steps: nat| walk(edges, from, to, steps),
        Direction::Incoming => choose|steps: nat| walk(edges, to, from, steps),
    }
}

/// A project is among those that another depends on, in one part and over any number of
/// edges, exactly where the other is among those that depend on it.
pub proof fn part_walks_mirror_each_other(
    graph: ProjectGraphView,
    project: ProjectView,
    other: ProjectView,
    partition: ScopePartition,
)
    requires
        graph_valid(graph),
        scoped_valid(graph.graph),
        projects_numbered(graph),
        has_project(graph, project),
        has_project(graph, other),
    ensures
        partition_reached_keys(graph, project, partition, Direction::Outgoing).contains(
            key_of_project(other),
        ) <==> partition_reached_keys(graph, other, partition, Direction::Incoming).contains(
            key_of_project(project),
        ),
{
    let a = key_of_project(project);
    let b = key_of_project(other);
    let edges = partition_edges(graph.graph.edges, partition);
    let from = graph.nodes[a].index;
    let to = graph.nodes[b].index;
    part_walks_list_what_is_reached(graph, project, partition, Direction::Outgoing);
    part_walks_list_what_is_reached(graph, other, partition, Direction::Incoming);
    if part_leads_to(graph, partition, Direction::Outgoing, a, b) {
        let steps = choose|steps: nat|
            steps > 0 && #[trigger] steps_to(edges, Direction::Outgoing, from, to, steps);
        assert(steps_to(edges, Direction::Incoming, to, from, steps));
    }
    if part_leads_to(graph, partition, Direction::Incoming, b, a) {
        let steps = choose|steps: nat|
            steps > 0 && #[trigger] steps_to(edges, Direction::Incoming, to, from, steps);
        assert(steps_to(edges, Direction::Outgoing, from, to, steps));
    }
}

} // verus!
