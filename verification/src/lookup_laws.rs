//! Which project or task a name, a key, a target or a path leads to.

use crate::config::ProjectView;
use crate::id::valid_id;
use crate::keys::{project_key_text, ProjectKeyView, TaskKeyView};
use crate::path::{clean_path, components, logical_join, relative_parts};
use crate::project_graph::{
    depth_below, get_project, resolved_key, search_among, unexpanded, AliasView, ProjectGraphFault,
    ProjectGraphView,
};
use crate::project_queries::scoped_dependencies;
use crate::source::{owns_path, resolve_path, RegistryView, SourcePathView};
use crate::task::{key_of_target, ProjectSelector, TargetView, TaskSelector};
use crate::task_graph::{unexpanded_target, unexpanded_task, TaskGraphFault, TaskGraphView};
use crate::task_queries::{found_all, task_expansion};
use vstd::prelude::*;

verus! {

/// A name leads to a project of the primary source root: the one with the identifier, and where
/// there is none the one that the name stands for.
pub open spec fn names_project(
    graph: ProjectGraphView,
    name: Seq<char>,
    key: ProjectKeyView,
) -> bool {
    let primary = graph.context.registry.primary;
    let direct = ProjectKeyView { source: primary, project: name };
    let alias = AliasView { source: primary, alias: name };
    &&& valid_id(name)
    &&& graph.nodes.dom().contains(key)
    &&& if graph.nodes.dom().contains(direct) {
        key == direct
    } else {
        graph.aliases.dom().contains(alias) && graph.aliases[alias] == key
    }
}

/// A project is found by a name exactly where the name leads to one, and it is that with all
/// but its dependencies as they were configured.
pub proof fn names_lead_to_projects(graph: ProjectGraphView, name: Seq<char>, key: ProjectKeyView)
    requires
        graph.context.registry.primary != "workspace"@ ==> forall|other: ProjectKeyView| #[trigger]
            graph.nodes.dom().contains(other) ==> other.source != "workspace"@,
    ensures
        names_project(graph, name, key) ==> {
            let found = get_project(graph, name);
            &&& found is Ok
            &&& found->Ok_0 == (ProjectView {
                dependencies: found->Ok_0.dependencies,
                ..graph.nodes[key].project
            })
        },
        get_project(graph, name) is Ok ==> exists|other: ProjectKeyView| #[trigger]
            names_project(graph, name, other),
        !valid_id(name) ==> get_project(graph, name) == Err::<ProjectView, ProjectGraphFault>(
            ProjectGraphFault::InvalidId { id: name },
        ),
{
    if get_project(graph, name) is Ok {
        let other = resolved_key(graph, graph.context.registry.primary, name)->Ok_0;
        assert(graph.nodes.dom().contains(other));
        assert(names_project(graph, name, other));
    }
}

/// A project is found by its key, where `workspace` stands for the primary source root.
pub proof fn keys_lead_to_projects(graph: ProjectGraphView, key: ProjectKeyView)
    ensures
        ({
            let held = if key.source == "workspace"@ {
                ProjectKeyView {
                    source: graph.context.registry.primary,
                    project: key.project,
                }
            } else {
                key
            };
            &&& unexpanded(graph, key) is Ok <==> graph.nodes.dom().contains(held)
            &&& unexpanded(graph, key) matches Ok(project) ==> project == graph.nodes[held].project
            &&& unexpanded(graph, key) is Err ==> unexpanded(graph, key) == Err::<
                ProjectView,
                ProjectGraphFault,
            >(ProjectGraphFault::UnconfiguredId { id: project_key_text(held) })
        }),
{
}

/// A task is found by its key exactly where the graph has it, and by a target exactly where
/// that names both a project and a task of the primary source root.
pub proof fn targets_lead_to_tasks(graph: TaskGraphView, key: TaskKeyView, target: TargetView)
    ensures
        unexpanded_task(graph, key) is Ok <==> graph.nodes.dom().contains(key),
        unexpanded_task(graph, key) matches Ok(task) ==> task == graph.nodes[key].task,
        unexpanded_target(graph, target) is Ok ==> target.project is Id && target.task is Id,
        match (target.project, target.task) {
            (ProjectSelector::Id(project), TaskSelector::Id(task)) => {
                let named = TaskKeyView {
                    project: ProjectKeyView { source: graph.context.registry.primary, project },
                    task,
                };
                valid_id(project) && valid_id(task) ==> unexpanded_target(graph, target)
                    == unexpanded_task(graph, named)
            },
            _ => unexpanded_target(graph, target) matches Err(
                TaskGraphFault::UnqualifiedTarget { .. },
            ),
        },
{
}

/// A target names a task of a source root by the identifiers of its project and its own, and
/// no two targets name the same task.
pub proof fn targets_name_one_task(source: Seq<char>, first: TargetView, second: TargetView)
    ensures
        key_of_target(source, first) matches Some(key) ==> key.project.source == source
            && first.project == ProjectSelector::Id(key.project.project) && first.task
            == TaskSelector::Id(key.task) && valid_id(key.project.project) && valid_id(key.task),
        key_of_target(source, first) is Some && key_of_target(source, first) == key_of_target(
            source,
            second,
        ) ==> first == second,
{
}

/// A task is expanded in the context of its own source root where that has one, and with the
/// project that it belongs to.
pub proof fn tasks_are_expanded_at_home(graph: TaskGraphView, key: TaskKeyView)
    ensures
        task_expansion(graph, key) is Ok <==> unexpanded(graph.projects, key.project) is Ok
            && graph.nodes.dom().contains(key),
        task_expansion(graph, key) matches Ok(expansion) ==> {
            &&& expansion.task == graph.nodes[key].task
            &&& expansion.project == unexpanded(graph.projects, key.project)->Ok_0
            &&& graph.contexts.dom().contains(key.project.source) ==> expansion.context
                == graph.contexts[key.project.source]
            &&& !graph.contexts.dom().contains(key.project.source) ==> expansion.context
                == graph.context
        },
{
}

/// Looking up many items finds all of them, each at its place, or reports the first that is
/// not found.
pub proof fn many_are_found_in_order<A, B, E>(found: spec_fn(A) -> Result<B, E>, items: Seq<A>)
    ensures
        match found_all(found, items) {
            Ok(all) => {
                &&& all.len() == items.len()
                &&& forall|i: int|
                    0 <= i < items.len() ==> found(#[trigger] items[i]) == Ok::<B, E>(all[i])
            },
            Err(fault) => exists|i: int|
                0 <= i < items.len() && found(#[trigger] items[i]) == Err::<B, E>(fault) && forall|
                    j: int,
                |
                    0 <= j < i ==> found(#[trigger] items[j]) is Ok,
        },
    decreases items.len(),
{
    if items.len() > 0 {
        let rest = items.drop_last();
        let last = items.len() - 1;
        many_are_found_in_order(found, rest);
        match found_all(found, rest) {
            Ok(front) => {
                assert forall|j: int| 0 <= j < last implies found(#[trigger] items[j]) is Ok by {
                    assert(rest[j] == items[j]);
                }
                if let Ok(all) = found_all(found, items) {
                    assert forall|i: int| 0 <= i < items.len() implies found(#[trigger] items[i])
                        == Ok::<B, E>(all[i]) by {
                        if i < last {
                            assert(rest[i] == items[i]);
                        }
                    }
                } else {
                    assert(items[last] == items.last());
                }
            },
            Err(fault) => {
                let i = choose|i: int|
                    0 <= i < rest.len() && found(#[trigger] rest[i]) == Err::<B, E>(fault)
                        && forall|j: int| 0 <= j < i ==> found(#[trigger] rest[j]) is Ok;
                assert(items[i] == rest[i]);
                assert forall|j: int| 0 <= j < i implies found(#[trigger] items[j]) is Ok by {
                    assert(rest[j] == items[j]);
                }
            },
        }
    }
}

/// A path lies in a project of its source root.
pub open spec fn lies_in(
    graph: ProjectGraphView,
    key: ProjectKeyView,
    search: SourcePathView,
) -> bool {
    &&& graph.nodes.dom().contains(key)
    &&& key.source == (if search.source == "workspace"@ {
        graph.context.registry.primary
    } else {
        search.source
    })
    &&& components(graph.nodes[key].project.source).is_prefix_of(
        components(
            if search.path.len() == 0 {
                "."@
            } else {
                search.path
            },
        ),
    )
}

/// A path leads to the innermost project that it lies in, and to none where it lies in none.
pub proof fn paths_lead_to_the_innermost_project(
    graph: ProjectGraphView,
    keys: Seq<ProjectKeyView>,
    search: SourcePathView,
)
    ensures
        match search_among(graph, keys, search) {
            None => forall|i: int|
                0 <= i < keys.len() ==> !lies_in(graph, #[trigger] keys[i], search),
            Some(key) => {
                &&& keys.contains(key)
                &&& lies_in(graph, key, search)
                &&& forall|i: int|
                    0 <= i < keys.len() && lies_in(graph, #[trigger] keys[i], search)
                        ==> components(graph.nodes[keys[i]].project.source).len() <= components(
                        graph.nodes[key].project.source,
                    ).len()
            },
        },
    decreases keys.len(),
{
    assert forall|key: ProjectKeyView| lies_in(graph, key, search) <==> (#[trigger] depth_below(
        graph,
        key,
        search,
    )) is Some by {}
    if keys.len() > 0 {
        let rest = keys.drop_last();
        let last = keys.len() - 1;
        paths_lead_to_the_innermost_project(graph, rest, search);
        assert(keys[last] == keys.last());
        assert forall|i: int| 0 <= i < last implies #[trigger] keys[i] == rest[i] by {}
        assert(depth_below(graph, keys.last(), search) is Some <==> lies_in(
            graph,
            keys.last(),
            search,
        ));
        if let Some(key) = search_among(graph, rest, search) {
            let i = choose|i: int| 0 <= i < rest.len() && rest[i] == key;
            assert(keys[i] == key);
            assert(depth_below(graph, key, search) is Some);
            assert forall|i: int|
                0 <= i < last && lies_in(graph, #[trigger] keys[i], search) implies components(
                graph.nodes[keys[i]].project.source,
            ).len() <= components(graph.nodes[key].project.source).len() by {
                assert(lies_in(graph, rest[i], search));
            }
        } else {
            assert forall|i: int| 0 <= i < last implies !lies_in(
                graph,
                #[trigger] keys[i],
                search,
            ) by {
                assert(!lies_in(graph, rest[i], search));
            }
        }
    }
}

/// The dependencies of a project are the ends of its edges, each in the scope of the edge.
pub proof fn dependencies_are_the_ends_of_edges(
    graph: ProjectGraphView,
    edges: Seq<(usize, usize, u8)>,
    index: usize,
    key: ProjectKeyView,
)
    ensures
        (exists|i: int|
            0 <= i < scoped_dependencies(graph, edges, index).len()
                && (#[trigger] scoped_dependencies(graph, edges, index)[i]).0 == key) <==> exists|
            i: int,
        |
            0 <= i < edges.len() && (#[trigger] edges[i]).0 == index && graph.indexes[edges[i].1
                as int] == key,
    decreases edges.len(),
{
    if edges.len() > 0 {
        let rest = edges.drop_last();
        let last = edges.len() - 1;
        dependencies_are_the_ends_of_edges(graph, rest, index, key);
        let before = scoped_dependencies(graph, rest, index);
        let all = scoped_dependencies(graph, edges, index);
        assert(edges[last] == edges.last());
        if exists|i: int| 0 <= i < all.len() && (#[trigger] all[i]).0 == key {
            let i = choose|i: int| 0 <= i < all.len() && (#[trigger] all[i]).0 == key;
            if i < before.len() {
                assert(before[i] == all[i]);
                let j = choose|j: int|
                    0 <= j < rest.len() && (#[trigger] rest[j]).0 == index
                        && graph.indexes[rest[j].1 as int] == key;
                assert(edges[j] == rest[j]);
            } else {
                assert(edges[last].0 == index);
            }
        }
        if exists|i: int|
            0 <= i < edges.len() && (#[trigger] edges[i]).0 == index && graph.indexes[edges[i].1
                as int] == key {
            let i = choose|i: int|
                0 <= i < edges.len() && (#[trigger] edges[i]).0 == index && graph.indexes[edges[i].1
                    as int] == key;
            if i < last {
                assert(rest[i] == edges[i]);
                let j = choose|j: int| 0 <= j < before.len() && (#[trigger] before[j]).0 == key;
                assert(all[j] == before[j]);
            } else {
                assert(all[before.len() as int].0 == key);
            }
        }
    }
}

/// A source-qualified path leads below the root of its source root, or nowhere; `workspace`
/// stands for the primary source root.
pub proof fn qualified_paths_stay_below_their_root(registry: RegistryView, path: SourcePathView)
    ensures
        ({
            let id = if path.source == "workspace"@ {
                registry.primary
            } else {
                path.source
            };
            match resolve_path(registry, path) {
                Some(resolved) => registry.roots.dom().contains(id) && registry.roots[id].len()
                    <= resolved.len() && forall|i: int|
                    0 <= i < registry.roots[id].len() ==> #[trigger] resolved[i]
                        == registry.roots[id][i],
                None => true,
            }
        }),
        resolve_path(registry, path) is None && registry.roots.dom().contains(path.source)
            && path.source != "workspace"@ ==> !registry.roots[path.source].is_prefix_of(
            clean_path(
                logical_join(registry.roots[path.source], relative_parts(components(path.path))),
            ),
        ),
{
}

/// A path belongs to the innermost source root that contains it.
pub proof fn paths_belong_to_the_innermost_source_root(
    registry: RegistryView,
    id: Seq<char>,
    other: Seq<char>,
    path: Seq<Seq<char>>,
)
    requires
        owns_path(registry, id, path),
        registry.roots.dom().contains(other),
        registry.roots[other].is_prefix_of(path),
    ensures
        registry.roots.dom().contains(id),
        registry.roots[id].is_prefix_of(path),
        registry.roots[other].is_prefix_of(registry.roots[id]),
{
    assert(registry.roots[other].len() <= registry.roots[id].len());
    assert forall|i: int| 0 <= i < registry.roots[other].len() implies registry.roots[other][i]
        == #[trigger] registry.roots[id][i] by {
        assert(registry.roots[id][i] == path[i]);
        assert(registry.roots[other][i] == path[i]);
    }
    assert(registry.roots[id].subrange(0, registry.roots[other].len() as int)
        =~= registry.roots[other]);
}

} // verus!
