//! What holds of the dependencies of tasks, and of the search through them.

use crate::graph::{edges_within, neighbors, neighbors_are_edges, Direction};
use crate::keys::{TaskKey, TaskKeyView};
use crate::order::ranked_same_items;
use crate::task_graph::{task_graph_valid, task_keys_at, TaskGraphView};
use crate::task_queries::{
    first_foreign, less_to_visit, search_closure, sorted_dependencies, task_neighbors,
};
use vstd::prelude::*;

verus! {

/// A task depends on another directly.
pub open spec fn depends_on(graph: TaskGraphView, key: TaskKeyView, other: TaskKeyView) -> bool {
    graph.nodes.dom().contains(key) && task_neighbors(graph, key, Direction::Outgoing).contains(
        other,
    )
}

/// A task leads to another over as many dependencies, all of one source root.
pub open spec fn leads_within(
    graph: TaskGraphView,
    source: Seq<char>,
    from: TaskKeyView,
    to: TaskKeyView,
    steps: nat,
) -> bool
    decreases steps,
{
    if steps == 0 {
        from == to
    } else {
        exists|middle: TaskKeyView|
            leads_within(graph, source, from, middle, (steps - 1) as nat) && #[trigger] depends_on(
                graph,
                middle,
                to,
            ) && to.project.source == source
    }
}

/// A dependency on another source root in the closure of a task.
pub open spec fn foreign_in_closure(
    graph: TaskGraphView,
    key: TaskKeyView,
    foreign: TaskKeyView,
) -> bool {
    foreign.project.source != key.project.source && exists|owner: TaskKeyView, steps: nat|
        #[trigger] leads_within(graph, key.project.source, key, owner, steps) && depends_on(
            graph,
            owner,
            foreign,
        )
}

/// The first foreign key is foreign and among the keys, and there is one where any
/// key is foreign.
proof fn first_foreign_is(keys: Seq<TaskKeyView>, source: Seq<char>)
    ensures
        match first_foreign(keys, source) {
            Some(key) => keys.contains(key) && key.project.source != source,
            None => forall|key: TaskKeyView| #[trigger]
                keys.contains(key) ==> key.project.source == source,
        },
    decreases keys.len(),
{
    if keys.len() > 0 {
        let rest = keys.skip(1);
        first_foreign_is(rest, source);
        if keys[0].project.source == source {
            match first_foreign(rest, source) {
                Some(key) => {
                    let i = choose|i: int| 0 <= i < rest.len() && rest[i] == key;
                    assert(keys[i + 1] == key);
                },
                None => {
                    assert forall|key: TaskKeyView| #[trigger] keys.contains(key) implies key.project.source
                        == source by {
                        let i = choose|i: int| 0 <= i < keys.len() && keys[i] == key;
                        if i > 0 {
                            assert(rest[i - 1] == key);
                            assert(rest.contains(key));
                        }
                    }
                },
            }
        } else {
            assert(keys.contains(keys[0]));
        }
    }
}

/// All dependencies of what was visited are of the source root, and were visited or
/// are still to be visited.
spec fn visited_closed(
    graph: TaskGraphView,
    source: Seq<char>,
    visited: Set<TaskKeyView>,
    pending: Seq<TaskKeyView>,
) -> bool {
    forall|key: TaskKeyView, other: TaskKeyView|
        visited.contains(key) && #[trigger] depends_on(graph, key, other) ==> other.project.source
            == source && (visited.contains(other) || pending.contains(other))
}

/// A search that finds nothing has visited everything that it leads to.
proof fn search_visits_all(
    graph: TaskGraphView,
    source: Seq<char>,
    visited: Set<TaskKeyView>,
    pending: Seq<TaskKeyView>,
) -> (all: Set<TaskKeyView>)
    requires
        graph.nodes.dom().finite(),
        visited_closed(graph, source, visited, pending),
        search_closure(graph, source, visited, pending) is None,
    ensures
        visited.subset_of(all),
        forall|key: TaskKeyView| pending.contains(key) ==> #[trigger] all.contains(key),
        visited_closed(graph, source, all, Seq::empty()),
    decreases graph.nodes.dom().difference(visited).len(), pending.len(),
{
    if pending.len() == 0 {
        assert forall|key: TaskKeyView, other: TaskKeyView|
            visited.contains(key) && #[trigger] depends_on(
                graph,
                key,
                other,
            ) implies other.project.source == source && visited.contains(other) by {
            assert(!pending.contains(other));
        }
        visited
    } else {
        let current = pending[0];
        let rest = pending.skip(1);
        less_to_visit(graph.nodes.dom(), visited, current);
        assert forall|key: TaskKeyView| pending.contains(key) implies key == current
            || rest.contains(key) by {
            let i = choose|i: int| 0 <= i < pending.len() && pending[i] == key;
            if i > 0 {
                assert(rest[i - 1] == key);
            }
        }
        if visited.contains(current) {
            search_visits_all(graph, source, visited, rest)
        } else if !graph.nodes.dom().contains(current) {
            search_visits_all(graph, source, visited.insert(current), rest)
        } else {
            let dependencies = sorted_dependencies(graph, current);
            let more = rest + dependencies;
            let neighbors = task_neighbors(graph, current, Direction::Outgoing);
            first_foreign_is(dependencies, source);
            assert forall|key: TaskKeyView| rest.contains(key) || dependencies.contains(
                key,
            ) implies more.contains(key) by {
                if rest.contains(key) {
                    let i = choose|i: int| 0 <= i < rest.len() && rest[i] == key;
                    assert(more[i] == key);
                } else {
                    let i = choose|i: int| 0 <= i < dependencies.len() && dependencies[i] == key;
                    assert(more[rest.len() + i] == key);
                }
            }
            assert forall|key: TaskKeyView, other: TaskKeyView|
                visited.insert(current).contains(key) && #[trigger] depends_on(
                    graph,
                    key,
                    other,
                ) implies other.project.source == source && (visited.insert(current).contains(other)
                || more.contains(other)) by {
                if key == current {
                    ranked_same_items::<TaskKey>(neighbors, other);
                    assert(dependencies.contains(other));
                }
            }
            let all = search_visits_all(graph, source, visited.insert(current), more);
            assert forall|key: TaskKeyView| pending.contains(key) implies #[trigger] all.contains(
                key,
            ) by {
                if key != current {
                    assert(more.contains(key));
                }
            }
            all
        }
    }
}

/// What a task leads to within its source root is in every closed set that holds it.
proof fn led_to_is_inside(
    graph: TaskGraphView,
    source: Seq<char>,
    all: Set<TaskKeyView>,
    from: TaskKeyView,
    to: TaskKeyView,
    steps: nat,
)
    requires
        visited_closed(graph, source, all, Seq::empty()),
        all.contains(from),
        leads_within(graph, source, from, to, steps),
    ensures
        all.contains(to),
    decreases steps,
{
    if steps > 0 {
        let middle = choose|middle: TaskKeyView|
            leads_within(graph, source, from, middle, (steps - 1) as nat) && #[trigger] depends_on(
                graph,
                middle,
                to,
            ) && to.project.source == source;
        led_to_is_inside(graph, source, all, from, middle, (steps - 1) as nat);
        assert(depends_on(graph, middle, to));
    }
}

/// Every key was led to from the first one.
spec fn all_led_to(
    graph: TaskGraphView,
    key: TaskKeyView,
    pending: Seq<TaskKeyView>,
) -> bool {
    forall|i: int| 0 <= i < pending.len() ==> led_to(graph, key, #[trigger] pending[i])
}

/// A key was led to from the first one.
spec fn led_to(graph: TaskGraphView, key: TaskKeyView, other: TaskKeyView) -> bool {
    exists|steps: nat| leads_within(graph, key.project.source, key, other, steps)
}

/// What a search finds is a dependency on another source root in the closure.
proof fn search_finds_foreign(
    graph: TaskGraphView,
    key: TaskKeyView,
    visited: Set<TaskKeyView>,
    pending: Seq<TaskKeyView>,
)
    requires
        graph.nodes.dom().finite(),
        all_led_to(graph, key, pending),
        search_closure(graph, key.project.source, visited, pending) is Some,
    ensures
        foreign_in_closure(
            graph,
            key,
            search_closure(graph, key.project.source, visited, pending)->0,
        ),
    decreases graph.nodes.dom().difference(visited).len(), pending.len(),
{
    let source = key.project.source;
    let current = pending[0];
    let rest = pending.skip(1);
    less_to_visit(graph.nodes.dom(), visited, current);
    assert forall|i: int| 0 <= i < rest.len() implies led_to(graph, key, #[trigger] rest[i]) by {
        assert(led_to(graph, key, pending[i + 1]));
    }
    assert(led_to(graph, key, pending[0]));
    let steps = choose|steps: nat| leads_within(graph, source, key, current, steps);
    if visited.contains(current) {
        search_finds_foreign(graph, key, visited, rest);
    } else if !graph.nodes.dom().contains(current) {
        search_finds_foreign(graph, key, visited.insert(current), rest);
    } else {
        let dependencies = sorted_dependencies(graph, current);
        let neighbors = task_neighbors(graph, current, Direction::Outgoing);
        first_foreign_is(dependencies, source);
        match first_foreign(dependencies, source) {
            Some(found) => {
                ranked_same_items::<TaskKey>(neighbors, found);
                assert(depends_on(graph, current, found));
            },
            None => {
                let more = rest + dependencies;
                assert forall|i: int| 0 <= i < more.len() implies led_to(
                    graph,
                    key,
                    #[trigger] more[i],
                ) by {
                    if i < rest.len() {
                        assert(more[i] == rest[i]);
                    } else {
                        let other = dependencies[i - rest.len()];
                        assert(dependencies.contains(other));
                        ranked_same_items::<TaskKey>(neighbors, other);
                        assert(depends_on(graph, current, other));
                        assert(leads_within(graph, source, key, other, steps + 1));
                    }
                }
                search_finds_foreign(graph, key, visited.insert(current), more);
            },
        }
    }
}

/// The search through the closure of a task finds a dependency on another source root
/// exactly where the closure has one, and what it finds is one.
pub proof fn closure_search_is_exact(graph: TaskGraphView, key: TaskKeyView)
    requires
        graph.nodes.dom().finite(),
    ensures
        match search_closure(graph, key.project.source, Set::empty(), seq![key]) {
            Some(found) => foreign_in_closure(graph, key, found),
            None => forall|foreign: TaskKeyView| !#[trigger] foreign_in_closure(graph, key, foreign),
        },
{
    let source = key.project.source;
    let start = seq![key];
    match search_closure(graph, source, Set::empty(), start) {
        Some(found) => {
            assert(leads_within(graph, source, key, key, 0));
            search_finds_foreign(graph, key, Set::empty(), start);
        },
        None => {
            let all = search_visits_all(graph, source, Set::empty(), start);
            assert(start[0] == key);
            assert(start.contains(key));
            assert forall|foreign: TaskKeyView| !#[trigger] foreign_in_closure(
                graph,
                key,
                foreign,
            ) by {
                if foreign_in_closure(graph, key, foreign) {
                    let (owner, steps) = choose|owner: TaskKeyView, steps: nat|
                        #[trigger] leads_within(graph, source, key, owner, steps) && depends_on(
                            graph,
                            owner,
                            foreign,
                        );
                    led_to_is_inside(graph, source, all, key, owner, steps);
                    assert(depends_on(graph, owner, foreign));
                }
            }
        },
    }
}

/// A task leads, over some steps within its source root, to one that depends on a task of
/// another source root.
pub open spec fn foreign_at(
    graph: TaskGraphView,
    key: TaskKeyView,
    foreign: TaskKeyView,
    steps: nat,
) -> bool {
    foreign.project.source != key.project.source && exists|owner: TaskKeyView|
        leads_within(graph, key.project.source, key, owner, steps) && #[trigger] depends_on(
            graph,
            owner,
            foreign,
        )
}

/// No task of another source root is nearer than a number of steps.
pub open spec fn none_nearer(graph: TaskGraphView, key: TaskKeyView, steps: nat) -> bool {
    forall|other: TaskKeyView, fewer: nat| #[trigger]
        foreign_at(graph, key, other, fewer) ==> steps <= fewer
}

/// A search goes by steps: what takes fewer was visited, what takes as many was visited or is
/// in front, and what takes one more is behind.
spec fn goes_by_steps(
    graph: TaskGraphView,
    key: TaskKeyView,
    visited: Set<TaskKeyView>,
    pending: Seq<TaskKeyView>,
    front: nat,
    steps: nat,
) -> bool {
    let source = key.project.source;
    &&& front <= pending.len()
    &&& visited_closed(graph, source, visited, pending)
    &&& forall|x: TaskKeyView, fewer: nat|
        fewer < steps && #[trigger] leads_within(graph, source, key, x, fewer)
            ==> visited.contains(x)
    &&& forall|x: TaskKeyView|
        #[trigger] leads_within(graph, source, key, x, steps) ==> visited.contains(x)
            || pending.take(front as int).contains(x)
    &&& forall|i: int|
        0 <= i < front ==> leads_within(graph, source, key, #[trigger] pending[i], steps)
    &&& forall|i: int|
        front <= i < pending.len() ==> leads_within(
            graph,
            source,
            key,
            #[trigger] pending[i],
            steps + 1,
        )
}

proof fn search_goes_by_steps(
    graph: TaskGraphView,
    key: TaskKeyView,
    visited: Set<TaskKeyView>,
    pending: Seq<TaskKeyView>,
    front: nat,
    steps: nat,
)
    requires
        graph.nodes.dom().finite(),
        goes_by_steps(graph, key, visited, pending, front, steps),
    ensures
        search_closure(graph, key.project.source, visited, pending) matches Some(found) ==> exists|
            least: nat,
        | #[trigger]
            foreign_at(graph, key, found, least) && none_nearer(graph, key, least),
    decreases graph.nodes.dom().difference(visited).len(), pending.len(), pending.len() - front,
{
    let source = key.project.source;
    if pending.len() > 0 && front == 0 {
        let n = pending.len();
        assert(pending.take(n as int) =~= pending);
        assert forall|x: TaskKeyView, fewer: nat|
            fewer < steps + 1 && #[trigger] leads_within(
                graph,
                source,
                key,
                x,
                fewer,
            ) implies visited.contains(x) by {
            if fewer == steps {
                assert(!pending.take(0).contains(x));
            }
        }
        assert forall|x: TaskKeyView| #[trigger]
            leads_within(graph, source, key, x, steps + 1) implies visited.contains(x)
            || pending.take(n as int).contains(x) by {
            let middle = choose|middle: TaskKeyView|
                leads_within(graph, source, key, middle, steps) && #[trigger] depends_on(
                    graph,
                    middle,
                    x,
                ) && x.project.source == source;
            assert(visited.contains(middle));
            assert(depends_on(graph, middle, x));
        }
        search_goes_by_steps(graph, key, visited, pending, n, steps + 1);
    } else if pending.len() > 0 {
        let current = pending[0];
        let rest = pending.skip(1);
        let left = (front - 1) as nat;
        less_to_visit(graph.nodes.dom(), visited, current);
        assert(leads_within(graph, source, key, pending[0], steps));
        assert forall|x: TaskKeyView| pending.contains(x) implies x == current || rest.contains(
            x,
        ) by {
            let i = choose|i: int| 0 <= i < pending.len() && pending[i] == x;
            if i > 0 {
                assert(rest[i - 1] == x);
            }
        }
        assert forall|x: TaskKeyView| pending.take(front as int).contains(x) implies x == current
            || rest.take(left as int).contains(x) by {
            let i = choose|i: int| 0 <= i < front && pending.take(front as int)[i] == x;
            if i > 0 {
                assert(rest.take(left as int)[i - 1] == x);
            }
        }
        assert forall|i: int| 0 <= i < left implies leads_within(
            graph,
            source,
            key,
            #[trigger] rest[i],
            steps,
        ) by {
            assert(rest[i] == pending[i + 1]);
        }
        assert forall|i: int| left <= i < rest.len() implies leads_within(
            graph,
            source,
            key,
            #[trigger] rest[i],
            steps + 1,
        ) by {
            assert(rest[i] == pending[i + 1]);
        }
        if visited.contains(current) {
            search_goes_by_steps(graph, key, visited, rest, left, steps);
        } else if !graph.nodes.dom().contains(current) {
            search_goes_by_steps(graph, key, visited.insert(current), rest, left, steps);
        } else {
            let dependencies = sorted_dependencies(graph, current);
            let neighbors = task_neighbors(graph, current, Direction::Outgoing);
            first_foreign_is(dependencies, source);
            match first_foreign(dependencies, source) {
                Some(found) => {
                    ranked_same_items::<TaskKey>(neighbors, found);
                    assert(depends_on(graph, current, found));
                    assert(foreign_at(graph, key, found, steps));
                    assert forall|other: TaskKeyView, fewer: nat| #[trigger]
                        foreign_at(graph, key, other, fewer) implies steps <= fewer by {
                        if fewer < steps {
                            let owner = choose|owner: TaskKeyView|
                                leads_within(graph, source, key, owner, fewer)
                                    && #[trigger] depends_on(graph, owner, other);
                            assert(visited.contains(owner));
                            assert(depends_on(graph, owner, other));
                        }
                    }
                },
                None => {
                    let more = rest + dependencies;
                    let seen = visited.insert(current);
                    assert forall|x: TaskKeyView| rest.contains(x) || dependencies.contains(
                        x,
                    ) implies more.contains(x) by {
                        if rest.contains(x) {
                            let i = choose|i: int| 0 <= i < rest.len() && rest[i] == x;
                            assert(more[i] == x);
                        } else {
                            let i = choose|i: int| 0 <= i < dependencies.len() && dependencies[i] == x;
                            assert(more[rest.len() + i] == x);
                        }
                    }
                    assert forall|x: TaskKeyView, other: TaskKeyView|
                        seen.contains(x) && #[trigger] depends_on(
                            graph,
                            x,
                            other,
                        ) implies other.project.source == source && (seen.contains(other)
                        || more.contains(other)) by {
                        if x == current {
                            ranked_same_items::<TaskKey>(neighbors, other);
                            assert(dependencies.contains(other));
                        }
                    }
                    assert(more.take(left as int) =~= rest.take(left as int));
                    assert forall|i: int| 0 <= i < left implies leads_within(
                        graph,
                        source,
                        key,
                        #[trigger] more[i],
                        steps,
                    ) by {
                        assert(more[i] == rest[i]);
                    }
                    assert forall|i: int| left <= i < more.len() implies leads_within(
                        graph,
                        source,
                        key,
                        #[trigger] more[i],
                        steps + 1,
                    ) by {
                        if i < rest.len() {
                            assert(more[i] == rest[i]);
                        } else {
                            let other = dependencies[i - rest.len()];
                            assert(dependencies.contains(other));
                            ranked_same_items::<TaskKey>(neighbors, other);
                            assert(depends_on(graph, current, other));
                        }
                    }
                    search_goes_by_steps(graph, key, seen, more, left, steps);
                },
            }
        }
    }
}

/// What the search through the closure of a task finds is a nearest dependency on another
/// source root: none takes fewer steps.
pub proof fn closure_search_finds_a_nearest(graph: TaskGraphView, key: TaskKeyView)
    requires
        graph.nodes.dom().finite(),
    ensures
        search_closure(graph, key.project.source, Set::empty(), seq![key]) matches Some(found)
            ==> exists|least: nat| #[trigger]
            foreign_at(graph, key, found, least) && none_nearer(graph, key, least),
{
    let source = key.project.source;
    let start = seq![key];
    assert(leads_within(graph, source, key, key, 0));
    assert forall|x: TaskKeyView| #[trigger] leads_within(graph, source, key, x, 0) implies start.take(
        1,
    ).contains(x) by {
        assert(start.take(1)[0] == x);
    }
    search_goes_by_steps(graph, key, Set::empty(), start, 1, 0);
}

/// Every task has a number of its own, under which its key is listed.
pub open spec fn tasks_numbered(graph: TaskGraphView) -> bool {
    &&& forall|i: int|
        0 <= i < graph.indexes.len() ==> graph.nodes[#[trigger] graph.indexes[i]].index == i
    &&& forall|key: TaskKeyView| #[trigger]
        graph.nodes.dom().contains(key) ==> graph.indexes[graph.nodes[key].index as int] == key
}

/// A task depends on another exactly where it is among the dependents of the other.
pub proof fn dependents_mirror_dependencies(graph: TaskGraphView, key: TaskKeyView, other: TaskKeyView)
    requires
        task_graph_valid(graph),
        tasks_numbered(graph),
        edges_within(graph.graph.edges, graph.graph.nodes),
        graph.nodes.dom().contains(key),
        graph.nodes.dom().contains(other),
    ensures
        task_neighbors(graph, key, Direction::Outgoing).contains(other) <==> task_neighbors(
            graph,
            other,
            Direction::Incoming,
        ).contains(key),
{
    let from = graph.nodes[key].index;
    let to = graph.nodes[other].index;
    let below = neighbors(graph.graph.edges, from, Direction::Outgoing);
    let above = neighbors(graph.graph.edges, to, Direction::Incoming);
    neighbors_are_edges(graph.graph.edges, from, Direction::Outgoing, to);
    neighbors_are_edges(graph.graph.edges, to, Direction::Incoming, from);
    if below.contains(to) {
        let i = choose|i: int| 0 <= i < below.len() && below[i] == to;
        assert(task_keys_at(graph, below)[i] == other);
    }
    if above.contains(from) {
        let i = choose|i: int| 0 <= i < above.len() && above[i] == from;
        assert(task_keys_at(graph, above)[i] == key);
    }
    if task_keys_at(graph, below).contains(other) {
        let i = choose|i: int| 0 <= i < below.len() && task_keys_at(graph, below)[i] == other;
        assert(below.contains(below[i]));
        neighbors_are_edges(graph.graph.edges, from, Direction::Outgoing, below[i]);
        assert(graph.indexes[below[i] as int] == other);
        assert(below[i] == to);
    }
    if task_keys_at(graph, above).contains(key) {
        let i = choose|i: int| 0 <= i < above.len() && task_keys_at(graph, above)[i] == key;
        assert(above.contains(above[i]));
        neighbors_are_edges(graph.graph.edges, to, Direction::Incoming, above[i]);
        assert(graph.indexes[above[i] as int] == key);
        assert(above[i] == from);
    }
}

} // verus!
