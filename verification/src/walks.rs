//! How far nodes of a graph are from one another, and in which order a breadth-first walk
//! meets them.

use crate::graph::{
    acyclic, breadth_first, connected, discover, distinct_below, edges_within, has_edge, leads_to,
    neighbors, neighbors_are_edges, spread, walk, Direction,
};
use vstd::prelude::*;

verus! {

/// A walk over as many edges leads from one node to the other in a direction.
pub open spec fn steps_to(
    edges: Seq<(usize, usize, u8)>,
    direction: Direction,
    from: usize,
    to: usize,
    steps: nat,
) -> bool {
    match direction {
        Direction::Outgoing => walk(edges, from, to, steps),
        Direction::Incoming => walk(edges, to, from, steps),
    }
}

/// No walk from one node to the other is over fewer edges.
pub open spec fn is_distance(
    edges: Seq<(usize, usize, u8)>,
    direction: Direction,
    from: usize,
    to: usize,
    steps: nat,
) -> bool {
    steps_to(edges, direction, from, to, steps) && forall|fewer: nat|
        fewer < steps ==> !steps_to(edges, direction, from, to, fewer)
}

/// The length of the shortest walks from one node to the other.
pub open spec fn distance(
    edges: Seq<(usize, usize, u8)>,
    direction: Direction,
    from: usize,
    to: usize,
) -> nat {
    choose|steps: nat| is_distance(edges, direction, from, to, steps)
}

/// Where there is a walk, there is a shortest one.
pub proof fn distance_is_least(
    edges: Seq<(usize, usize, u8)>,
    direction: Direction,
    from: usize,
    to: usize,
    steps: nat,
)
    requires
        steps_to(edges, direction, from, to, steps),
    ensures
        is_distance(edges, direction, from, to, distance(edges, direction, from, to)),
        distance(edges, direction, from, to) <= steps,
    decreases steps,
{
    if exists|fewer: nat| fewer < steps && steps_to(edges, direction, from, to, fewer) {
        let fewer = choose|fewer: nat| fewer < steps && steps_to(edges, direction, from, to, fewer);
        distance_is_least(edges, direction, from, to, fewer);
    } else {
        assert(is_distance(edges, direction, from, to, steps));
    }
}

/// A walk to a node is a walk to the node before it, and an edge.
pub proof fn walk_ends_with(edges: Seq<(usize, usize, u8)>, from: usize, to: usize, steps: nat) -> (before:
    usize)
    requires
        steps > 0,
        walk(edges, from, to, steps),
    ensures
        walk(edges, from, before, (steps - 1) as nat),
        has_edge(edges, before, to),
    decreases steps,
{
    let middle = choose|middle: usize|
        #[trigger] has_edge(edges, from, middle) && walk(edges, middle, to, (steps - 1) as nat);
    if steps == 1 {
        assert(walk(edges, from, from, 0));
        from
    } else {
        let before = walk_ends_with(edges, middle, to, (steps - 1) as nat);
        assert(walk(edges, middle, before, (steps - 2) as nat));
        before
    }
}

/// A walk and an edge behind it make a walk.
proof fn walk_goes_on(
    edges: Seq<(usize, usize, u8)>,
    from: usize,
    before: usize,
    to: usize,
    steps: nat,
)
    requires
        walk(edges, from, before, steps),
        has_edge(edges, before, to),
    ensures
        walk(edges, from, to, steps + 1),
{
    assert(walk(edges, to, to, 0));
    assert(walk(edges, before, to, 1));
    crate::graph::walk_joins(edges, from, before, to, steps, 1);
}

/// The node before the end of a walk, of which the end is a neighbor.
proof fn last_step(
    edges: Seq<(usize, usize, u8)>,
    direction: Direction,
    from: usize,
    to: usize,
    steps: nat,
) -> (before: usize)
    requires
        steps > 0,
        steps_to(edges, direction, from, to, steps),
    ensures
        steps_to(edges, direction, from, before, (steps - 1) as nat),
        neighbors(edges, before, direction).contains(to),
{
    match direction {
        Direction::Outgoing => {
            let before = walk_ends_with(edges, from, to, steps);
            neighbors_are_edges(edges, before, direction, to);
            before
        },
        Direction::Incoming => {
            let before = choose|before: usize|
                #[trigger] has_edge(edges, to, before) && walk(
                    edges,
                    before,
                    from,
                    (steps - 1) as nat,
                );
            neighbors_are_edges(edges, before, direction, to);
            before
        },
    }
}

/// A neighbor of the end of a walk is one step further.
proof fn next_step(
    edges: Seq<(usize, usize, u8)>,
    direction: Direction,
    from: usize,
    before: usize,
    to: usize,
    steps: nat,
)
    requires
        steps_to(edges, direction, from, before, steps),
        neighbors(edges, before, direction).contains(to),
    ensures
        steps_to(edges, direction, from, to, steps + 1),
{
    neighbors_are_edges(edges, before, direction, to);
    match direction {
        Direction::Outgoing => walk_goes_on(edges, from, before, to, steps),
        Direction::Incoming => {
            assert(has_edge(edges, to, before));
        },
    }
}

/// What holds while nodes are met: they are met once, nearest first, and the neighbors of
/// those that were left behind were met.
spec fn meeting(
    edges: Seq<(usize, usize, u8)>,
    nodes: nat,
    direction: Direction,
    start: usize,
    seen: Seq<usize>,
    at: nat,
) -> bool {
    &&& at <= seen.len()
    &&& seen.len() > 0
    &&& seen[0] == start
    &&& seen.no_duplicates()
    &&& forall|i: int| 0 <= i < seen.len() ==> #[trigger] seen[i] < nodes
    &&& forall|i: int|
        0 <= i < seen.len() ==> steps_to(
            edges,
            direction,
            start,
            #[trigger] seen[i],
            distance(edges, direction, start, seen[i]),
        )
    &&& forall|i: int, x: usize|
        0 <= i < at && #[trigger] neighbors(edges, seen[i], direction).contains(x) ==> seen.contains(
            x,
        )
    &&& forall|i: int, j: int|
        0 <= i <= j < seen.len() ==> distance(edges, direction, start, #[trigger] seen[i]) <= distance(
            edges,
            direction,
            start,
            #[trigger] seen[j],
        )
    &&& at < seen.len() ==> distance(edges, direction, start, seen.last()) <= distance(
        edges,
        direction,
        start,
        seen[at as int],
    ) + 1
}

/// All nodes that are no further than the next node to leave behind were met.
proof fn near_ones_are_met(
    edges: Seq<(usize, usize, u8)>,
    nodes: nat,
    direction: Direction,
    start: usize,
    seen: Seq<usize>,
    at: nat,
    x: usize,
    steps: nat,
)
    requires
        meeting(edges, nodes, direction, start, seen, at),
        at < seen.len(),
        steps_to(edges, direction, start, x, steps),
        steps <= distance(edges, direction, start, seen[at as int]),
    ensures
        seen.contains(x),
    decreases steps,
{
    if steps == 0 {
        assert(seen[0] == x);
    } else {
        let before = last_step(edges, direction, start, x, steps);
        near_ones_are_met(
            edges,
            nodes,
            direction,
            start,
            seen,
            at,
            before,
            (steps - 1) as nat,
        );
        let i = choose|i: int| 0 <= i < seen.len() && seen[i] == before;
        distance_is_least(edges, direction, start, before, (steps - 1) as nat);
        if i >= at {
            assert(distance(edges, direction, start, seen[at as int]) <= distance(
                edges,
                direction,
                start,
                seen[i],
            ));
        }
        assert(neighbors(edges, seen[i], direction).contains(x));
    }
}

/// Nodes that are met from one node come behind the others, once each, all one step further.
proof fn discover_adds(
    edges: Seq<(usize, usize, u8)>,
    nodes: nat,
    direction: Direction,
    start: usize,
    seen: Seq<usize>,
    at: nat,
    nexts: Seq<usize>,
)
    requires
        meeting(edges, nodes, direction, start, seen, at),
        at < seen.len(),
        edges_within(edges, nodes),
        forall|i: int|
            0 <= i < nexts.len() ==> neighbors(edges, seen[at as int], direction).contains(
                #[trigger] nexts[i],
            ),
    ensures
        ({
            let more = discover(seen, nexts);
            &&& seen.is_prefix_of(more)
            &&& more.no_duplicates()
            &&& forall|i: int| 0 <= i < more.len() ==> #[trigger] more[i] < nodes
            &&& forall|i: int|
                seen.len() <= i < more.len() ==> steps_to(
                    edges,
                    direction,
                    start,
                    #[trigger] more[i],
                    distance(edges, direction, start, more[i]),
                ) && distance(edges, direction, start, more[i]) == distance(
                    edges,
                    direction,
                    start,
                    seen[at as int],
                ) + 1
            &&& forall|i: int| 0 <= i < nexts.len() ==> more.contains(#[trigger] nexts[i])
        }),
    decreases nexts.len(),
{
    if nexts.len() > 0 {
        let rest = nexts.drop_last();
        let next = nexts.last();
        let before = discover(seen, rest);
        let more = discover(seen, nexts);
        assert forall|i: int| 0 <= i < rest.len() implies neighbors(
            edges,
            seen[at as int],
            direction,
        ).contains(#[trigger] rest[i]) by {
            assert(rest[i] == nexts[i]);
        }
        discover_adds(edges, nodes, direction, start, seen, at, rest);
        let node = seen[at as int];
        let d = distance(edges, direction, start, node);
        assert(neighbors(edges, node, direction).contains(nexts[nexts.len() - 1]));
        neighbors_are_edges(edges, node, direction, next);
        let (a, b) = match direction {
            Direction::Outgoing => (node, next),
            Direction::Incoming => (next, node),
        };
        let e = choose|e: int| 0 <= e < edges.len() && (#[trigger] edges[e]).0 == a && edges[e].1 == b;
        assert(edges[e].0 < nodes && edges[e].1 < nodes);
        assert(steps_to(edges, direction, start, node, d));
        next_step(edges, direction, start, node, next, d);
        distance_is_least(edges, direction, start, next, d + 1);
        let n = distance(edges, direction, start, next);
        if !before.contains(next) {
            if n <= d {
                near_ones_are_met(edges, nodes, direction, start, seen, at, next, n);
                let k = choose|k: int| 0 <= k < seen.len() && seen[k] == next;
                assert(before[k] == next);
            }
            assert(more == before.push(next));
            assert(more[before.len() as int] == next);
        }
        assert forall|i: int| 0 <= i < nexts.len() implies more.contains(#[trigger] nexts[i]) by {
            if i < rest.len() {
                assert(rest[i] == nexts[i]);
                assert(before.contains(rest[i]));
                let k = choose|k: int| 0 <= k < before.len() && before[k] == rest[i];
                assert(more[k] == rest[i]);
            }
        }
    }
}

/// What holds while nodes are met still holds when one more is left behind.
proof fn meeting_goes_on(
    edges: Seq<(usize, usize, u8)>,
    nodes: nat,
    direction: Direction,
    start: usize,
    seen: Seq<usize>,
    at: nat,
)
    requires
        meeting(edges, nodes, direction, start, seen, at),
        at < seen.len(),
        edges_within(edges, nodes),
    ensures
        meeting(
            edges,
            nodes,
            direction,
            start,
            discover(seen, neighbors(edges, seen[at as int], direction)),
            at + 1,
        ),
{
    let node = seen[at as int];
    let nexts = neighbors(edges, node, direction);
    let more = discover(seen, nexts);
    let d = distance(edges, direction, start, node);
    discover_adds(edges, nodes, direction, start, seen, at, nexts);
    assert forall|i: int| 0 <= i < more.len() implies steps_to(
        edges,
        direction,
        start,
        #[trigger] more[i],
        distance(edges, direction, start, more[i]),
    ) by {
        if i < seen.len() {
            assert(more[i] == seen[i]);
        }
    }
    assert forall|i: int, x: usize|
        0 <= i < at + 1 && #[trigger] neighbors(edges, more[i], direction).contains(
            x,
        ) implies more.contains(x) by {
        assert(more[i] == seen[i]);
        if i < at {
            assert(neighbors(edges, seen[i], direction).contains(x));
            let k = choose|k: int| 0 <= k < seen.len() && seen[k] == x;
            assert(more[k] == x);
        } else {
            let k = choose|k: int| 0 <= k < nexts.len() && nexts[k] == x;
            assert(more.contains(nexts[k]));
        }
    }
    assert forall|i: int, j: int| 0 <= i <= j < more.len() implies distance(
        edges,
        direction,
        start,
        #[trigger] more[i],
    ) <= distance(edges, direction, start, #[trigger] more[j]) by {
        if j < seen.len() {
            assert(more[i] == seen[i] && more[j] == seen[j]);
        } else if i < seen.len() {
            assert(more[i] == seen[i]);
            assert(distance(edges, direction, start, seen[i]) <= distance(
                edges,
                direction,
                start,
                seen[seen.len() - 1],
            ));
        }
    }
    if at + 1 < more.len() {
        assert(more[at as int] == node);
        assert(distance(edges, direction, start, more[at as int]) <= distance(
            edges,
            direction,
            start,
            more[(at + 1) as int],
        ));
        if more.len() == seen.len() {
            assert(more[more.len() - 1] == seen[seen.len() - 1]);
        }
    }
}

/// What is met until no node is left.
proof fn spread_meets(
    edges: Seq<(usize, usize, u8)>,
    nodes: nat,
    direction: Direction,
    start: usize,
    seen: Seq<usize>,
    at: nat,
    fuel: nat,
)
    requires
        meeting(edges, nodes, direction, start, seen, at),
        edges_within(edges, nodes),
        fuel + at >= nodes,
    ensures
        meeting(
            edges,
            nodes,
            direction,
            start,
            spread(edges, direction, seen, at, fuel),
            spread(edges, direction, seen, at, fuel).len(),
        ),
    decreases fuel,
{
    distinct_below(seen, nodes);
    if fuel == 0 || at >= seen.len() {
        assert(at == seen.len());
    } else {
        meeting_goes_on(edges, nodes, direction, start, seen, at);
        spread_meets(
            edges,
            nodes,
            direction,
            start,
            discover(seen, neighbors(edges, seen[at as int], direction)),
            at + 1,
            (fuel - 1) as nat,
        );
    }
}

/// A walk never leaves what holds its start and all neighbors of what it holds.
proof fn steps_stay_inside(
    edges: Seq<(usize, usize, u8)>,
    direction: Direction,
    inside: Seq<usize>,
    from: usize,
    to: usize,
    steps: nat,
)
    requires
        inside.contains(from),
        steps_to(edges, direction, from, to, steps),
        forall|i: int, x: usize|
            0 <= i < inside.len() && #[trigger] neighbors(edges, inside[i], direction).contains(x)
                ==> inside.contains(x),
    ensures
        inside.contains(to),
    decreases steps,
{
    if steps > 0 {
        let before = last_step(edges, direction, from, to, steps);
        steps_stay_inside(edges, direction, inside, from, before, (steps - 1) as nat);
        let i = choose|i: int| 0 <= i < inside.len() && inside[i] == before;
        assert(neighbors(edges, inside[i], direction).contains(to));
    }
}

/// A breadth-first walk starts with the node itself, meets exactly the nodes that it leads
/// to, each once, and nearer nodes before nodes that are further away.
pub proof fn breadth_first_meets(
    edges: Seq<(usize, usize, u8)>,
    nodes: nat,
    start: usize,
    direction: Direction,
)
    requires
        start < nodes,
        edges_within(edges, nodes),
    ensures
        ({
            let seen = breadth_first(edges, nodes, start, direction);
            &&& seen.len() > 0
            &&& seen[0] == start
            &&& seen.no_duplicates()
            &&& forall|i: int| 0 <= i < seen.len() ==> #[trigger] seen[i] < nodes
            &&& forall|x: usize| #[trigger]
                seen.contains(x) <==> leads_to(edges, direction, start, x)
            &&& forall|i: int, j: int|
                0 <= i <= j < seen.len() ==> distance(edges, direction, start, #[trigger] seen[i])
                    <= distance(edges, direction, start, #[trigger] seen[j])
        }),
{
    let first = seq![start];
    let seen = breadth_first(edges, nodes, start, direction);
    assert(walk(edges, start, start, 0));
    distance_is_least(edges, direction, start, start, 0);
    assert(meeting(edges, nodes, direction, start, first, 0));
    spread_meets(edges, nodes, direction, start, first, 0, nodes);
    assert forall|x: usize| #[trigger] seen.contains(x) <==> leads_to(
        edges,
        direction,
        start,
        x,
    ) by {
        if seen.contains(x) {
            let i = choose|i: int| 0 <= i < seen.len() && seen[i] == x;
            assert(steps_to(
                edges,
                direction,
                start,
                seen[i],
                distance(edges, direction, start, seen[i]),
            ));
        }
        if leads_to(edges, direction, start, x) {
            let steps = choose|steps: nat| steps_to(edges, direction, start, x, steps);
            match direction {
                Direction::Outgoing => {
                    let n = choose|n: nat| walk(edges, start, x, n);
                    assert(steps_to(edges, direction, start, x, n));
                },
                Direction::Incoming => {
                    let n = choose|n: nat| walk(edges, x, start, n);
                    assert(steps_to(edges, direction, start, x, n));
                },
            }
            assert(seen[0] == start);
            steps_stay_inside(edges, direction, seen, start, x, steps);
        }
    }
}

/// In a graph without cycles no walk over edges comes back.
pub proof fn no_way_back(
    edges: Seq<(usize, usize, u8)>,
    direction: Direction,
    node: usize,
    steps: nat,
)
    requires
        acyclic(edges),
        steps > 0,
    ensures
        !steps_to(edges, direction, node, node, steps),
{
    if steps_to(edges, direction, node, node, steps) {
        let middle = choose|middle: usize|
            #[trigger] has_edge(edges, node, middle) && walk(
                edges,
                middle,
                node,
                (steps - 1) as nat,
            );
        assert(connected(edges, middle, node));
    }
}

} // verus!
