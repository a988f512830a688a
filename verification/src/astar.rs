use crate::components::EntitySize;
use crate::game_map::{lemma_index_in_range, GameMap, MapError};
use vstd::prelude::*;

verus! {

/// The size from which an occupant blocks movement when the caller names no
/// other: anything larger than `Small` is in the way.
pub open spec fn spec_movement_threshold() -> EntitySize {
    EntitySize::Medium
}

/// The usual movement threshold.
#[verifier::when_used_as_spec(spec_movement_threshold)]
pub fn movement_threshold() -> (r: EntitySize)
    ensures
        r == spec_movement_threshold(),
{
    EntitySize::Medium
}

/// One square reached by the search. Nodes live in an arena for the length
/// of one search; `parent` is the arena position of the node this one was
/// reached from.
#[derive(Debug, Clone, Copy)]
pub struct Node {
    pub parent: Option<usize>,
    pub position: (isize, isize),
    /// Steps taken from the start.
    pub g: usize,
    /// Squared straight-line distance to the goal.
    pub h: u128,
    /// Priority of the node: `g + h`.
    pub f: u128,
}

impl Node {
    /// A node with all three costs at zero.
    pub fn new(parent: Option<usize>, position: (isize, isize)) -> (r: Self)
        ensures
            r == (Node { parent, position, g: 0, h: 0, f: 0 }),
    {
        Self { parent, position, g: 0, h: 0, f: 0 }
    }
}

/// The eight moves, in the order in which neighbours are tried: the four
/// straight ones, then the four diagonals.
pub open spec fn spec_adjacent_square(k: int) -> (int, int) {
    if k == 0 {
        (0, -1)
    } else if k == 1 {
        (0, 1)
    } else if k == 2 {
        (-1, 0)
    } else if k == 3 {
        (1, 0)
    } else if k == 4 {
        (-1, -1)
    } else if k == 5 {
        (-1, 1)
    } else if k == 6 {
        (1, -1)
    } else {
        (1, 1)
    }
}

/// The `k`-th of the eight moves.
pub fn adjacent_square(k: usize) -> (r: (isize, isize))
    requires
        k < 8,
    ensures
        (r.0 as int, r.1 as int) == spec_adjacent_square(k as int),
{
    if k == 0 {
        (0, -1)
    } else if k == 1 {
        (0, 1)
    } else if k == 2 {
        (-1, 0)
    } else if k == 3 {
        (1, 0)
    } else if k == 4 {
        (-1, -1)
    } else if k == 5 {
        (-1, 1)
    } else if k == 6 {
        (1, -1)
    } else {
        (1, 1)
    }
}

/// `b` is one move away from `a`.
pub open spec fn is_step(a: (isize, isize), b: (isize, isize)) -> bool {
    &&& -1 <= b.0 - a.0 <= 1
    &&& -1 <= b.1 - a.1 <= 1
    &&& a != b
}

/// Squared straight-line distance between two squares.
pub open spec fn spec_heuristic(a: (isize, isize), b: (isize, isize)) -> int {
    (a.0 - b.0) * (a.0 - b.0) + (a.1 - b.1) * (a.1 - b.1)
}

/// The working sets of a search: every node made so far, the arena
/// positions of the nodes still to be expanded in the order in which they
/// were found, and the squares already expanded.
#[verifier::ext_equal]
pub struct Frontier {
    pub nodes: Seq<Node>,
    pub open: Seq<usize>,
    pub closed: Seq<(isize, isize)>,
}

/// `i` is the place in `open` of the cheapest node, the earliest one among
/// equals.
pub open spec fn is_first_min(nodes: Seq<Node>, open: Seq<usize>, i: int) -> bool {
    &&& 0 <= i < open.len()
    &&& forall|j: int| 0 <= j < open.len() ==> nodes[open[i] as int].f <= nodes[#[trigger] open[j] as int].f
    &&& forall|j: int| 0 <= j < i ==> nodes[#[trigger] open[j] as int].f > nodes[open[i] as int].f
}

/// The place in `open` of the cheapest node, the earliest one among equals.
pub open spec fn first_min(nodes: Seq<Node>, open: Seq<usize>) -> int {
    choose|i: int| is_first_min(nodes, open, i)
}

/// Some open node already stands on `p` at a cost of at most `g`.
pub open spec fn dominated(nodes: Seq<Node>, open: Seq<usize>, p: (isize, isize), g: int) -> bool {
    exists|j: int|
        0 <= j < open.len() && nodes[#[trigger] open[j] as int].position == p && nodes[open[j] as int].g
            <= g
}

/// The search may step onto `(x, y)`: it is on the grid and either free or
/// the goal itself.
pub open spec fn may_step_on(
    map: &GameMap,
    threshold: EntitySize,
    goal: (isize, isize),
    x: int,
    y: int,
) -> bool {
    &&& map.spec_in_bounds(x, y)
    &&& (map.spec_passable(x, y, threshold) || (x == goal.0 && y == goal.1))
}

/// The frontier after neighbour `k` of node `cur` has been looked at. The
/// neighbour joins the arena and the open list unless the search may not
/// step there, the square is closed, or an open node dominates it.
pub open spec fn consider(
    map: &GameMap,
    threshold: EntitySize,
    goal: (isize, isize),
    st: Frontier,
    cur: int,
    k: int,
) -> Frontier {
    let from = st.nodes[cur];
    let x = from.position.0 + spec_adjacent_square(k).0;
    let y = from.position.1 + spec_adjacent_square(k).1;
    let p = (x as isize, y as isize);
    let g = from.g + 1;
    if may_step_on(map, threshold, goal, x, y) && !st.closed.contains(p) && !dominated(
        st.nodes,
        st.open,
        p,
        g,
    ) {
        let h = spec_heuristic(p, goal);
        let child = Node {
            parent: Some(cur as usize),
            position: p,
            g: g as usize,
            h: h as u128,
            f: (g + h) as u128,
        };
        Frontier {
            nodes: st.nodes.push(child),
            open: st.open.push(st.nodes.len() as usize),
            closed: st.closed,
        }
    } else {
        st
    }
}

/// The frontier after the first `k` neighbours of node `cur` have been
/// looked at in order.
pub open spec fn expand(
    map: &GameMap,
    threshold: EntitySize,
    goal: (isize, isize),
    st: Frontier,
    cur: int,
    k: int,
) -> Frontier
    decreases k,
{
    if k <= 0 {
        st
    } else {
        consider(map, threshold, goal, expand(map, threshold, goal, st, cur, k - 1), cur, k - 1)
    }
}

/// The frontier once the open entry at place `i` has been taken out, its
/// square closed, and all eight neighbours looked at.
pub open spec fn advance(
    map: &GameMap,
    threshold: EntitySize,
    goal: (isize, isize),
    st: Frontier,
    i: int,
) -> Frontier {
    let cur = st.open[i];
    let taken = Frontier {
        nodes: st.nodes,
        open: st.open.remove(i),
        closed: st.closed.push(st.nodes[cur as int].position),
    };
    expand(map, threshold, goal, taken, cur as int, 8)
}

/// The squares from node `idx` back to the root of its tree, `idx` first.
pub open spec fn path_from(nodes: Seq<Node>, idx: int) -> Seq<(isize, isize)>
    decreases idx,
{
    if idx < 0 || idx >= nodes.len() {
        Seq::empty()
    } else {
        match nodes[idx].parent {
            Some(p) => if p < idx {
                seq![nodes[idx].position] + path_from(nodes, p as int)
            } else {
                seq![nodes[idx].position]
            },
            None => seq![nodes[idx].position],
        }
    }
}

/// What the search returns from frontier `st` when `iter` nodes have been
/// expanded and at most `max_iter` may be: nothing once the open list is
/// empty or the budget is spent; otherwise the cheapest open node is taken,
/// and either it stands on the goal and its chain of parents is the route,
/// or it is expanded and the search goes on.
pub open spec fn search(
    map: &GameMap,
    threshold: EntitySize,
    goal: (isize, isize),
    st: Frontier,
    iter: int,
    max_iter: int,
) -> Option<Seq<(isize, isize)>>
    decreases max_iter - iter,
{
    if st.open.len() == 0 || iter >= max_iter {
        None
    } else {
        let i = first_min(st.nodes, st.open);
        let cur = st.open[i];
        if st.nodes[cur as int].position == goal {
            Some(path_from(st.nodes, cur as int))
        } else {
            search(map, threshold, goal, advance(map, threshold, goal, st, i), iter + 1, max_iter)
        }
    }
}

/// The frontier a search begins with: the start square alone, open.
pub open spec fn initial_frontier(start: (isize, isize)) -> Frontier {
    Frontier {
        nodes: seq![Node { parent: None, position: start, g: 0, h: 0, f: 0 }],
        open: seq![0usize],
        closed: Seq::empty(),
    }
}

/// The route from `start` to `goal`, goal first, or `None` where the search
/// finds none within its budget of half the cell count.
pub open spec fn route(
    map: &GameMap,
    start: (isize, isize),
    goal: (isize, isize),
    threshold: EntitySize,
) -> Option<Seq<(isize, isize)>> {
    search(map, threshold, goal, initial_frontier(start), 0, map.map_info.total_count as int / 2)
}

/// Node `n` hangs below an earlier node, one move and one step of cost
/// away, on a square the search may step onto.
pub open spec fn linked(
    map: &GameMap,
    threshold: EntitySize,
    goal: (isize, isize),
    nodes: Seq<Node>,
    n: int,
) -> bool {
    &&& nodes[n].parent matches Some(p)
    &&& p < n
    &&& nodes[n].g == nodes[p as int].g + 1
    &&& is_step(nodes[p as int].position, nodes[n].position)
    &&& may_step_on(map, threshold, goal, nodes[n].position.0 as int, nodes[n].position.1 as int)
}

/// What every frontier of a search from `start` satisfies: the arena is a
/// tree rooted at the start node, every square in it is on the grid, no
/// cost exceeds `bound`, and the open list points into the arena.
pub open spec fn frontier_inv(
    map: &GameMap,
    threshold: EntitySize,
    start: (isize, isize),
    goal: (isize, isize),
    st: Frontier,
    bound: int,
) -> bool {
    &&& st.nodes.len() >= 1
    &&& st.nodes[0].position == start
    &&& st.nodes[0].parent is None
    &&& st.nodes[0].g == 0
    &&& forall|n: int|
        0 <= n < st.nodes.len() ==> map.spec_in_bounds(
            (#[trigger] st.nodes[n]).position.0 as int,
            st.nodes[n].position.1 as int,
        ) && st.nodes[n].g <= bound
    &&& forall|n: int| 1 <= n < st.nodes.len() ==> #[trigger] linked(map, threshold, goal, st.nodes, n)
    &&& forall|j: int| 0 <= j < st.open.len() ==> (#[trigger] st.open[j]) < st.nodes.len()
}

/// A sequence of squares is a route from `start` to `goal` as the search
/// hands it out: it begins at the goal and ends at the start, stays on the
/// grid, moves one square at a time, and sets foot, after the start, only on
/// squares that are free or the goal.
pub open spec fn valid_route(
    map: &GameMap,
    threshold: EntitySize,
    start: (isize, isize),
    goal: (isize, isize),
    p: Seq<(isize, isize)>,
) -> bool {
    &&& p.len() >= 1
    &&& p[0] == goal
    &&& p[p.len() - 1] == start
    &&& forall|i: int|
        0 <= i < p.len() ==> map.spec_in_bounds((#[trigger] p[i]).0 as int, p[i].1 as int)
    &&& forall|i: int|
        0 <= i < p.len() - 1 ==> is_step(p[i + 1], #[trigger] p[i]) && may_step_on(
            map,
            threshold,
            goal,
            p[i].0 as int,
            p[i].1 as int,
        )
}

/// The place of the cheapest node among the first `n` open entries, the
/// earliest one among equals.
pub open spec fn min_upto(nodes: Seq<Node>, open: Seq<usize>, n: int) -> int
    decreases n,
{
    if n <= 1 {
        0
    } else {
        let m = min_upto(nodes, open, n - 1);
        if nodes[open[n - 1] as int].f < nodes[open[m] as int].f {
            n - 1
        } else {
            m
        }
    }
}

proof fn lemma_min_upto(nodes: Seq<Node>, open: Seq<usize>, n: int)
    requires
        1 <= n <= open.len(),
    ensures
        is_first_min(nodes, open.subrange(0, n), min_upto(nodes, open, n)),
    decreases n,
{
    if n > 1 {
        lemma_min_upto(nodes, open, n - 1);
        let m = min_upto(nodes, open, n - 1);
        let short = open.subrange(0, n - 1);
        let long = open.subrange(0, n);
        let r = min_upto(nodes, open, n);
        assert forall|j: int| 0 <= j < long.len() implies nodes[long[r] as int].f <= nodes[#[trigger] long[j] as int].f by {
            if j < n - 1 {
                assert(short[j] == long[j]);
            }
        }
        assert forall|j: int| 0 <= j < r implies nodes[#[trigger] long[j] as int].f > nodes[long[r] as int].f by {
            if j < n - 1 {
                assert(short[j] == long[j]);
            }
        }
    }
}

/// A non-empty open list has a cheapest entry, and `first_min` is its place.
pub proof fn lemma_first_min(nodes: Seq<Node>, open: Seq<usize>)
    requires
        open.len() > 0,
    ensures
        is_first_min(nodes, open, first_min(nodes, open)),
{
    lemma_min_upto(nodes, open, open.len() as int);
    assert(open.subrange(0, open.len() as int) =~= open);
}

/// Only one place can be that of the first cheapest entry.
pub proof fn lemma_first_min_unique(nodes: Seq<Node>, open: Seq<usize>, i: int)
    requires
        is_first_min(nodes, open, i),
    ensures
        first_min(nodes, open) == i,
{
    let c = first_min(nodes, open);
    assert(is_first_min(nodes, open, c));
    if c < i {
        assert(nodes[open[c] as int].f > nodes[open[i] as int].f);
    } else if i < c {
        assert(nodes[open[i] as int].f > nodes[open[c] as int].f);
    }
}

/// Looking at one neighbour keeps a frontier in order, and leaves the arena
/// as it was up to what may have been added at its end.
pub proof fn lemma_consider(
    map: &GameMap,
    threshold: EntitySize,
    start: (isize, isize),
    goal: (isize, isize),
    st: Frontier,
    cur: int,
    k: int,
    bound: int,
)
    requires
        map.well_formed(),
        frontier_inv(map, threshold, start, goal, st, bound),
        0 <= cur < st.nodes.len(),
        cur <= usize::MAX,
        st.nodes[cur].g + 1 <= bound,
        bound <= usize::MAX,
        0 <= k < 8,
    ensures
        frontier_inv(map, threshold, start, goal, consider(map, threshold, goal, st, cur, k), bound),
        consider(map, threshold, goal, st, cur, k).closed == st.closed,
        consider(map, threshold, goal, st, cur, k).nodes.len() >= st.nodes.len(),
        forall|n: int|
            0 <= n < st.nodes.len() ==> consider(map, threshold, goal, st, cur, k).nodes[n]
                == st.nodes[n],
{
    let next = consider(map, threshold, goal, st, cur, k);
    let from = st.nodes[cur];
    let x = from.position.0 + spec_adjacent_square(k).0;
    let y = from.position.1 + spec_adjacent_square(k).1;
    let p = (x as isize, y as isize);
    if may_step_on(map, threshold, goal, x, y) && !st.closed.contains(p) && !dominated(
        st.nodes,
        st.open,
        p,
        from.g + 1,
    ) {
        lemma_index_in_range(map, x, y);
        assert(p.0 == x && p.1 == y);
        assert(next.nodes == st.nodes.push(next.nodes[st.nodes.len() as int]));
        let child = next.nodes[st.nodes.len() as int];
        assert(child.position == p);
        assert(child.g == from.g + 1);
        assert(child.parent == Some(cur as usize));
        assert(is_step(from.position, p));
        assert forall|n: int| 1 <= n < next.nodes.len() implies #[trigger] linked(
            map,
            threshold,
            goal,
            next.nodes,
            n,
        ) by {
            if n < st.nodes.len() {
                assert(linked(map, threshold, goal, st.nodes, n));
                assert(next.nodes[n] == st.nodes[n]);
                let q = st.nodes[n].parent->0 as int;
                assert(next.nodes[q] == st.nodes[q]);
            } else {
                assert(next.nodes[n] == child);
                assert(next.nodes[cur] == from);
            }
        }
        assert forall|j: int| 0 <= j < next.open.len() implies (#[trigger] next.open[j])
            < next.nodes.len() by {
            if j < st.open.len() {
                assert(next.open[j] == st.open[j]);
            }
        }
    }
}

/// Looking at the first `k` neighbours keeps a frontier in order.
pub proof fn lemma_expand(
    map: &GameMap,
    threshold: EntitySize,
    start: (isize, isize),
    goal: (isize, isize),
    st: Frontier,
    cur: int,
    k: int,
    bound: int,
)
    requires
        map.well_formed(),
        frontier_inv(map, threshold, start, goal, st, bound),
        0 <= cur < st.nodes.len(),
        cur <= usize::MAX,
        st.nodes[cur].g + 1 <= bound,
        bound <= usize::MAX,
        0 <= k <= 8,
    ensures
        frontier_inv(map, threshold, start, goal, expand(map, threshold, goal, st, cur, k), bound),
        expand(map, threshold, goal, st, cur, k).closed == st.closed,
        expand(map, threshold, goal, st, cur, k).nodes.len() >= st.nodes.len(),
        forall|n: int|
            0 <= n < st.nodes.len() ==> expand(map, threshold, goal, st, cur, k).nodes[n]
                == st.nodes[n],
    decreases k,
{
    if k > 0 {
        lemma_expand(map, threshold, start, goal, st, cur, k - 1, bound);
        let mid = expand(map, threshold, goal, st, cur, k - 1);
        assert(mid.nodes[cur] == st.nodes[cur]);
        lemma_consider(map, threshold, start, goal, mid, cur, k - 1, bound);
    }
}

/// The chain of parents of any node of an orderly frontier is a route from
/// the start to that node's square, one square longer than the node's cost.
pub proof fn lemma_path_from(
    map: &GameMap,
    threshold: EntitySize,
    start: (isize, isize),
    goal: (isize, isize),
    st: Frontier,
    idx: int,
    bound: int,
)
    requires
        frontier_inv(map, threshold, start, goal, st, bound),
        0 <= idx < st.nodes.len(),
    ensures
        path_from(st.nodes, idx).len() == st.nodes[idx].g + 1,
        path_from(st.nodes, idx)[0] == st.nodes[idx].position,
        path_from(st.nodes, idx).last() == start,
        forall|i: int|
            0 <= i < path_from(st.nodes, idx).len() ==> map.spec_in_bounds(
                (#[trigger] path_from(st.nodes, idx)[i]).0 as int,
                path_from(st.nodes, idx)[i].1 as int,
            ),
        forall|i: int|
            0 <= i < path_from(st.nodes, idx).len() - 1 ==> is_step(
                path_from(st.nodes, idx)[i + 1],
                #[trigger] path_from(st.nodes, idx)[i],
            ) && may_step_on(
                map,
                threshold,
                goal,
                path_from(st.nodes, idx)[i].0 as int,
                path_from(st.nodes, idx)[i].1 as int,
            ),
    decreases idx,
{
    let here = st.nodes[idx];
    if idx >= 1 {
        assert(linked(map, threshold, goal, st.nodes, idx));
        let p = here.parent->0 as int;
        lemma_path_from(map, threshold, start, goal, st, p, bound);
        let rest = path_from(st.nodes, p);
        let whole = path_from(st.nodes, idx);
        assert(whole == seq![here.position] + rest);
        assert(whole[0] == here.position);
        assert forall|i: int| 0 <= i < whole.len() implies map.spec_in_bounds(
            (#[trigger] whole[i]).0 as int,
            whole[i].1 as int,
        ) by {
            if i >= 1 {
                assert(whole[i] == rest[i - 1]);
            }
        }
        assert forall|i: int| 0 <= i < whole.len() - 1 implies is_step(
            whole[i + 1],
            #[trigger] whole[i],
        ) && may_step_on(map, threshold, goal, whole[i].0 as int, whole[i].1 as int) by {
            assert(whole[i + 1] == rest[i]);
            if i >= 1 {
                assert(whole[i] == rest[i - 1]);
            } else {
                assert(rest[0] == st.nodes[p].position);
            }
        }
    } else {
        assert(path_from(st.nodes, idx) == seq![here.position]);
    }
}

/// Taking the open entry at place `i` out and expanding it keeps a frontier
/// in order, with every cost at most one more than the cost taken out.
pub proof fn lemma_advance(
    map: &GameMap,
    threshold: EntitySize,
    start: (isize, isize),
    goal: (isize, isize),
    st: Frontier,
    i: int,
    bound: int,
)
    requires
        map.well_formed(),
        frontier_inv(map, threshold, start, goal, st, bound),
        0 <= i < st.open.len(),
        bound < usize::MAX,
    ensures
        frontier_inv(map, threshold, start, goal, advance(map, threshold, goal, st, i), bound + 1),
{
    let cur = st.open[i];
    let taken = Frontier {
        nodes: st.nodes,
        open: st.open.remove(i),
        closed: st.closed.push(st.nodes[cur as int].position),
    };
    assert forall|j: int| 0 <= j < taken.open.len() implies (#[trigger] taken.open[j])
        < taken.nodes.len() by {
        if j < i {
            assert(taken.open[j] == st.open[j]);
        } else {
            assert(taken.open[j] == st.open[j + 1]);
        }
    }
    assert(frontier_inv(map, threshold, start, goal, taken, bound + 1));
    lemma_expand(map, threshold, start, goal, taken, cur as int, 8, bound + 1);
}

/// Whatever a search hands out from an orderly frontier is a valid route,
/// and it has no more squares than the search may expand nodes.
pub proof fn lemma_search_is_valid(
    map: &GameMap,
    threshold: EntitySize,
    start: (isize, isize),
    goal: (isize, isize),
    st: Frontier,
    iter: int,
    max_iter: int,
)
    requires
        map.well_formed(),
        frontier_inv(map, threshold, start, goal, st, iter),
        0 <= iter <= max_iter < usize::MAX,
    ensures
        search(map, threshold, goal, st, iter, max_iter) matches Some(p) ==> valid_route(
            map,
            threshold,
            start,
            goal,
            p,
        ) && p.len() <= max_iter,
    decreases max_iter - iter,
{
    if st.open.len() == 0 || iter >= max_iter {
    } else {
        lemma_first_min(st.nodes, st.open);
        let i = first_min(st.nodes, st.open);
        let cur = st.open[i] as int;
        if st.nodes[cur].position == goal {
            lemma_path_from(map, threshold, start, goal, st, cur, iter);
        } else {
            lemma_advance(map, threshold, start, goal, st, i, iter);
            lemma_search_is_valid(
                map,
                threshold,
                start,
                goal,
                advance(map, threshold, goal, st, i),
                iter + 1,
                max_iter,
            );
        }
    }
}

/// Every route found is valid: taken from its last square to its first it
/// leads from `start` to `goal`, each square one move from the one before,
/// never leaving the grid and never entering a blocked square other than
/// the goal. It is also no longer than half the cell count, the number of
/// nodes a search may expand.
pub proof fn lemma_route_is_valid(
    map: &GameMap,
    start: (isize, isize),
    goal: (isize, isize),
    threshold: EntitySize,
)
    requires
        map.well_formed(),
        map.spec_in_bounds(start.0 as int, start.1 as int),
    ensures
        route(map, start, goal, threshold) matches Some(p) ==> valid_route(
            map,
            threshold,
            start,
            goal,
            p,
        ) && p.len() <= map.map_info.total_count / 2,
{
    let st = initial_frontier(start);
    assert(frontier_inv(map, threshold, start, goal, st, 0));
    lemma_search_is_valid(
        map,
        threshold,
        start,
        goal,
        st,
        0,
        map.map_info.total_count as int / 2,
    );
}

/// Where the start is the goal and the search may expand a node at all, the
/// route is the start alone.
pub proof fn lemma_route_to_self(map: &GameMap, start: (isize, isize), threshold: EntitySize)
    requires
        map.map_info.total_count >= 2,
    ensures
        route(map, start, start, threshold) == Some(seq![start]),
{
    let st = initial_frontier(start);
    assert(is_first_min(st.nodes, st.open, 0));
    lemma_first_min_unique(st.nodes, st.open, 0);
    assert(path_from(st.nodes, 0) == seq![start]);
}

/// Every node that has a child stands on a closed square, and no node
/// stands on a square that its chain of parents passes.
pub open spec fn tidy(st: Frontier) -> bool {
    &&& forall|n: int|
        0 <= n < st.nodes.len() ==> ((#[trigger] st.nodes[n]).parent matches Some(p) ==> p < n
            && st.closed.contains(st.nodes[p as int].position))
    &&& forall|n: int|
        0 <= n < st.nodes.len() ==> ((#[trigger] st.nodes[n]).parent matches Some(p) ==> !path_from(
            st.nodes,
            p as int,
        ).contains(st.nodes[n].position))
}

/// A node's chain of parents is the same whatever is added to the arena
/// after it.
proof fn lemma_path_stable(nodes: Seq<Node>, extra: Node, n: int)
    requires
        0 <= n < nodes.len(),
    ensures
        path_from(nodes.push(extra), n) == path_from(nodes, n),
    decreases n,
{
    match nodes[n].parent {
        Some(p) => {
            if p < n {
                lemma_path_stable(nodes, extra, p as int);
            }
        },
        None => {},
    }
    assert(nodes.push(extra)[n] == nodes[n]);
}

/// Every square that a node's chain of parents passes after the node's own
/// is closed.
proof fn lemma_path_is_closed(st: Frontier, n: int, i: int)
    requires
        tidy(st),
        0 <= n < st.nodes.len(),
        1 <= i < path_from(st.nodes, n).len(),
    ensures
        st.closed.contains(path_from(st.nodes, n)[i]),
    decreases n,
{
    let p = st.nodes[n].parent->0 as int;
    assert(st.nodes[n].parent is Some);
    assert(path_from(st.nodes, n) == seq![st.nodes[n].position] + path_from(st.nodes, p));
    assert(path_from(st.nodes, n)[i] == path_from(st.nodes, p)[i - 1]);
    if i == 1 {
        assert(path_from(st.nodes, p)[0] == st.nodes[p].position);
    } else {
        lemma_path_is_closed(st, p, i - 1);
    }
}

/// No node's chain of parents passes a square twice.
proof fn lemma_path_has_no_square_twice(st: Frontier, n: int)
    requires
        tidy(st),
        0 <= n < st.nodes.len(),
    ensures
        path_from(st.nodes, n).no_duplicates(),
    decreases n,
{
    let whole = path_from(st.nodes, n);
    match st.nodes[n].parent {
        Some(p) => {
            let rest = path_from(st.nodes, p as int);
            lemma_path_has_no_square_twice(st, p as int);
            assert(whole == seq![st.nodes[n].position] + rest);
            assert forall|i: int, j: int|
                0 <= i < whole.len() && 0 <= j < whole.len() && i != j implies whole[i]
                != whole[j] by {
                if i >= 1 {
                    assert(whole[i] == rest[i - 1]);
                }
                if j >= 1 {
                    assert(whole[j] == rest[j - 1]);
                }
            }
        },
        None => {},
    }
}

/// Looking at one neighbour of a node on a closed square keeps a frontier
/// tidy.
proof fn lemma_consider_tidy(
    map: &GameMap,
    threshold: EntitySize,
    goal: (isize, isize),
    st: Frontier,
    cur: int,
    k: int,
)
    requires
        tidy(st),
        0 <= cur < st.nodes.len(),
        cur <= usize::MAX,
        st.closed.contains(st.nodes[cur].position),
    ensures
        tidy(consider(map, threshold, goal, st, cur, k)),
        consider(map, threshold, goal, st, cur, k).closed == st.closed,
        consider(map, threshold, goal, st, cur, k).nodes.len() >= st.nodes.len(),
        consider(map, threshold, goal, st, cur, k).nodes[cur] == st.nodes[cur],
{
    let next = consider(map, threshold, goal, st, cur, k);
    if next.nodes.len() != st.nodes.len() {
        let child = next.nodes[st.nodes.len() as int];
        assert(next.nodes == st.nodes.push(child));
        assert(child.parent == Some(cur as usize));
        assert(!st.closed.contains(child.position));
        assert forall|n: int| 0 <= n < next.nodes.len() implies ((
        #[trigger] next.nodes[n]).parent matches Some(p) ==> p < n && next.closed.contains(
            next.nodes[p as int].position,
        )) by {
            if n < st.nodes.len() {
                assert(next.nodes[n] == st.nodes[n]);
                if st.nodes[n].parent is Some {
                    let p = st.nodes[n].parent->0 as int;
                    assert(next.nodes[p] == st.nodes[p]);
                }
            } else {
                assert(next.nodes[cur] == st.nodes[cur]);
            }
        }
        assert forall|n: int| 0 <= n < next.nodes.len() implies ((
        #[trigger] next.nodes[n]).parent matches Some(p) ==> !path_from(
            next.nodes,
            p as int,
        ).contains(next.nodes[n].position)) by {
            if next.nodes[n].parent is Some {
                let p = next.nodes[n].parent->0 as int;
                if n < st.nodes.len() {
                    assert(next.nodes[n] == st.nodes[n]);
                    lemma_path_stable(st.nodes, child, p);
                } else {
                    lemma_path_stable(st.nodes, child, cur);
                    let chain = path_from(st.nodes, cur);
                    if chain.contains(child.position) {
                        let i = choose|i: int| 0 <= i < chain.len() && chain[i] == child.position;
                        if i == 0 {
                            assert(chain[0] == st.nodes[cur].position);
                        } else {
                            lemma_path_is_closed(st, cur, i);
                        }
                    }
                }
            }
        }
    }
}

/// Looking at the first `k` neighbours of a node on a closed square keeps a
/// frontier tidy.
proof fn lemma_expand_tidy(
    map: &GameMap,
    threshold: EntitySize,
    goal: (isize, isize),
    st: Frontier,
    cur: int,
    k: int,
)
    requires
        tidy(st),
        0 <= cur < st.nodes.len(),
        cur <= usize::MAX,
        st.closed.contains(st.nodes[cur].position),
    ensures
        tidy(expand(map, threshold, goal, st, cur, k)),
        expand(map, threshold, goal, st, cur, k).closed == st.closed,
        expand(map, threshold, goal, st, cur, k).nodes.len() >= st.nodes.len(),
        expand(map, threshold, goal, st, cur, k).nodes[cur] == st.nodes[cur],
    decreases k,
{
    if k > 0 {
        lemma_expand_tidy(map, threshold, goal, st, cur, k - 1);
        lemma_consider_tidy(
            map,
            threshold,
            goal,
            expand(map, threshold, goal, st, cur, k - 1),
            cur,
            k - 1,
        );
    }
}

/// Whatever a search hands out from a tidy frontier holds no square twice.
proof fn lemma_search_has_no_square_twice(
    map: &GameMap,
    threshold: EntitySize,
    start: (isize, isize),
    goal: (isize, isize),
    st: Frontier,
    iter: int,
    max_iter: int,
)
    requires
        map.well_formed(),
        frontier_inv(map, threshold, start, goal, st, iter),
        tidy(st),
        0 <= iter <= max_iter < usize::MAX,
    ensures
        search(map, threshold, goal, st, iter, max_iter) matches Some(p) ==> p.no_duplicates(),
    decreases max_iter - iter,
{
    if st.open.len() == 0 || iter >= max_iter {
    } else {
        lemma_first_min(st.nodes, st.open);
        let i = first_min(st.nodes, st.open);
        let cur = st.open[i] as int;
        if st.nodes[cur].position == goal {
            lemma_path_has_no_square_twice(st, cur);
        } else {
            let taken = Frontier {
                nodes: st.nodes,
                open: st.open.remove(i),
                closed: st.closed.push(st.nodes[cur].position),
            };
            assert(taken.closed[st.closed.len() as int] == st.nodes[cur].position);
            assert forall|n: int| 0 <= n < taken.nodes.len() implies ((
            #[trigger] taken.nodes[n]).parent matches Some(p) ==> p < n && taken.closed.contains(
                taken.nodes[p as int].position,
            )) by {
                if st.nodes[n].parent is Some {
                    let p = st.nodes[n].parent->0 as int;
                    let at = choose|at: int|
                        0 <= at < st.closed.len() && st.closed[at] == st.nodes[p].position;
                    assert(taken.closed[at] == st.nodes[p].position);
                }
            }
            assert(tidy(taken));
            lemma_expand_tidy(map, threshold, goal, taken, cur, 8);
            lemma_advance(map, threshold, start, goal, st, i, iter);
            lemma_search_has_no_square_twice(
                map,
                threshold,
                start,
                goal,
                advance(map, threshold, goal, st, i),
                iter + 1,
                max_iter,
            );
        }
    }
}

/// No route passes a square twice.
pub proof fn lemma_route_has_no_square_twice(
    map: &GameMap,
    start: (isize, isize),
    goal: (isize, isize),
    threshold: EntitySize,
)
    requires
        map.well_formed(),
        map.spec_in_bounds(start.0 as int, start.1 as int),
    ensures
        route(map, start, goal, threshold) matches Some(p) ==> p.no_duplicates(),
{
    let st = initial_frontier(start);
    assert(frontier_inv(map, threshold, start, goal, st, 0));
    assert(tidy(st));
    lemma_search_has_no_square_twice(
        map,
        threshold,
        start,
        goal,
        st,
        0,
        map.map_info.total_count as int / 2,
    );
}

/// A goal walled in on every side cannot be reached from a square that is
/// neither the goal nor next to it: where no neighbour of the goal on the
/// grid is free, no route is found.
pub proof fn lemma_walled_goal_has_no_route(
    map: &GameMap,
    start: (isize, isize),
    goal: (isize, isize),
    threshold: EntitySize,
)
    requires
        map.well_formed(),
        map.spec_in_bounds(start.0 as int, start.1 as int),
        start != goal,
        !is_step(goal, start),
        forall|x: int, y: int|
            -1 <= x - goal.0 <= 1 && -1 <= y - goal.1 <= 1 && !(x == goal.0 && y == goal.1)
                ==> !#[trigger] map.spec_passable(x, y, threshold),
    ensures
        route(map, start, goal, threshold) is None,
{
    lemma_route_is_valid(map, start, goal, threshold);
    if route(map, start, goal, threshold) is Some {
        let p = route(map, start, goal, threshold)->0;
        assert(p.len() >= 2);
        let q = p[1];
        assert(is_step(q, p[0]));
        if p.len() == 2 {
            assert(q == start);
        } else {
            assert(may_step_on(map, threshold, goal, p[1].0 as int, p[1].1 as int));
            assert(map.spec_passable(q.0 as int, q.1 as int, threshold));
        }
    }
}

/// Between squares with non-negative coordinates the squared distance
/// leaves room for any number of steps to be added to it.
proof fn lemma_heuristic_on_grid(a: (isize, isize), b: (isize, isize))
    requires
        0 <= a.0,
        0 <= a.1,
        0 <= b.0,
        0 <= b.1,
    ensures
        0 <= spec_heuristic(a, b) <= u128::MAX / 2,
{
    let dx = a.0 - b.0;
    let dy = a.1 - b.1;
    assert(0 <= dx * dx <= 0x7fff_ffff_ffff_ffff * 0x7fff_ffff_ffff_ffff) by (nonlinear_arith)
        requires
            -0x7fff_ffff_ffff_ffff <= dx <= 0x7fff_ffff_ffff_ffff,
    ;
    assert(0 <= dy * dy <= 0x7fff_ffff_ffff_ffff * 0x7fff_ffff_ffff_ffff) by (nonlinear_arith)
        requires
            -0x7fff_ffff_ffff_ffff <= dy <= 0x7fff_ffff_ffff_ffff,
    ;
}

/// Squared straight-line distance between two squares, wherever they lie,
/// as long as it fits the result.
pub fn heuristic(a: (isize, isize), b: (isize, isize)) -> (h: u128)
    requires
        spec_heuristic(a, b) <= u128::MAX,
    ensures
        h == spec_heuristic(a, b),
{
    let dx: i128 = a.0 as i128 - b.0 as i128;
    let dy: i128 = a.1 as i128 - b.1 as i128;
    let wx: u128 = if dx >= 0 {
        dx as u128
    } else {
        (-dx) as u128
    };
    let wy: u128 = if dy >= 0 {
        dy as u128
    } else {
        (-dy) as u128
    };
    assert(wx * wx <= 0xffff_ffff_ffff_ffff * 0xffff_ffff_ffff_ffff) by (nonlinear_arith)
        requires
            0 <= wx <= 0xffff_ffff_ffff_ffff,
    ;
    assert(wy * wy <= 0xffff_ffff_ffff_ffff * 0xffff_ffff_ffff_ffff) by (nonlinear_arith)
        requires
            0 <= wy <= 0xffff_ffff_ffff_ffff,
    ;
    assert(wx * wx == (a.0 - b.0) * (a.0 - b.0)) by (nonlinear_arith)
        requires
            wx == a.0 - b.0 || wx == b.0 - a.0,
    ;
    assert(wy * wy == (a.1 - b.1) * (a.1 - b.1)) by (nonlinear_arith)
        requires
            wy == a.1 - b.1 || wy == b.1 - a.1,
    ;
    wx * wx + wy * wy
}

/// Finds the place in `open` of the cheapest node, the earliest one among
/// equals.
pub fn pick_lowest(nodes: &Vec<Node>, open: &Vec<usize>) -> (i: usize)
    requires
        open@.len() > 0,
        forall|j: int| 0 <= j < open@.len() ==> (#[trigger] open@[j]) < nodes@.len(),
    ensures
        is_first_min(nodes@, open@, i as int),
        i as int == first_min(nodes@, open@),
{
    let mut best: usize = 0;
    let mut j: usize = 1;
    while j < open.len()
        invariant
            1 <= j <= open@.len(),
            forall|j: int| 0 <= j < open@.len() ==> (#[trigger] open@[j]) < nodes@.len(),
            is_first_min(nodes@, open@.subrange(0, j as int), best as int),
        decreases open@.len() - j,
    {
        let ghost short = open@.subrange(0, j as int);
        let ghost long = open@.subrange(0, j + 1);
        let ghost prev = best;
        if nodes[open[j]].f < nodes[open[best]].f {
            best = j;
        }
        proof {
            assert forall|m: int| 0 <= m < long.len() implies nodes@[long[best as int] as int].f
                <= nodes@[#[trigger] long[m] as int].f by {
                if m < j {
                    assert(short[m] == long[m]);
                }
            }
            assert forall|m: int| 0 <= m < best implies nodes@[#[trigger] long[m] as int].f
                > nodes@[long[best as int] as int].f by {
                assert(short[m] == long[m]);
            }
        }
        j = j + 1;
    }
    proof {
        assert(open@.subrange(0, j as int) =~= open@);
        lemma_first_min_unique(nodes@, open@, best as int);
    }
    best
}

/// Decides whether square `p` has been expanded already.
pub fn is_closed(closed: &Vec<(isize, isize)>, p: (isize, isize)) -> (r: bool)
    ensures
        r == closed@.contains(p),
{
    let mut j: usize = 0;
    while j < closed.len()
        invariant
            j <= closed@.len(),
            forall|m: int| 0 <= m < j ==> closed@[m] != p,
        decreases closed@.len() - j,
    {
        if closed[j].0 == p.0 && closed[j].1 == p.1 {
            return true;
        }
        j = j + 1;
    }
    false
}

/// Decides whether an open node already stands on `p` at a cost of at most
/// `g`.
pub fn is_dominated(nodes: &Vec<Node>, open: &Vec<usize>, p: (isize, isize), g: usize) -> (r:
    bool)
    requires
        forall|j: int| 0 <= j < open@.len() ==> (#[trigger] open@[j]) < nodes@.len(),
    ensures
        r == dominated(nodes@, open@, p, g as int),
{
    let mut j: usize = 0;
    while j < open.len()
        invariant
            j <= open@.len(),
            forall|j: int| 0 <= j < open@.len() ==> (#[trigger] open@[j]) < nodes@.len(),
            forall|m: int|
                0 <= m < j ==> !(nodes@[#[trigger] open@[m] as int].position == p
                    && nodes@[open@[m] as int].g <= g),
        decreases open@.len() - j,
    {
        let other = &nodes[open[j]];
        if other.position.0 == p.0 && other.position.1 == p.1 && other.g <= g {
            return true;
        }
        j = j + 1;
    }
    false
}

/// Walks from node `idx` up its chain of parents and returns the squares
/// passed, `idx` first.
pub fn make_path(nodes: &Vec<Node>, idx: usize) -> (path: Vec<(isize, isize)>)
    requires
        idx < nodes@.len(),
    ensures
        path@ == path_from(nodes@, idx as int),
{
    let mut path: Vec<(isize, isize)> = Vec::new();
    let mut current: usize = idx;
    loop
        invariant
            current < nodes@.len(),
            path@ + path_from(nodes@, current as int) == path_from(nodes@, idx as int),
        decreases current,
    {
        let node = &nodes[current];
        let ghost before = path@;
        path.push(node.position);
        match node.parent {
            Some(p) => {
                if p < current {
                    proof {
                        assert(before + (seq![node.position] + path_from(nodes@, p as int))
                            =~= path@ + path_from(nodes@, p as int));
                    }
                    current = p;
                } else {
                    proof {
                        assert(before + seq![node.position] =~= path@);
                    }
                    return path;
                }
            },
            None => {
                proof {
                    assert(before + seq![node.position] =~= path@);
                }
                return path;
            },
        }
    }
}

/// Looks at the eight neighbours of node `cur` in order, adding to the arena
/// and the open list each one the search may step onto that is neither
/// closed nor dominated by an open node.
fn expand_node(
    map: &GameMap,
    threshold: EntitySize,
    goal: (isize, isize),
    nodes: &mut Vec<Node>,
    open: &mut Vec<usize>,
    closed: &Vec<(isize, isize)>,
    cur: usize,
    Ghost(start): Ghost<(isize, isize)>,
    Ghost(bound): Ghost<int>,
)
    requires
        map.well_formed(),
        map.spec_in_bounds(goal.0 as int, goal.1 as int),
        frontier_inv(
            map,
            threshold,
            start,
            goal,
            Frontier { nodes: old(nodes)@, open: old(open)@, closed: closed@ },
            bound,
        ),
        cur < old(nodes)@.len(),
        old(nodes)@[cur as int].g + 1 <= bound,
        bound <= usize::MAX,
    ensures
        (Frontier { nodes: final(nodes)@, open: final(open)@, closed: closed@ }) == expand(
            map,
            threshold,
            goal,
            Frontier { nodes: old(nodes)@, open: old(open)@, closed: closed@ },
            cur as int,
            8,
        ),
        frontier_inv(
            map,
            threshold,
            start,
            goal,
            Frontier { nodes: final(nodes)@, open: final(open)@, closed: closed@ },
            bound,
        ),
{
    let ghost base = Frontier { nodes: nodes@, open: open@, closed: closed@ };
    let from: Node = nodes[cur];
    let mut k: usize = 0;
    while k < 8
        invariant
            k <= 8,
            map.well_formed(),
            map.spec_in_bounds(goal.0 as int, goal.1 as int),
            cur < nodes@.len(),
            nodes@[cur as int] == from,
            from.g + 1 <= bound,
            bound <= usize::MAX,
            (Frontier { nodes: nodes@, open: open@, closed: closed@ }) == expand(
                map,
                threshold,
                goal,
                base,
                cur as int,
                k as int,
            ),
            frontier_inv(
                map,
                threshold,
                start,
                goal,
                Frontier { nodes: nodes@, open: open@, closed: closed@ },
                bound,
            ),
        decreases 8 - k,
    {
        let ghost st = Frontier { nodes: nodes@, open: open@, closed: closed@ };
        proof {
            lemma_consider(map, threshold, start, goal, st, cur as int, k as int, bound);
            assert(map.spec_in_bounds(from.position.0 as int, from.position.1 as int));
            lemma_index_in_range(map, from.position.0 as int, from.position.1 as int);
        }
        let step = adjacent_square(k);
        let p: (isize, isize) = (from.position.0 + step.0, from.position.1 + step.1);
        if map.in_bounds(p) {
            let at_goal: bool = p.0 == goal.0 && p.1 == goal.1;
            if (at_goal || map.passable(p, threshold)) && !is_closed(closed, p) {
                let g: usize = from.g + 1;
                if !is_dominated(nodes, open, p, g) {
                    proof {
                        lemma_heuristic_on_grid(p, goal);
                    }
                    let h: u128 = heuristic(p, goal);
                    let child = Node { parent: Some(cur), position: p, g, h, f: g as u128 + h };
                    let at: usize = nodes.len();
                    nodes.push(child);
                    open.push(at);
                }
            }
        }
        proof {
            let next = consider(map, threshold, goal, st, cur as int, k as int);
            let now = Frontier { nodes: nodes@, open: open@, closed: closed@ };
            assert(now.nodes =~= next.nodes);
            assert(now.open =~= next.open);
            assert(now == next);
        }
        k = k + 1;
    }
}

/// Searches for a route from `start` to `goal`, moving one square at a time
/// in any of the eight directions, onto squares whose occupant is smaller
/// than `threshold` or onto the goal itself. A route passes no square
/// twice.
///
/// A map that is not well formed, or an end point off the grid, is refused.
/// Otherwise the result is `route`: the squares from the goal back to the
/// start when the search reaches the goal, and `None` when the open list
/// runs dry or half as many nodes as the map has cells have been expanded.
pub fn find_path(
    map: &GameMap,
    start: (isize, isize),
    goal: (isize, isize),
    threshold: EntitySize,
) -> (r: Result<Option<Vec<(isize, isize)>>, MapError>)
    ensures
        !map.well_formed() ==> r == Err::<Option<Vec<(isize, isize)>>, MapError>(
            MapError::MalformedMap,
        ),
        map.well_formed() && !(map.spec_in_bounds(start.0 as int, start.1 as int)
            && map.spec_in_bounds(goal.0 as int, goal.1 as int)) ==> r == Err::<
            Option<Vec<(isize, isize)>>,
            MapError,
        >(MapError::OutOfBounds),
        map.well_formed() && map.spec_in_bounds(start.0 as int, start.1 as int)
            && map.spec_in_bounds(goal.0 as int, goal.1 as int) ==> match r {
            Ok(Some(path)) => route(map, start, goal, threshold) == Some(path@) && valid_route(
                map,
                threshold,
                start,
                goal,
                path@,
            ) && path@.no_duplicates() && path@.len() <= map.map_info.total_count / 2,
            Ok(None) => route(map, start, goal, threshold) is None,
            Err(_) => false,
        },
{
    if !map.is_well_formed() {
        return Err(MapError::MalformedMap);
    }
    if !map.in_bounds(start) || !map.in_bounds(goal) {
        return Err(MapError::OutOfBounds);
    }
    let max_iter: usize = map.map_info.total_count / 2;
    let ghost answer = route(map, start, goal, threshold);
    proof {
        lemma_route_is_valid(map, start, goal, threshold);
        lemma_route_has_no_square_twice(map, start, goal, threshold);
    }
    let mut nodes: Vec<Node> = Vec::new();
    nodes.push(Node::new(None, start));
    let mut open: Vec<usize> = Vec::new();
    open.push(0);
    let mut closed: Vec<(isize, isize)> = Vec::new();
    let mut iter: usize = 0;
    proof {
        assert(nodes@ =~= initial_frontier(start).nodes);
        assert(open@ =~= initial_frontier(start).open);
        assert(closed@ =~= initial_frontier(start).closed);
    }
    while open.len() > 0
        invariant
            map.well_formed(),
            map.spec_in_bounds(goal.0 as int, goal.1 as int),
            max_iter == map.map_info.total_count / 2,
            iter <= max_iter,
            answer == route(map, start, goal, threshold),
            answer matches Some(p) ==> valid_route(map, threshold, start, goal, p)
                && p.no_duplicates() && p.len() <= max_iter,
            frontier_inv(
                map,
                threshold,
                start,
                goal,
                Frontier { nodes: nodes@, open: open@, closed: closed@ },
                iter as int,
            ),
            search(
                map,
                threshold,
                goal,
                Frontier { nodes: nodes@, open: open@, closed: closed@ },
                iter as int,
                max_iter as int,
            ) == answer,
        decreases max_iter - iter,
    {
        if iter >= max_iter {
            return Ok(None);
        }
        let ghost st = Frontier { nodes: nodes@, open: open@, closed: closed@ };
        let i: usize = pick_lowest(&nodes, &open);
        let cur: usize = open.remove(i);
        let position: (isize, isize) = nodes[cur].position;
        if position.0 == goal.0 && position.1 == goal.1 {
            let path = make_path(&nodes, cur);
            return Ok(Some(path));
        }
        closed.push(position);
        proof {
            let taken = Frontier { nodes: nodes@, open: open@, closed: closed@ };
            assert forall|j: int| 0 <= j < taken.open.len() implies (#[trigger] taken.open[j])
                < taken.nodes.len() by {
                if j < i {
                    assert(taken.open[j] == st.open[j]);
                } else {
                    assert(taken.open[j] == st.open[j + 1]);
                }
            }
            assert(frontier_inv(map, threshold, start, goal, taken, iter + 1));
        }
        expand_node(
            map,
            threshold,
            goal,
            &mut nodes,
            &mut open,
            &closed,
            cur,
            Ghost(start),
            Ghost(iter + 1),
        );
        iter = iter + 1;
    }
    Ok(None)
}

/// Searches for a route from `start` to `end` past everything larger than
/// `Small`: `find_path` with the usual movement threshold.
pub fn astar(game_map: &GameMap, start: (isize, isize), end: (isize, isize)) -> (r: Result<
    Option<Vec<(isize, isize)>>,
    MapError,
>)
    ensures
        !game_map.well_formed() ==> r == Err::<Option<Vec<(isize, isize)>>, MapError>(
            MapError::MalformedMap,
        ),
        game_map.well_formed() && !(game_map.spec_in_bounds(start.0 as int, start.1 as int)
            && game_map.spec_in_bounds(end.0 as int, end.1 as int)) ==> r == Err::<
            Option<Vec<(isize, isize)>>,
            MapError,
        >(MapError::OutOfBounds),
        game_map.well_formed() && game_map.spec_in_bounds(start.0 as int, start.1 as int)
            && game_map.spec_in_bounds(end.0 as int, end.1 as int) ==> match r {
            Ok(Some(path)) => route(game_map, start, end, movement_threshold()) == Some(path@)
                && valid_route(game_map, movement_threshold(), start, end, path@)
                && path@.no_duplicates() && path@.len() <= game_map.map_info.total_count / 2,
            Ok(None) => route(game_map, start, end, movement_threshold()) is None,
            Err(_) => false,
        },
{
    find_path(game_map, start, end, movement_threshold())
}

} // verus!
