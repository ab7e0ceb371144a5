//! Route planning: a breadth-first search over the grid.

use crate::city::{direction_between, City, Coord, Direction, VehicleKind};
use crate::grid::{is_valid_position_for_vehicle, valid_position};
use crate::matrix::{lemma_offset_in_range, lemma_update_at, Matrix};
use std::collections::VecDeque;
use vstd::prelude::*;

verus! {

/// Whether `p` lies in the grid.
pub open spec fn in_grid(city: City, p: Coord) -> bool {
    p.0 < city.spec_rows() && p.1 < city.spec_cols()
}

/// The number of unit steps between two cells.
pub open spec fn manhattan(a: Coord, b: Coord) -> int {
    (if a.0 >= b.0 {
        a.0 - b.0
    } else {
        b.0 - a.0
    }) + (if a.1 >= b.1 {
        a.1 - b.1
    } else {
        b.1 - a.1
    })
}

/// Whether `a` is `b` or a cell next to it.
pub open spec fn near(a: Coord, b: Coord) -> bool {
    manhattan(a, b) <= 1
}

/// Whether a vehicle of kind `kind` may step from `a` to `b`: `b` is the
/// cardinal neighbour of the grid cell `a` in a direction that `a` allows,
/// and `b` is a cell for that kind of vehicle.
pub open spec fn step_ok(city: City, kind: VehicleKind, a: Coord, b: Coord) -> bool {
    &&& in_grid(city, a)
    &&& direction_between(a, b) matches Some(d) && city.at(a.0 as int, a.1 as int).dirs.allows(d)
    &&& valid_position(city, b, kind)
}

/// Whether `path` is a walk through the grid made of allowed steps.
pub open spec fn is_route(city: City, kind: VehicleKind, path: Seq<Coord>) -> bool {
    &&& path.len() >= 1
    &&& in_grid(city, path[0])
    &&& forall|i: int| 0 <= i < path.len() - 1 ==> step_ok(city, kind, #[trigger] path[i], path[i + 1])
}

/// Whether `path` is a route that leaves from `start` and ends at `goal`
/// or next to it.
pub open spec fn reaches(
    city: City,
    kind: VehicleKind,
    start: Coord,
    goal: Coord,
    path: Seq<Coord>,
) -> bool {
    &&& is_route(city, kind, path)
    &&& path[0] == start
    &&& near(path.last(), goal)
}

/// The number of `false` entries.
pub open spec fn count_false(s: Seq<bool>) -> nat
    decreases s.len(),
{
    if s.len() == 0 {
        0
    } else {
        count_false(s.drop_last()) + if s.last() {
            0nat
        } else {
            1nat
        }
    }
}

proof fn lemma_count_false_update(s: Seq<bool>, i: int)
    requires
        0 <= i < s.len(),
        !s[i],
    ensures
        count_false(s.update(i, true)) + 1 == count_false(s),
    decreases s.len(),
{
    let t = s.update(i, true);
    if i == s.len() - 1 {
        assert(t.drop_last() =~= s.drop_last());
    } else {
        lemma_count_false_update(s.drop_last(), i);
        assert(t.drop_last() =~= s.drop_last().update(i, true));
    }
}

/// What the search knows of the visited cell `p`: a route from `start`
/// leads to it, no cell of which is at the goal or next to it, and the
/// route goes through the parent of `p`.
pub open spec fn node_ok(
    city: City,
    kind: VehicleKind,
    start: Coord,
    goal: Coord,
    visited: Matrix<bool>,
    parent: Matrix<Coord>,
    routes: Map<Coord, Seq<Coord>>,
    p: Coord,
) -> bool {
    let r = routes[p];
    &&& routes.dom().contains(p)
    &&& is_route(city, kind, r)
    &&& r[0] == start
    &&& r.last() == p
    &&& forall|i: int| 0 <= i < r.len() ==> !near(#[trigger] r[i], goal)
    &&& if p == start {
        r == seq![start]
    } else {
        let q = parent.at(p.0 as int, p.1 as int);
        &&& in_grid(city, q)
        &&& visited.at(q.0 as int, q.1 as int)
        &&& routes.dom().contains(q)
        &&& r == routes[q].push(p)
    }
}

/// The state of a search: marks and parents cover the grid, the start is
/// visited, and every visited cell is known by its route.
#[verifier::opaque]
pub open spec fn search_ok(
    city: City,
    kind: VehicleKind,
    start: Coord,
    goal: Coord,
    visited: Matrix<bool>,
    parent: Matrix<Coord>,
    routes: Map<Coord, Seq<Coord>>,
) -> bool {
    &&& visited.wf()
    &&& parent.wf()
    &&& visited.spec_rows() == city.spec_rows()
    &&& visited.spec_cols() == city.spec_cols()
    &&& parent.spec_rows() == city.spec_rows()
    &&& parent.spec_cols() == city.spec_cols()
    &&& in_grid(city, start)
    &&& visited.at(start.0 as int, start.1 as int)
    &&& forall|p: Coord|
        in_grid(city, p) && #[trigger] visited.at(p.0 as int, p.1 as int) ==> node_ok(
            city,
            kind,
            start,
            goal,
            visited,
            parent,
            routes,
            p,
        )
}

/// The position of a direction in the order in which neighbours are
/// tried: north, south, east, west.
pub open spec fn direction_rank(d: Direction) -> int {
    match d {
        Direction::North => 0,
        Direction::South => 1,
        Direction::East => 2,
        Direction::West => 3,
    }
}

/// Whether the search still has to look at the step from `a` to `b`: `a`
/// waits in `queue`, or is `current` and the step goes in a direction of
/// rank `tried` or above.
pub open spec fn pending(queue: Seq<Coord>, current: Coord, tried: int, a: Coord, b: Coord) -> bool {
    ||| queue.contains(a)
    ||| (a == current && direction_rank(direction_between(a, b)->0) >= tried)
}

/// Every allowed step from a visited cell that the search has looked at
/// leads to a visited cell whose route is longer by one cell at most.
#[verifier::opaque]
pub open spec fn settled(
    city: City,
    kind: VehicleKind,
    visited: Matrix<bool>,
    routes: Map<Coord, Seq<Coord>>,
    queue: Seq<Coord>,
    current: Coord,
    tried: int,
) -> bool {
    forall|a: Coord, b: Coord|
        in_grid(city, a) && visited.at(a.0 as int, a.1 as int) && #[trigger] step_ok(
            city,
            kind,
            a,
            b,
        ) ==> pending(queue, current, tried, a, b) || (visited.at(b.0 as int, b.1 as int)
            && routes[b].len() <= routes[a].len() + 1)
}

/// The cells in `queue` are visited cells of the grid in the order of the
/// length of their routes, none with a route shorter than `floor`, and no
/// visited cell has a route longer than `floor + 1`.
#[verifier::opaque]
pub open spec fn layered(
    city: City,
    visited: Matrix<bool>,
    routes: Map<Coord, Seq<Coord>>,
    queue: Seq<Coord>,
    floor: int,
) -> bool {
    &&& forall|j: int|
        0 <= j < queue.len() ==> in_grid(city, #[trigger] queue[j]) && visited.at(
            queue[j].0 as int,
            queue[j].1 as int,
        ) && routes[queue[j]].len() >= floor
    &&& forall|i: int, j: int|
        0 <= i <= j < queue.len() ==> routes[#[trigger] queue[i]].len() <= routes[#[trigger] queue[j]].len()
    &&& forall|p: Coord|
        in_grid(city, p) && #[trigger] visited.at(p.0 as int, p.1 as int) ==> routes[p].len()
            <= floor + 1
}

/// Along a route from the start, up to the first cell at which the search
/// still has a step to look at, every cell is visited by a route that is
/// no longer than the way to it.
proof fn lemma_route_is_covered(
    city: City,
    kind: VehicleKind,
    start: Coord,
    goal: Coord,
    visited: Matrix<bool>,
    parent: Matrix<Coord>,
    routes: Map<Coord, Seq<Coord>>,
    queue: Seq<Coord>,
    current: Coord,
    tried: int,
    path: Seq<Coord>,
    k: int,
) -> (first: int)
    requires
        search_ok(city, kind, start, goal, visited, parent, routes),
        settled(city, kind, visited, routes, queue, current, tried),
        is_route(city, kind, path),
        path[0] == start,
        0 <= k < path.len(),
    ensures
        0 <= first <= k,
        in_grid(city, path[first]),
        visited.at(path[first].0 as int, path[first].1 as int),
        routes[path[first]].len() <= first + 1,
        first < k ==> pending(queue, current, tried, path[first], path[first + 1]),
    decreases k,
{
    if k == 0 {
        assert(in_grid(city, start) && visited.at(start.0 as int, start.1 as int)) by {
            reveal(search_ok);
        }
        lemma_parent_link(city, kind, start, goal, visited, parent, routes, start);
        0
    } else {
        let before = lemma_route_is_covered(
            city,
            kind,
            start,
            goal,
            visited,
            parent,
            routes,
            queue,
            current,
            tried,
            path,
            k - 1,
        );
        if before < k - 1 {
            before
        } else {
            assert(step_ok(city, kind, path[k - 1], path[k]));
            reveal(settled);
            if pending(queue, current, tried, path[k - 1], path[k]) {
                before
            } else {
                k
            }
        }
    }
}

fn is_near(a: Coord, b: Coord) -> (r: bool)
    ensures
        r == near(a, b),
{
    if a.0 == b.0 {
        if a.1 >= b.1 {
            a.1 - b.1 <= 1
        } else {
            b.1 - a.1 <= 1
        }
    } else if a.1 == b.1 {
        if a.0 >= b.0 {
            a.0 - b.0 <= 1
        } else {
            b.0 - a.0 <= 1
        }
    } else {
        false
    }
}

/// The direction of rank `i`.
fn direction_at(i: usize) -> (d: Direction)
    requires
        i < 4,
    ensures
        direction_rank(d) == i,
{
    if i == 0 {
        Direction::North
    } else if i == 1 {
        Direction::South
    } else if i == 2 {
        Direction::East
    } else {
        Direction::West
    }
}

/// The grid cell next to `cur` in direction `d`, if there is one.
fn neighbor(city: &City, cur: Coord, d: Direction) -> (n: Option<Coord>)
    requires
        city.wf(),
        in_grid(*city, cur),
    ensures
        n matches Some(b) ==> in_grid(*city, b) && direction_between(cur, b) == Some(d),
        n is None ==> forall|b: Coord| in_grid(*city, b) ==> direction_between(cur, b) != Some(d),
{
    let (row, col) = cur;
    match d {
        Direction::North => if row > 0 {
            Some((row - 1, col))
        } else {
            None
        },
        Direction::South => if row + 1 < city.rows() {
            Some((row + 1, col))
        } else {
            None
        },
        Direction::East => if col + 1 < city.cols() {
            Some((row, col + 1))
        } else {
            None
        },
        Direction::West => if col > 0 {
            Some((row, col - 1))
        } else {
            None
        },
    }
}

/// `path` back to front.
fn reversed(path: &Vec<Coord>) -> (out: Vec<Coord>)
    ensures
        out@ == path@.reverse(),
{
    let n = path.len();
    let mut out: Vec<Coord> = Vec::new();
    let mut i: usize = 0;
    while i < n
        invariant
            n == path@.len(),
            i <= n,
            out@.len() == i,
            forall|j: int| 0 <= j < i ==> out@[j] == path@[n - 1 - j],
        decreases n - i,
    {
        out.push(path[n - 1 - i]);
        i += 1;
    }
    proof {
        assert(out@ =~= path@.reverse());
    }
    out
}

/// The route to a visited cell other than the start is the route to its
/// parent and then the cell; the route to the start is the start alone.
proof fn lemma_parent_link(
    city: City,
    kind: VehicleKind,
    start: Coord,
    goal: Coord,
    visited: Matrix<bool>,
    parent: Matrix<Coord>,
    routes: Map<Coord, Seq<Coord>>,
    p: Coord,
)
    requires
        search_ok(city, kind, start, goal, visited, parent, routes),
        in_grid(city, p),
        visited.at(p.0 as int, p.1 as int),
    ensures
        parent.wf(),
        parent.spec_rows() == city.spec_rows(),
        parent.spec_cols() == city.spec_cols(),
        p == start ==> routes[p] == seq![start],
        p != start ==> {
            let q = parent.at(p.0 as int, p.1 as int);
            &&& in_grid(city, q)
            &&& visited.at(q.0 as int, q.1 as int)
            &&& routes[p] == routes[q].push(p)
        },
{
    reveal(search_ok);
    assert(node_ok(city, kind, start, goal, visited, parent, routes, p));
}

/// The route from the start through `current` to `next`, read off the
/// parents.
fn trace_back(
    city: &City,
    start: Coord,
    current: Coord,
    next: Coord,
    visited: &Matrix<bool>,
    parent: &Matrix<Coord>,
    Ghost(kind): Ghost<VehicleKind>,
    Ghost(goal): Ghost<Coord>,
    Ghost(routes): Ghost<Map<Coord, Seq<Coord>>>,
) -> (path: Vec<Coord>)
    requires
        city.wf(),
        search_ok(*city, kind, start, goal, *visited, *parent, routes),
        in_grid(*city, current),
        visited.at(current.0 as int, current.1 as int),
    ensures
        path@ == routes[current].push(next),
{
    let mut back: Vec<Coord> = Vec::new();
    back.push(next);
    let mut cur = current;
    let ghost full = routes[current].push(next);
    proof {
        assert(back@.reverse() =~= seq![next]);
        assert(full =~= routes[cur] + back@.reverse());
    }
    while cur.0 != start.0 || cur.1 != start.1
        invariant
            city.wf(),
            search_ok(*city, kind, start, goal, *visited, *parent, routes),
            in_grid(*city, cur),
            visited.at(cur.0 as int, cur.1 as int),
            full == routes[cur] + back@.reverse(),
        decreases routes[cur].len(),
    {
        proof {
            lemma_parent_link(*city, kind, start, goal, *visited, *parent, routes, cur);
            lemma_offset_in_range(
                city.spec_rows() as int,
                city.spec_cols() as int,
                cur.0 as int,
                cur.1 as int,
            );
        }
        let ghost before = back@;
        back.push(cur);
        let up = *parent.get(cur.0, cur.1);
        proof {
            assert(back@.reverse() =~= seq![cur] + before.reverse());
            assert(routes[cur] + before.reverse() =~= routes[up] + back@.reverse());
        }
        cur = up;
    }
    proof {
        assert(cur == start);
        lemma_parent_link(*city, kind, start, goal, *visited, *parent, routes, cur);
    }
    let ghost before = back@;
    back.push(start);
    proof {
        assert(back@.reverse() =~= seq![start] + before.reverse());
    }
    reversed(&back)
}

/// A search starts in order: only the start is visited, and it waits in the queue.
proof fn lemma_search_starts(
    city: City,
    kind: VehicleKind,
    start: Coord,
    goal: Coord,
    blank: Matrix<bool>,
    visited: Matrix<bool>,
    parent: Matrix<Coord>,
)
    requires
        city.wf(),
        in_grid(city, start),
        !near(start, goal),
        blank.wf(),
        parent.wf(),
        blank.spec_rows() == city.spec_rows(),
        blank.spec_cols() == city.spec_cols(),
        parent.spec_rows() == city.spec_rows(),
        parent.spec_cols() == city.spec_cols(),
        forall|i: int| 0 <= i < blank@.len() ==> crate::matrix::is_default_value(#[trigger] blank@[i]),
        visited@ == blank@.update(blank.offset(start.0 as int, start.1 as int), true),
        visited.spec_rows() == blank.spec_rows(),
        visited.spec_cols() == blank.spec_cols(),
    ensures
        search_ok(city, kind, start, goal, visited, parent, Map::empty().insert(start, seq![start])),
        layered(city, visited, Map::empty().insert(start, seq![start]), seq![start], 1),
        settled(
            city,
            kind,
            visited,
            Map::empty().insert(start, seq![start]),
            seq![start],
            start,
            4,
        ),
{
    reveal(search_ok);
    reveal(settled);
    reveal(layered);
    let rows = city.spec_rows() as int;
    let cols = city.spec_cols() as int;
    let routes = Map::<Coord, Seq<Coord>>::empty().insert(start, seq![start]);
    assert forall|r: int, c: int| 0 <= r < rows && 0 <= c < cols implies !(#[trigger] blank.at(
        r,
        c,
    )) by {
        lemma_offset_in_range(rows, cols, r, c);
        assert(crate::matrix::is_default_value(blank@[blank.offset(r, c)]));
    }
    lemma_update_at(blank, visited, start.0 as int, start.1 as int, true);
    assert(routes[start] =~= seq![start]);
    assert(node_ok(city, kind, start, goal, visited, parent, routes, start));
    assert forall|p: Coord|
        in_grid(city, p) && #[trigger] visited.at(p.0 as int, p.1 as int) implies p == start by {
        if p != start {
            assert(visited.at(p.0 as int, p.1 as int) == blank.at(p.0 as int, p.1 as int));
        }
    }
    assert(seq![start][0] == start);
    assert(seq![start].contains(start));
}

/// Taking the head of the queue as the current cell keeps the search in order.
proof fn lemma_search_pops(
    city: City,
    kind: VehicleKind,
    visited: Matrix<bool>,
    routes: Map<Coord, Seq<Coord>>,
    waiting: Seq<Coord>,
    anyone: Coord,
)
    requires
        waiting.len() > 0,
        layered(city, visited, routes, waiting, routes[waiting[0]].len() as int),
        settled(city, kind, visited, routes, waiting, anyone, 4),
    ensures
        layered(city, visited, routes, waiting.drop_first(), routes[waiting[0]].len() as int),
        settled(city, kind, visited, routes, waiting.drop_first(), waiting[0], 0),
        in_grid(city, waiting[0]),
        visited.at(waiting[0].0 as int, waiting[0].1 as int),
{
    reveal(settled);
    reveal(layered);
    let rest = waiting.drop_first();
    assert forall|j: int| 0 <= j < rest.len() implies in_grid(city, #[trigger] rest[j])
        && visited.at(rest[j].0 as int, rest[j].1 as int) && routes[rest[j]].len()
        >= routes[waiting[0]].len() by {
        assert(rest[j] == waiting[j + 1]);
        assert(routes[waiting[0]].len() <= routes[waiting[j + 1]].len());
    }
    assert forall|i: int, j: int| 0 <= i <= j < rest.len() implies routes[#[trigger] rest[i]].len()
        <= routes[#[trigger] rest[j]].len() by {
        assert(rest[i] == waiting[i + 1]);
        assert(rest[j] == waiting[j + 1]);
        assert(routes[waiting[i + 1]].len() <= routes[waiting[j + 1]].len());
    }
    assert forall|a: Coord| waiting.contains(a) implies a == waiting[0] || rest.contains(a) by {
        let k = choose|k: int| 0 <= k < waiting.len() && waiting[k] == a;
        if k > 0 {
            assert(rest[k - 1] == a);
        }
    }
}

/// Once all four directions are dealt with, the current cell is like any
/// other visited cell, and the head of the queue sets the next layer.
proof fn lemma_search_moves_on(
    city: City,
    kind: VehicleKind,
    visited: Matrix<bool>,
    routes: Map<Coord, Seq<Coord>>,
    queue: Seq<Coord>,
    current: Coord,
    anyone: Coord,
)
    requires
        settled(city, kind, visited, routes, queue, current, 4),
        layered(city, visited, routes, queue, routes[current].len() as int),
    ensures
        settled(city, kind, visited, routes, queue, anyone, 4),
        queue.len() > 0 ==> layered(city, visited, routes, queue, routes[queue[0]].len() as int),
{
    reveal(settled);
    reveal(layered);
    if queue.len() > 0 {
        assert(routes[queue[0]].len() >= routes[current].len());
        assert forall|j: int| 0 <= j < queue.len() implies routes[#[trigger] queue[j]].len()
            >= routes[queue[0]].len() by {
            assert(routes[queue[0]].len() <= routes[queue[j]].len());
        }
    }
}

/// A direction in which the current cell has no step to a cell that is
/// not visited yet is dealt with.
proof fn lemma_search_skips(
    city: City,
    kind: VehicleKind,
    visited: Matrix<bool>,
    routes: Map<Coord, Seq<Coord>>,
    queue: Seq<Coord>,
    current: Coord,
    d: Direction,
)
    requires
        settled(city, kind, visited, routes, queue, current, direction_rank(d)),
        layered(city, visited, routes, queue, routes[current].len() as int),
        forall|b: Coord|
            #[trigger] step_ok(city, kind, current, b) && direction_between(current, b) == Some(d)
                ==> in_grid(city, b) && visited.at(b.0 as int, b.1 as int),
    ensures
        settled(city, kind, visited, routes, queue, current, direction_rank(d) + 1),
{
    reveal(settled);
    reveal(layered);
}

/// `after` marks the cells that `before` marks and the cell `next`.
pub open spec fn marks_one_more(
    city: City,
    before: Matrix<bool>,
    after: Matrix<bool>,
    next: Coord,
) -> bool {
    &&& in_grid(city, next)
    &&& !before.at(next.0 as int, next.1 as int)
    &&& forall|p: Coord|
        in_grid(city, p) ==> (#[trigger] after.at(p.0 as int, p.1 as int) <==> p == next
            || before.at(p.0 as int, p.1 as int))
}

/// Visiting the cell `next`, found by an allowed step from the current
/// cell and not near the goal, keeps every visited cell known by its route.
proof fn lemma_visit_keeps_routes(
    city: City,
    kind: VehicleKind,
    start: Coord,
    goal: Coord,
    visited: Matrix<bool>,
    parent: Matrix<Coord>,
    routes: Map<Coord, Seq<Coord>>,
    current: Coord,
    next: Coord,
    visited_after: Matrix<bool>,
    parent_after: Matrix<Coord>,
)
    requires
        city.wf(),
        search_ok(city, kind, start, goal, visited, parent, routes),
        in_grid(city, current),
        visited.at(current.0 as int, current.1 as int),
        step_ok(city, kind, current, next),
        !visited.at(next.0 as int, next.1 as int),
        !near(next, goal),
        visited_after@ == visited@.update(visited.offset(next.0 as int, next.1 as int), true),
        visited_after.spec_rows() == visited.spec_rows(),
        visited_after.spec_cols() == visited.spec_cols(),
        parent_after@ == parent@.update(parent.offset(next.0 as int, next.1 as int), current),
        parent_after.spec_rows() == parent.spec_rows(),
        parent_after.spec_cols() == parent.spec_cols(),
    ensures
        search_ok(
            city,
            kind,
            start,
            goal,
            visited_after,
            parent_after,
            routes.insert(next, routes[current].push(next)),
        ),
        marks_one_more(city, visited, visited_after, next),
        count_false(visited_after@) + 1 == count_false(visited@),
        routes.dom().contains(current),
        forall|p: Coord|
            in_grid(city, p) && #[trigger] visited.at(p.0 as int, p.1 as int)
                ==> routes.dom().contains(p) && p != next,
{
    reveal(search_ok);
    let rows = city.spec_rows() as int;
    let cols = city.spec_cols() as int;
    let routes_after = routes.insert(next, routes[current].push(next));
    lemma_offset_in_range(rows, cols, next.0 as int, next.1 as int);
    lemma_update_at(visited, visited_after, next.0 as int, next.1 as int, true);
    lemma_update_at(parent, parent_after, next.0 as int, next.1 as int, current);
    lemma_count_false_update(visited@, visited.offset(next.0 as int, next.1 as int));
    assert(node_ok(city, kind, start, goal, visited, parent, routes, current));
    let via = routes[current];
    let got = routes_after[next];
    assert(got == via.push(next));
    assert forall|k: int| 0 <= k < got.len() - 1 implies step_ok(
        city,
        kind,
        #[trigger] got[k],
        got[k + 1],
    ) by {
        if k < via.len() - 1 {
            assert(step_ok(city, kind, via[k], via[k + 1]));
        }
    }
    assert forall|k: int| 0 <= k < got.len() implies !near(#[trigger] got[k], goal) by {
        if k < via.len() {
            assert(!near(via[k], goal));
        }
    }
    assert(next != start);
    assert(node_ok(city, kind, start, goal, visited_after, parent_after, routes_after, next));
    assert forall|p: Coord|
        in_grid(city, p) && #[trigger] visited_after.at(p.0 as int, p.1 as int) implies node_ok(
        city,
        kind,
        start,
        goal,
        visited_after,
        parent_after,
        routes_after,
        p,
    ) by {
        if p != next {
            assert(visited.at(p.0 as int, p.1 as int));
            assert(node_ok(city, kind, start, goal, visited, parent, routes, p));
            if p != start {
                let q = parent.at(p.0 as int, p.1 as int);
                assert(q != next);
                assert(parent_after.at(p.0 as int, p.1 as int) == q);
                assert(visited_after.at(q.0 as int, q.1 as int));
            }
        }
    }
    assert forall|p: Coord| in_grid(city, p) && #[trigger] visited.at(
        p.0 as int,
        p.1 as int,
    ) implies routes.dom().contains(p) && p != next by {
        assert(node_ok(city, kind, start, goal, visited, parent, routes, p));
    }
}

/// Visiting the cell `next` from the current cell keeps the queue in
/// layers: the route to `next` is the longest so far.
proof fn lemma_visit_keeps_layers(
    city: City,
    visited: Matrix<bool>,
    routes: Map<Coord, Seq<Coord>>,
    queue: Seq<Coord>,
    current: Coord,
    next: Coord,
    visited_after: Matrix<bool>,
)
    requires
        layered(city, visited, routes, queue, routes[current].len() as int),
        marks_one_more(city, visited, visited_after, next),
        forall|p: Coord|
            in_grid(city, p) && #[trigger] visited.at(p.0 as int, p.1 as int)
                ==> routes.dom().contains(p) && p != next,
    ensures
        layered(
            city,
            visited_after,
            routes.insert(next, routes[current].push(next)),
            queue.push(next),
            routes[current].len() as int,
        ),
{
    reveal(layered);
    let via = routes[current];
    let routes_after = routes.insert(next, via.push(next));
    let queue_after = queue.push(next);
    assert forall|j: int| 0 <= j < queue_after.len() implies in_grid(
        city,
        #[trigger] queue_after[j],
    ) && visited_after.at(queue_after[j].0 as int, queue_after[j].1 as int)
        && routes_after[queue_after[j]].len() >= via.len() by {
        if j < queue.len() {
            assert(queue_after[j] == queue[j]);
            assert(visited.at(queue[j].0 as int, queue[j].1 as int));
        }
    }
    assert forall|i: int, j: int|
        0 <= i <= j < queue_after.len() implies routes_after[#[trigger] queue_after[i]].len()
        <= routes_after[#[trigger] queue_after[j]].len() by {
        if i < queue.len() {
            assert(queue_after[i] == queue[i]);
            assert(visited.at(queue[i].0 as int, queue[i].1 as int));
            assert(routes[queue[i]].len() <= via.len() + 1);
        }
        if j < queue.len() {
            assert(queue_after[j] == queue[j]);
            assert(visited.at(queue[j].0 as int, queue[j].1 as int));
            assert(routes[queue[i]].len() <= routes[queue[j]].len());
        }
    }
    assert forall|p: Coord|
        in_grid(city, p) && #[trigger] visited_after.at(
            p.0 as int,
            p.1 as int,
        ) implies routes_after[p].len() <= via.len() + 1 by {
        if p != next {
            assert(visited.at(p.0 as int, p.1 as int));
        }
    }
}

/// Visiting the cell `next` from the current cell deals with the
/// direction of that step.
proof fn lemma_visit_settles(
    city: City,
    kind: VehicleKind,
    visited: Matrix<bool>,
    routes: Map<Coord, Seq<Coord>>,
    queue: Seq<Coord>,
    current: Coord,
    next: Coord,
    d: Direction,
    visited_after: Matrix<bool>,
)
    requires
        settled(city, kind, visited, routes, queue, current, direction_rank(d)),
        marks_one_more(city, visited, visited_after, next),
        in_grid(city, current),
        visited.at(current.0 as int, current.1 as int),
        direction_between(current, next) == Some(d),
        forall|p: Coord|
            in_grid(city, p) && #[trigger] visited.at(p.0 as int, p.1 as int)
                ==> routes.dom().contains(p) && p != next,
    ensures
        settled(
            city,
            kind,
            visited_after,
            routes.insert(next, routes[current].push(next)),
            queue.push(next),
            current,
            direction_rank(d) + 1,
        ),
{
    reveal(settled);
    let via = routes[current];
    let routes_after = routes.insert(next, via.push(next));
    let queue_after = queue.push(next);
    assert(queue_after[queue_after.len() - 1] == next);
    assert forall|a: Coord| queue.contains(a) implies queue_after.contains(a) by {
        let k = choose|k: int| 0 <= k < queue.len() && queue[k] == a;
        assert(queue_after[k] == a);
    }
    assert forall|a: Coord, b: Coord|
        in_grid(city, a) && visited_after.at(a.0 as int, a.1 as int) && #[trigger] step_ok(
            city,
            kind,
            a,
            b,
        ) implies pending(queue_after, current, direction_rank(d) + 1, a, b) || (visited_after.at(
        b.0 as int,
        b.1 as int,
    ) && routes_after[b].len() <= routes_after[a].len() + 1) by {
        if a != next {
            assert(visited.at(a.0 as int, a.1 as int));
            assert(in_grid(city, b));
            if !pending(queue, current, direction_rank(d), a, b) {
                assert(visited.at(b.0 as int, b.1 as int));
                assert(visited_after.at(b.0 as int, b.1 as int));
            } else if !queue.contains(a) {
                if direction_rank(direction_between(a, b)->0) == direction_rank(d) {
                    assert(b == next);
                    assert(visited_after.at(next.0 as int, next.1 as int));
                }
            }
        }
    }
}

/// The step from the current cell to a cell near the goal completes a
/// route that reaches the goal, no earlier cell of which is near it, and
/// which no route that reaches the goal is shorter than.
proof fn lemma_search_finds(
    city: City,
    kind: VehicleKind,
    start: Coord,
    goal: Coord,
    visited: Matrix<bool>,
    parent: Matrix<Coord>,
    routes: Map<Coord, Seq<Coord>>,
    queue: Seq<Coord>,
    current: Coord,
    tried: int,
    next: Coord,
)
    requires
        search_ok(city, kind, start, goal, visited, parent, routes),
        layered(city, visited, routes, queue, routes[current].len() as int),
        settled(city, kind, visited, routes, queue, current, tried),
        in_grid(city, current),
        visited.at(current.0 as int, current.1 as int),
        step_ok(city, kind, current, next),
        near(next, goal),
    ensures
        reaches(city, kind, start, goal, routes[current].push(next)),
        routes[current].push(next).len() >= 2,
        forall|i: int|
            0 <= i < routes[current].push(next).len() - 1 ==> !near(
                #[trigger] routes[current].push(next)[i],
                goal,
            ),
        forall|other: Seq<Coord>| #[trigger]
            reaches(city, kind, start, goal, other) ==> routes[current].push(next).len()
                <= other.len(),
{
    assert(node_ok(city, kind, start, goal, visited, parent, routes, current)) by {
        reveal(search_ok);
    }
    let via = routes[current];
    let path = via.push(next);
    assert forall|k: int| 0 <= k < path.len() - 1 implies step_ok(
        city,
        kind,
        #[trigger] path[k],
        path[k + 1],
    ) by {
        if k < via.len() - 1 {
            assert(step_ok(city, kind, via[k], via[k + 1]));
        }
    }
    assert forall|k: int| 0 <= k < path.len() - 1 implies !near(#[trigger] path[k], goal) by {
        assert(!near(via[k], goal));
    }
    assert forall|other: Seq<Coord>| #[trigger]
        reaches(city, kind, start, goal, other) implies path.len() <= other.len() by {
        let last = other.len() - 1;
        let first = lemma_route_is_covered(
            city,
            kind,
            start,
            goal,
            visited,
            parent,
            routes,
            queue,
            current,
            tried,
            other,
            last,
        );
        let at = other[first];
        if first == last {
            reveal(search_ok);
            assert(node_ok(city, kind, start, goal, visited, parent, routes, at));
            let r = routes[at];
            assert(!near(r[r.len() - 1], goal));
        } else {
            reveal(layered);
            if queue.contains(at) {
                let j = choose|j: int| 0 <= j < queue.len() && queue[j] == at;
                assert(routes[queue[j]].len() >= via.len());
            }
        }
    }
}

/// A search that has run out of cells shows that no route reaches the goal.
proof fn lemma_search_ends(
    city: City,
    kind: VehicleKind,
    start: Coord,
    goal: Coord,
    visited: Matrix<bool>,
    parent: Matrix<Coord>,
    routes: Map<Coord, Seq<Coord>>,
    anyone: Coord,
)
    requires
        search_ok(city, kind, start, goal, visited, parent, routes),
        settled(city, kind, visited, routes, Seq::empty(), anyone, 4),
    ensures
        forall|path: Seq<Coord>| !reaches(city, kind, start, goal, path),
{
    assert forall|path: Seq<Coord>| !reaches(city, kind, start, goal, path) by {
        if reaches(city, kind, start, goal, path) {
            let last = path.len() - 1;
            let first = lemma_route_is_covered(
                city,
                kind,
                start,
                goal,
                visited,
                parent,
                routes,
                Seq::empty(),
                anyone,
                4,
                path,
                last,
            );
            if first < last {
                assert(!Seq::<Coord>::empty().contains(path[first]));
            } else {
                reveal(search_ok);
                let at = path[first];
                assert(node_ok(city, kind, start, goal, visited, parent, routes, at));
                let r = routes[at];
                assert(!near(r[r.len() - 1], goal));
            }
        }
    }
}

/// Plans a route for a vehicle of kind `vehicle_kind` from `start` towards
/// `goal` by breadth-first search.
///
/// When `start` is at the goal or next to it the route is `start` alone.
/// Otherwise the result is a shortest route of allowed steps from `start`
/// to a cell at the goal or next to it, none of its other cells being
/// that close; or `None`, exactly when no route of allowed steps leads
/// from `start` to the goal or next to it.
pub fn bfs_path(city: &City, start: Coord, goal: Coord, vehicle_kind: VehicleKind) -> (r: Option<
    Vec<Coord>,
>)
    requires
        city.wf(),
        near(start, goal) || in_grid(*city, start),
    ensures
        near(start, goal) ==> (r matches Some(p) && p@ == seq![start]),
        !near(start, goal) ==> match r {
            Some(p) => {
                &&& reaches(*city, vehicle_kind, start, goal, p@)
                &&& p@.len() >= 2
                &&& forall|i: int| 0 <= i < p@.len() - 1 ==> !near(#[trigger] p@[i], goal)
                &&& forall|other: Seq<Coord>| #[trigger]
                    reaches(*city, vehicle_kind, start, goal, other) ==> p@.len() <= other.len()
            },
            None => forall|path: Seq<Coord>| !reaches(*city, vehicle_kind, start, goal, path),
        },
{
    if is_near(start, goal) {
        let mut only: Vec<Coord> = Vec::new();
        only.push(start);
        proof {
            assert(only@ =~= seq![start]);
        }
        return Some(only);
    }
    let rows = city.rows();
    let cols = city.cols();
    proof {
        city.lemma_len_fits();
        lemma_offset_in_range(rows as int, cols as int, start.0 as int, start.1 as int);
    }
    let mut visited: Matrix<bool> = Matrix::new(rows, cols);
    let mut parent: Matrix<Coord> = Matrix::new(rows, cols);
    let mut queue: VecDeque<Coord> = VecDeque::new();
    let ghost mut routes: Map<Coord, Seq<Coord>> = Map::empty().insert(start, seq![start]);
    let ghost blank = visited;
    visited.set(start.0, start.1, true);
    queue.push_back(start);
    proof {
        lemma_search_starts(*city, vehicle_kind, start, goal, blank, visited, parent);
        assert(queue@ =~= seq![start]);
        assert(routes[start] =~= seq![start]);
    }
    while queue.len() > 0
        invariant
            city.wf(),
            rows == city.spec_rows(),
            cols == city.spec_cols(),
            !near(start, goal),
            visited.wf(),
            parent.wf(),
            visited.spec_rows() == rows,
            visited.spec_cols() == cols,
            parent.spec_rows() == rows,
            parent.spec_cols() == cols,
            search_ok(*city, vehicle_kind, start, goal, visited, parent, routes),
            queue@.len() > 0 ==> layered(
                *city,
                visited,
                routes,
                queue@,
                routes[queue@[0]].len() as int,
            ),
            settled(*city, vehicle_kind, visited, routes, queue@, start, 4),
        decreases 2 * count_false(visited@) + queue@.len(),
    {
        let ghost measure = 2 * count_false(visited@) + queue@.len();
        let ghost waiting = queue@;
        let current = queue.pop_front().unwrap();
        proof {
            lemma_search_pops(*city, vehicle_kind, visited, routes, waiting, start);
            assert(queue@ =~= waiting.drop_first());
            lemma_offset_in_range(rows as int, cols as int, current.0 as int, current.1 as int);
        }
        let block = city.get(current.0, current.1);
        let mut i: usize = 0;
        while i < 4
            invariant
                city.wf(),
                rows == city.spec_rows(),
                cols == city.spec_cols(),
                !near(start, goal),
                i <= 4,
                in_grid(*city, current),
                visited.at(current.0 as int, current.1 as int),
                *block == city.at(current.0 as int, current.1 as int),
                visited.wf(),
                parent.wf(),
                visited.spec_rows() == rows,
                visited.spec_cols() == cols,
                parent.spec_rows() == rows,
                parent.spec_cols() == cols,
                search_ok(*city, vehicle_kind, start, goal, visited, parent, routes),
                layered(*city, visited, routes, queue@, routes[current].len() as int),
                settled(*city, vehicle_kind, visited, routes, queue@, current, i as int),
                2 * count_false(visited@) + queue@.len() < measure,
            decreases 4 - i,
        {
            let d = direction_at(i);
            let ghost visited_before = visited;
            let ghost parent_before = parent;
            let ghost queue_before = queue@;
            match neighbor(city, current, d) {
                Some(next) => {
                    proof {
                        lemma_offset_in_range(
                            rows as int,
                            cols as int,
                            next.0 as int,
                            next.1 as int,
                        );
                    }
                    if !*visited.get(next.0, next.1) && is_valid_position_for_vehicle(
                        city,
                        next,
                        vehicle_kind,
                    ) && block.allows_direction(d) {
                        if is_near(next, goal) {
                            proof {
                                lemma_search_finds(
                                    *city,
                                    vehicle_kind,
                                    start,
                                    goal,
                                    visited,
                                    parent,
                                    routes,
                                    queue@,
                                    current,
                                    i as int,
                                    next,
                                );
                            }
                            let path = trace_back(
                                city,
                                start,
                                current,
                                next,
                                &visited,
                                &parent,
                                Ghost(vehicle_kind),
                                Ghost(goal),
                                Ghost(routes),
                            );
                            return Some(path);
                        }
                        visited.set(next.0, next.1, true);
                        parent.set(next.0, next.1, current);
                        queue.push_back(next);
                        proof {
                            lemma_visit_keeps_routes(
                                *city,
                                vehicle_kind,
                                start,
                                goal,
                                visited_before,
                                parent_before,
                                routes,
                                current,
                                next,
                                visited,
                                parent,
                            );
                            lemma_visit_keeps_layers(
                                *city,
                                visited_before,
                                routes,
                                queue_before,
                                current,
                                next,
                                visited,
                            );
                            lemma_visit_settles(
                                *city,
                                vehicle_kind,
                                visited_before,
                                routes,
                                queue_before,
                                current,
                                next,
                                d,
                                visited,
                            );
                            routes = routes.insert(next, routes[current].push(next));
                        }
                    } else {
                        proof {
                            assert forall|b: Coord| #[trigger]
                                step_ok(*city, vehicle_kind, current, b) && direction_between(
                                    current,
                                    b,
                                ) == Some(d) implies in_grid(*city, b) && visited.at(
                                b.0 as int,
                                b.1 as int,
                            ) by {
                                assert(b == next);
                            }
                            lemma_search_skips(
                                *city,
                                vehicle_kind,
                                visited,
                                routes,
                                queue@,
                                current,
                                d,
                            );
                        }
                    }
                },
                None => {
                    proof {
                        assert forall|b: Coord| #[trigger]
                            step_ok(*city, vehicle_kind, current, b) && direction_between(
                                current,
                                b,
                            ) == Some(d) implies in_grid(*city, b) && visited.at(
                            b.0 as int,
                            b.1 as int,
                        ) by {
                            assert(in_grid(*city, b));
                        }
                        lemma_search_skips(
                            *city,
                            vehicle_kind,
                            visited,
                            routes,
                            queue@,
                            current,
                            d,
                        );
                    }
                },
            }
            i += 1;
        }
        proof {
            lemma_search_moves_on(*city, vehicle_kind, visited, routes, queue@, current, start);
        }
    }
    proof {
        assert(queue@ =~= Seq::empty());
        lemma_search_ends(*city, vehicle_kind, start, goal, visited, parent, routes, start);
    }
    None
}

} // verus!
