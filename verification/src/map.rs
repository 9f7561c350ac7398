use vstd::prelude::*;

use crate::rng::{Dice, Draw};

verus! {

/// Rooms per maze row.
pub const MAZE_W: usize = 12;
/// Rooms per maze column.
pub const MAZE_H: usize = 12;
/// Grid columns: one wall column before each room column and one after the last.
pub const GRID_W: usize = 25;
/// Grid rows.
pub const GRID_H: usize = 25;

/// Grid value of a walkable cell.
pub const OPEN: u8 = 0;
/// Grid value of a solid wall.
pub const WALL: u8 = 1;
/// Grid value of the exit portal (walkable).
pub const EXIT: u8 = 3;
/// A room at least four rooms from the start becomes an enemy start with
/// probability `SPAWN_NUM / SPAWN_DEN`.
pub const SPAWN_NUM: u32 = 22;
pub const SPAWN_DEN: u32 = 100;

/// A maze on a square grid. Room `(cx, cy)` of the maze is grid cell
/// `(2 * cx + 1, 2 * cy + 1)`; the cells between two rooms are walls or
/// passages. Positions are grid cells: an entity "at cell (x, y)" stands at
/// the centre `(x + 0.5, y + 0.5)` of that cell.
pub struct GameMap {
    /// Rows of the grid; `grid[y][x]` is `OPEN`, `WALL` or `EXIT`.
    pub grid: Vec<Vec<u8>>,
    pub width: usize,
    pub height: usize,
    /// The cell where the player starts.
    pub spawn: (usize, usize),
    /// The cell of the exit portal.
    pub exit: (usize, usize),
    /// The cells where enemies start.
    pub enemy_spawns: Vec<(usize, usize)>,
}

// ── The grid as a graph of open cells ────────────────────────────────────────

/// Cell `(x, y)` lies in the grid `g` and is not a wall.
pub open spec fn open_in(g: Seq<Vec<u8>>, x: int, y: int) -> bool {
    0 <= y < g.len() && 0 <= x < g[y]@.len() && g[y]@[x] != WALL
}

/// Two cells share a side.
pub open spec fn adjacent(a: (int, int), b: (int, int)) -> bool {
    ||| a.0 == b.0 && (a.1 == b.1 + 1 || a.1 + 1 == b.1)
    ||| a.1 == b.1 && (a.0 == b.0 + 1 || a.0 + 1 == b.0)
}

/// `p` is a walk through open cells of `g` that starts at `from` and moves
/// one cell sideways or up or down at each step.
pub open spec fn is_path(g: Seq<Vec<u8>>, p: Seq<(int, int)>, from: (int, int)) -> bool {
    &&& p.len() > 0
    &&& p[0] == from
    &&& forall|i: int| 0 <= i < p.len() ==> open_in(g, #[trigger] p[i].0, p[i].1)
    &&& forall|i: int| 0 <= i < p.len() - 1 ==> #[trigger] adjacent(p[i], p[i + 1])
}

/// Cell `to` can be walked to from cell `from` through open cells of `g`.
pub open spec fn reachable(g: Seq<Vec<u8>>, from: (int, int), to: (int, int)) -> bool {
    exists|p: Seq<(int, int)>| #[trigger] is_path(g, p, from) && p.last() == to
}

/// Every cell that is open in `g1` is open in `g2`.
pub open spec fn opens_more(g1: Seq<Vec<u8>>, g2: Seq<Vec<u8>>) -> bool {
    forall|x: int, y: int| #[trigger] open_in(g1, x, y) ==> open_in(g2, x, y)
}

proof fn lemma_path_mono(g1: Seq<Vec<u8>>, g2: Seq<Vec<u8>>, p: Seq<(int, int)>, from: (int, int))
    requires
        is_path(g1, p, from),
        opens_more(g1, g2),
    ensures
        is_path(g2, p, from),
{
    assert forall|i: int| 0 <= i < p.len() implies open_in(g2, #[trigger] p[i].0, p[i].1) by {
        assert(open_in(g1, p[i].0, p[i].1));
    }
}

proof fn lemma_reach_mono(g1: Seq<Vec<u8>>, g2: Seq<Vec<u8>>, from: (int, int), to: (int, int))
    requires
        reachable(g1, from, to),
        opens_more(g1, g2),
    ensures
        reachable(g2, from, to),
{
    let p = choose|p: Seq<(int, int)>| #[trigger] is_path(g1, p, from) && p.last() == to;
    lemma_path_mono(g1, g2, p, from);
}

proof fn lemma_reach_step(g: Seq<Vec<u8>>, from: (int, int), a: (int, int), b: (int, int))
    requires
        reachable(g, from, a),
        adjacent(a, b),
        open_in(g, b.0, b.1),
    ensures
        reachable(g, from, b),
{
    let p = choose|p: Seq<(int, int)>| #[trigger] is_path(g, p, from) && p.last() == a;
    let q = p.push(b);
    assert forall|i: int| 0 <= i < q.len() implies open_in(g, #[trigger] q[i].0, q[i].1) by {
        if i < p.len() {
            assert(q[i] == p[i]);
        }
    }
    assert forall|i: int| 0 <= i < q.len() - 1 implies #[trigger] adjacent(q[i], q[i + 1]) by {
        if i < p.len() - 1 {
            assert(q[i] == p[i] && q[i + 1] == p[i + 1]);
            assert(adjacent(p[i], p[i + 1]));
        }
    }
    assert(is_path(g, q, from));
    assert(q.last() == b);
}

/// The start cell can be reached from itself.
proof fn lemma_reach_self(g: Seq<Vec<u8>>, from: (int, int))
    requires
        open_in(g, from.0, from.1),
    ensures
        reachable(g, from, from),
{
    let p = seq![from];
    assert(is_path(g, p, from));
}

// ── Maze generation (depth-first search, recursive backtracking) ────────────

/// Grid cell of room `c`.
pub open spec fn room_cell(c: int) -> int {
    2 * c + 1
}

/// The grid has the full size.
pub open spec fn grid_shape(g: Seq<Vec<u8>>) -> bool {
    &&& g.len() == GRID_H
    &&& forall|y: int| 0 <= y < GRID_H ==> (#[trigger] g[y]@).len() == GRID_W
}

spec fn visited_shape(v: Seq<Vec<bool>>) -> bool {
    &&& v.len() == MAZE_H
    &&& forall|y: int| 0 <= y < MAZE_H ==> (#[trigger] v[y]@).len() == MAZE_W
}

/// Cell `(x, y)` is a room or lies between two rooms; only these cells are
/// ever opened.
pub open spec fn room_or_passage(x: int, y: int) -> bool {
    &&& 1 <= x <= GRID_W - 2
    &&& 1 <= y <= GRID_H - 2
    &&& (x % 2 == 1 || y % 2 == 1)
}

/// The room at `(x, y)` is outside the maze or already visited.
spec fn nbr_done(v: Seq<Vec<bool>>, x: int, y: int) -> bool {
    !(0 <= x < MAZE_W && 0 <= y < MAZE_H) || v[y]@[x]
}

spec fn all_nbrs_visited(v: Seq<Vec<bool>>, cx: int, cy: int) -> bool {
    &&& nbr_done(v, cx + 1, cy)
    &&& nbr_done(v, cx - 1, cy)
    &&& nbr_done(v, cx, cy + 1)
    &&& nbr_done(v, cx, cy - 1)
}

spec fn on_stack(s: Seq<(usize, usize)>, cx: int, cy: int) -> bool {
    exists|k: int| 0 <= k < s.len() && (#[trigger] s[k]).0 == cx && s[k].1 == cy
}

/// An unvisited room next to room `(cx, cy)`, with the grid cell between them.
spec fn valid_candidate(v: Seq<Vec<bool>>, cx: int, cy: int, c: (usize, usize, usize, usize)) -> bool {
    &&& c.0 < MAZE_W && c.1 < MAZE_H
    &&& !v[c.1 as int]@[c.0 as int]
    &&& adjacent((cx, cy), (c.0 as int, c.1 as int))
    &&& c.2 == cx + c.0 + 1
    &&& c.3 == cy + c.1 + 1
}

spec fn count_false(s: Seq<bool>) -> nat
    decreases s.len(),
{
    if s.len() == 0 {
        0
    } else {
        count_false(s.drop_last()) + if s.last() { 0nat } else { 1nat }
    }
}

spec fn unvisited(v: Seq<Vec<bool>>) -> nat
    decreases v.len(),
{
    if v.len() == 0 {
        0
    } else {
        unvisited(v.drop_last()) + count_false(v.last()@)
    }
}

proof fn lemma_count_false_set(s: Seq<bool>, i: int)
    requires
        0 <= i < s.len(),
        !s[i],
    ensures
        count_false(s.update(i, true)) + 1 == count_false(s),
    decreases s.len(),
{
    if i == s.len() - 1 {
        assert(s.update(i, true).drop_last() =~= s.drop_last());
    } else {
        assert(s.update(i, true).drop_last() =~= s.drop_last().update(i, true));
        lemma_count_false_set(s.drop_last(), i);
    }
}

proof fn lemma_unvisited_set(v: Seq<Vec<bool>>, y: int, x: int, row: Vec<bool>)
    requires
        0 <= y < v.len(),
        0 <= x < v[y]@.len(),
        !v[y]@[x],
        row@ == v[y]@.update(x, true),
    ensures
        unvisited(v.update(y, row)) + 1 == unvisited(v),
    decreases v.len(),
{
    if y == v.len() - 1 {
        assert(v.update(y, row).drop_last() =~= v.drop_last());
        lemma_count_false_set(v[y]@, x);
    } else {
        assert(v.update(y, row).drop_last() =~= v.drop_last().update(y, row));
        lemma_unvisited_set(v.drop_last(), y, x, row);
    }
}

proof fn lemma_visited_at(v: Seq<Vec<bool>>, cx: int, cy: int)
    requires
        visited_shape(v),
        v[0]@[0],
        forall|x: int, y: int|
            0 <= x < MAZE_W && 0 <= y < MAZE_H && #[trigger] v[y]@[x] ==> all_nbrs_visited(v, x, y),
        0 <= cx < MAZE_W,
        0 <= cy < MAZE_H,
    ensures
        v[cy]@[cx],
    decreases cx + cy,
{
    if cx > 0 {
        lemma_visited_at(v, cx - 1, cy);
        assert(all_nbrs_visited(v, cx - 1, cy));
    } else if cy > 0 {
        lemma_visited_at(v, cx, cy - 1);
        assert(all_nbrs_visited(v, cx, cy - 1));
    }
}

/// The rows of a grid of vectors, as sequences.
pub open spec fn rows_of<T>(g: Seq<Vec<T>>) -> Seq<Seq<T>> {
    g.map_values(|r: Vec<T>| r@)
}

/// The state of the maze search: the grid, the visited rooms and the stack
/// of rooms (column, row) being explored.
pub type DfsState = (Seq<Seq<u8>>, Seq<Seq<bool>>, Seq<(usize, usize)>);

/// The search's start: all walls but the first room, which is the only
/// visited room and the only room on the stack.
pub open spec fn dfs_start() -> DfsState {
    (
        Seq::new(GRID_H as nat, |y: int| Seq::new(GRID_W as nat, |x: int| if x == 1 && y == 1 { OPEN } else { WALL })),
        Seq::new(MAZE_H as nat, |y: int| Seq::new(MAZE_W as nat, |x: int| x == 0 && y == 0)),
        seq![(0usize, 0usize)],
    )
}

/// The room `(cx + dx, cy + dy)` with the grid cell of the wall between it
/// and room `(cx, cy)`, when it lies in the maze and is not visited.
pub open spec fn room_step(v: Seq<Seq<bool>>, cx: int, cy: int, dx: int, dy: int) -> Seq<(usize, usize, usize, usize)> {
    let nx = cx + dx;
    let ny = cy + dy;
    if 0 <= nx < MAZE_W && 0 <= ny < MAZE_H && !v[ny][nx] {
        seq![(nx as usize, ny as usize, (cx + nx + 1) as usize, (cy + ny + 1) as usize)]
    } else {
        seq![]
    }
}

/// The unvisited rooms next to room `(cx, cy)`, east, west, south, north.
pub open spec fn room_neighbors(v: Seq<Seq<bool>>, cx: int, cy: int) -> Seq<(usize, usize, usize, usize)> {
    room_step(v, cx, cy, 1, 0) + room_step(v, cx, cy, -1, 0) + room_step(v, cx, cy, 0, 1) + room_step(v, cx, cy, 0, -1)
}

/// The search state after stepping to room `n` (with its wall cell): the
/// wall between the rooms and the new room are opened, the room is visited
/// and pushed on the stack.
pub open spec fn carve_to(s: DfsState, n: (usize, usize, usize, usize)) -> DfsState {
    let g1 = s.0.update(n.3 as int, s.0[n.3 as int].update(n.2 as int, OPEN));
    let ry = room_cell(n.1 as int);
    let g2 = g1.update(ry, g1[ry].update(room_cell(n.0 as int), OPEN));
    (g2, s.1.update(n.1 as int, s.1[n.1 as int].update(n.0 as int, true)), s.2.push((n.0, n.1)))
}

/// `trace` is a run of the search whose steps drew `draws`: from each state
/// with a room on top of the stack, the search backtracks (pops the room)
/// when the room has no unvisited neighbour, and otherwise draws a pick
/// below the number of such neighbours and steps to the picked one.
pub open spec fn dfs_replays(trace: Seq<DfsState>, draws: Seq<Draw>) -> bool
    decreases trace.len(),
{
    if trace.len() <= 1 {
        draws.len() == 0
    } else {
        let s = trace[trace.len() - 2];
        let t = trace.last();
        let top = s.2.last();
        let nb = room_neighbors(s.1, top.0 as int, top.1 as int);
        &&& s.2.len() > 0
        &&& if nb.len() == 0 {
            t == (s.0, s.1, s.2.drop_last()) && dfs_replays(trace.drop_last(), draws)
        } else {
            &&& draws.len() > 0
            &&& draws.last() matches Draw::Below { bound, pick } && bound == nb.len() && pick < bound && t == carve_to(
                s,
                nb[pick as int],
            )
            &&& dfs_replays(trace.drop_last(), draws.drop_last())
        }
    }
}

/// `g` is the grid the search carves when its picks are `draws`: a run
/// from the start, drawing `draws`, that ends with an empty stack on `g`.
pub open spec fn carved_by(draws: Seq<Draw>, g: Seq<Seq<u8>>) -> bool {
    exists|trace: Seq<DfsState>|
        #![trigger dfs_replays(trace, draws)]
        trace.len() > 0 && trace[0] == dfs_start() && dfs_replays(trace, draws) && trace.last().2.len() == 0
            && trace.last().0 == g
}

/// `g` is the maze the search carves with picks `carve`, with the far
/// corner room made the exit.
pub open spec fn maze_from(carve: Seq<Draw>, g: Seq<Vec<u8>>) -> bool {
    exists|c: Seq<Seq<u8>>|
        #![trigger carved_by(carve, c)]
        carved_by(carve, c) && rows_of(g) == c.update(GRID_H - 2, c[GRID_H - 2].update(GRID_W - 2, EXIT))
}

/// The unvisited rooms next to room `(cx, cy)`, in the order east, west,
/// south, north, each with the grid cell of the wall between the two rooms.
fn unvisited_neighbors(visited: &Vec<Vec<bool>>, cx: usize, cy: usize) -> (r: Vec<(usize, usize, usize, usize)>)
    requires
        visited_shape(visited@),
        cx < MAZE_W,
        cy < MAZE_H,
    ensures
        forall|k: int| 0 <= k < r@.len() ==> valid_candidate(visited@, cx as int, cy as int, #[trigger] r@[k]),
        r@.len() == 0 ==> all_nbrs_visited(visited@, cx as int, cy as int),
        r@ == room_neighbors(rows_of(visited@), cx as int, cy as int),
{
    let directions: [(i32, i32); 4] = [(1, 0), (-1, 0), (0, 1), (0, -1)];
    let mut neighbors: Vec<(usize, usize, usize, usize)> = Vec::new();
    let mut d: usize = 0;
    while d < 4
        invariant
            d <= 4,
            visited_shape(visited@),
            cx < MAZE_W,
            cy < MAZE_H,
            directions@ == seq![(1i32, 0i32), (-1i32, 0i32), (0i32, 1i32), (0i32, -1i32)],
            forall|k: int| 0 <= k < neighbors@.len() ==> valid_candidate(visited@, cx as int, cy as int, #[trigger] neighbors@[k]),
            neighbors@.len() == 0 ==> (d > 0 ==> nbr_done(visited@, cx + 1, cy as int)),
            neighbors@.len() == 0 ==> (d > 1 ==> nbr_done(visited@, cx - 1, cy as int)),
            neighbors@.len() == 0 ==> (d > 2 ==> nbr_done(visited@, cx as int, cy + 1)),
            neighbors@.len() == 0 ==> (d > 3 ==> nbr_done(visited@, cx as int, cy - 1)),
            neighbors@ == dir_prefix(rows_of(visited@), cx as int, cy as int, d as int),
        decreases 4 - d,
    {
        let (dx, dy) = directions[d];
        let nx = cx as i32 + dx;
        let ny = cy as i32 + dy;
        if nx >= 0 && nx < MAZE_W as i32 && ny >= 0 && ny < MAZE_H as i32 {
            let (nx, ny) = (nx as usize, ny as usize);
            if !visited[ny][nx] {
                let wall_gx = cx + nx + 1;
                let wall_gy = cy + ny + 1;
                neighbors.push((nx, ny, wall_gx, wall_gy));
            }
        }
        d = d + 1;
    }
    assert(neighbors@ =~= room_neighbors(rows_of(visited@), cx as int, cy as int));
    neighbors
}

/// The candidates of the first `d` directions (east, west, south, north).
spec fn dir_prefix(v: Seq<Seq<bool>>, cx: int, cy: int, d: int) -> Seq<(usize, usize, usize, usize)> {
    (if d > 0 { room_step(v, cx, cy, 1, 0) } else { seq![] }) + (if d > 1 { room_step(v, cx, cy, -1, 0) } else { seq![] })
        + (if d > 2 { room_step(v, cx, cy, 0, 1) } else { seq![] }) + (if d > 3 { room_step(v, cx, cy, 0, -1) } else {
        seq![]
    })
}

fn wall_grid() -> (g: Vec<Vec<u8>>)
    ensures
        grid_shape(g@),
        forall|x: int, y: int| 0 <= x < GRID_W && 0 <= y < GRID_H ==> #[trigger] g@[y]@[x] == WALL,
{
    let mut g: Vec<Vec<u8>> = Vec::new();
    let mut y: usize = 0;
    while y < GRID_H
        invariant
            y <= GRID_H,
            g@.len() == y,
            forall|yy: int| 0 <= yy < y ==> (#[trigger] g@[yy]@).len() == GRID_W,
            forall|x: int, yy: int| 0 <= x < GRID_W && 0 <= yy < y ==> #[trigger] g@[yy]@[x] == WALL,
        decreases GRID_H - y,
    {
        let mut row: Vec<u8> = Vec::new();
        let mut x: usize = 0;
        while x < GRID_W
            invariant
                x <= GRID_W,
                row@.len() == x,
                forall|xx: int| 0 <= xx < x ==> #[trigger] row@[xx] == WALL,
            decreases GRID_W - x,
        {
            row.push(WALL);
            x = x + 1;
        }
        g.push(row);
        y = y + 1;
    }
    g
}

fn unvisited_rooms() -> (v: Vec<Vec<bool>>)
    ensures
        visited_shape(v@),
        forall|x: int, y: int| 0 <= x < MAZE_W && 0 <= y < MAZE_H ==> !#[trigger] v@[y]@[x],
{
    let mut v: Vec<Vec<bool>> = Vec::new();
    let mut y: usize = 0;
    while y < MAZE_H
        invariant
            y <= MAZE_H,
            v@.len() == y,
            forall|yy: int| 0 <= yy < y ==> (#[trigger] v@[yy]@).len() == MAZE_W,
            forall|x: int, yy: int| 0 <= x < MAZE_W && 0 <= yy < y ==> !#[trigger] v@[yy]@[x],
        decreases MAZE_H - y,
    {
        let mut row: Vec<bool> = Vec::new();
        let mut x: usize = 0;
        while x < MAZE_W
            invariant
                x <= MAZE_W,
                row@.len() == x,
                forall|xx: int| 0 <= xx < x ==> !#[trigger] row@[xx],
            decreases MAZE_W - x,
        {
            row.push(false);
            x = x + 1;
        }
        v.push(row);
        y = y + 1;
    }
    v
}

/// Every grid cell holds `OPEN` or `WALL`, and only rooms and the cells
/// between rooms are open.
spec fn carved_cells(g: Seq<Vec<u8>>) -> bool {
    &&& forall|x: int, y: int| 0 <= x < GRID_W && 0 <= y < GRID_H ==>
        (#[trigger] g[y]@[x] == OPEN || g[y]@[x] == WALL)
    &&& forall|x: int, y: int| 0 <= x < GRID_W && 0 <= y < GRID_H && #[trigger] g[y]@[x] == OPEN
        ==> room_or_passage(x, y)
}

/// A room is open exactly when it has been visited.
spec fn rooms_match(g: Seq<Vec<u8>>, v: Seq<Vec<bool>>) -> bool {
    forall|cx: int, cy: int| 0 <= cx < MAZE_W && 0 <= cy < MAZE_H ==>
        (#[trigger] v[cy]@[cx] <==> g[room_cell(cy)]@[room_cell(cx)] == OPEN)
}

/// Every open cell can be reached from the first room.
spec fn open_reachable(g: Seq<Vec<u8>>) -> bool {
    forall|x: int, y: int| 0 <= x < GRID_W && 0 <= y < GRID_H && #[trigger] g[y]@[x] == OPEN
        ==> reachable(g, (1, 1), (x, y))
}

spec fn stack_ok(s: Seq<(usize, usize)>, v: Seq<Vec<bool>>) -> bool {
    forall|k: int| 0 <= k < s.len() ==> {
        &&& (#[trigger] s[k]).0 < MAZE_W
        &&& s[k].1 < MAZE_H
        &&& v[s[k].1 as int]@[s[k].0 as int]
    }
}

/// A visited room that has left the stack has no unvisited neighbour.
spec fn finished_rooms_closed(s: Seq<(usize, usize)>, v: Seq<Vec<bool>>) -> bool {
    forall|cx: int, cy: int| 0 <= cx < MAZE_W && 0 <= cy < MAZE_H && #[trigger] v[cy]@[cx]
        && !on_stack(s, cx, cy) ==> all_nbrs_visited(v, cx, cy)
}

/// Number of walkable (non-wall) cells in a row.
pub open spec fn row_open_count(r: Seq<u8>) -> nat
    decreases r.len(),
{
    if r.len() == 0 {
        0
    } else {
        row_open_count(r.drop_last()) + if r.last() != WALL { 1nat } else { 0nat }
    }
}

/// Number of walkable (non-wall) cells in a grid.
pub open spec fn open_count(g: Seq<Vec<u8>>) -> nat
    decreases g.len(),
{
    if g.len() == 0 {
        0
    } else {
        open_count(g.drop_last()) + row_open_count(g.last()@)
    }
}

spec fn walkable(v: u8) -> nat {
    if v != WALL { 1 } else { 0 }
}

proof fn lemma_row_count_set(r: Seq<u8>, i: int, v: u8)
    requires
        0 <= i < r.len(),
    ensures
        row_open_count(r.update(i, v)) + walkable(r[i]) == row_open_count(r) + walkable(v),
    decreases r.len(),
{
    if i == r.len() - 1 {
        assert(r.update(i, v).drop_last() =~= r.drop_last());
    } else {
        assert(r.update(i, v).drop_last() =~= r.drop_last().update(i, v));
        lemma_row_count_set(r.drop_last(), i, v);
    }
}

proof fn lemma_count_set(g: Seq<Vec<u8>>, y: int, x: int, v: u8, row: Vec<u8>)
    requires
        0 <= y < g.len(),
        0 <= x < g[y]@.len(),
        row@ == g[y]@.update(x, v),
    ensures
        open_count(g.update(y, row)) + walkable(g[y]@[x]) == open_count(g) + walkable(v),
    decreases g.len(),
{
    if y == g.len() - 1 {
        assert(g.update(y, row).drop_last() =~= g.drop_last());
        lemma_row_count_set(g[y]@, x, v);
    } else {
        assert(g.update(y, row).drop_last() =~= g.drop_last().update(y, row));
        lemma_count_set(g.drop_last(), y, x, v, row);
    }
}

proof fn lemma_row_all_wall(r: Seq<u8>)
    requires
        forall|i: int| 0 <= i < r.len() ==> #[trigger] r[i] == WALL,
    ensures
        row_open_count(r) == 0,
    decreases r.len(),
{
    if r.len() > 0 {
        lemma_row_all_wall(r.drop_last());
    }
}

proof fn lemma_all_wall(g: Seq<Vec<u8>>)
    requires
        forall|y: int, x: int| 0 <= y < g.len() && 0 <= x < g[y]@.len() ==> #[trigger] g[y]@[x] == WALL,
    ensures
        open_count(g) == 0,
    decreases g.len(),
{
    if g.len() > 0 {
        lemma_all_wall(g.drop_last());
        let r = g.last()@;
        assert forall|i: int| 0 <= i < r.len() implies #[trigger] r[i] == WALL by {
            assert(g[g.len() - 1]@[i] == WALL);
        }
        lemma_row_all_wall(r);
    }
}

proof fn lemma_count_false_all(s: Seq<bool>, b: bool)
    requires
        forall|i: int| 0 <= i < s.len() ==> #[trigger] s[i] == b,
    ensures
        count_false(s) == if b { 0 } else { s.len() },
    decreases s.len(),
{
    if s.len() > 0 {
        lemma_count_false_all(s.drop_last(), b);
    }
}

proof fn lemma_unvisited_all(v: Seq<Vec<bool>>, b: bool)
    requires
        forall|y: int| 0 <= y < v.len() ==> (#[trigger] v[y]@).len() == MAZE_W,
        forall|y: int, x: int| 0 <= y < v.len() && 0 <= x < MAZE_W ==> #[trigger] v[y]@[x] == b,
    ensures
        unvisited(v) == if b { 0 } else { MAZE_W * v.len() },
    decreases v.len(),
{
    if v.len() > 0 {
        lemma_unvisited_all(v.drop_last(), b);
        let r = v.last()@;
        assert forall|i: int| 0 <= i < r.len() implies #[trigger] r[i] == b by {
            assert(v[v.len() - 1]@[i] == b);
        }
        lemma_count_false_all(r, b);
    }
}

/// An open cell between two rooms joins two visited rooms.
#[verifier::opaque]
spec fn passages_join_visited(g: Seq<Vec<u8>>, v: Seq<Vec<bool>>) -> bool {
    forall|x: int, y: int| 0 <= x < GRID_W && 0 <= y < GRID_H && #[trigger] g[y]@[x] == OPEN ==> {
        &&& (x % 2 == 0 && y % 2 == 1) ==> v[(y - 1) / 2]@[x / 2 - 1] && v[(y - 1) / 2]@[x / 2]
        &&& (x % 2 == 1 && y % 2 == 0) ==> v[y / 2 - 1]@[(x - 1) / 2] && v[y / 2]@[(x - 1) / 2]
    }
}

/// Carves a maze into a full wall grid by a depth-first search over the
/// rooms that starts at the first room and steps to a random unvisited
/// neighbour, backtracking when there is none.
#[verifier::rlimit(40)]
fn carve_maze(dice: &mut Dice) -> (grid: Vec<Vec<u8>>)
    ensures
        exists|cd: Seq<Draw>|
            #![trigger carved_by(cd, rows_of(grid@))]
            final(dice).history() == old(dice).history() + cd && cd.len() == MAZE_W * MAZE_H - 1 && carved_by(
                cd,
                rows_of(grid@),
            ),
        grid_shape(grid@),
        carved_cells(grid@),
        open_reachable(grid@),
        forall|cx: int, cy: int| 0 <= cx < MAZE_W && 0 <= cy < MAZE_H ==>
            #[trigger] grid@[room_cell(cy)]@[room_cell(cx)] == OPEN,
        open_count(grid@) == 2 * MAZE_W * MAZE_H - 1,
{
    let mut grid = wall_grid();
    let mut visited = unvisited_rooms();
    let mut stack: Vec<(usize, usize)> = Vec::new();
    proof {
        lemma_all_wall(grid@);
        lemma_unvisited_all(visited@, false);
    }
    let ghost g0 = grid@;
    let ghost v0 = visited@;
    let ghost h0 = dice.history();
    grid[1][1] = OPEN;
    visited[0][0] = true;
    stack.push((0, 0));
    let ghost mut trace: Seq<DfsState> = seq![dfs_start()];
    let ghost mut cd: Seq<Draw> = Seq::empty();
    proof {
        assert(rows_of(grid@) =~~= dfs_start().0);
        assert(rows_of(visited@) =~~= dfs_start().1);
        assert(stack@ =~= dfs_start().2);
        assert(h0 + cd =~= h0);
        lemma_count_set(g0, 1, 1, OPEN, grid@[1]);
        lemma_unvisited_set(v0, 0, 0, visited@[0]);
        lemma_reach_self(grid@, (1, 1));
        reveal(passages_join_visited);
        assert(passages_join_visited(grid@, visited@)) by {
            assert forall|x: int, y: int| 0 <= x < GRID_W && 0 <= y < GRID_H && #[trigger] grid@[y]@[x] == OPEN
                implies x == 1 && y == 1 by {
                if x != 1 || y != 1 {
                    assert(g0[y]@[x] == WALL);
                }
            }
        }
        assert(open_reachable(grid@));
        assert(finished_rooms_closed(stack@, visited@)) by {
            assert forall|cx: int, cy: int| 0 <= cx < MAZE_W && 0 <= cy < MAZE_H && #[trigger] visited@[cy]@[cx]
                && !on_stack(stack@, cx, cy) implies all_nbrs_visited(visited@, cx, cy) by {
                assert(stack@[0] == (0usize, 0usize));
            }
        }
    }

    while stack.len() > 0
        invariant
            grid_shape(grid@),
            visited_shape(visited@),
            carved_cells(grid@),
            rooms_match(grid@, visited@),
            open_reachable(grid@),
            stack_ok(stack@, visited@),
            finished_rooms_closed(stack@, visited@),
            visited@[0]@[0],
            passages_join_visited(grid@, visited@),
            open_count(grid@) + 2 * unvisited(visited@) == 2 * MAZE_W * MAZE_H - 1,
            trace.len() > 0,
            trace[0] == dfs_start(),
            trace.last() == (rows_of(grid@), rows_of(visited@), stack@),
            dfs_replays(trace, cd),
            dice.history() == h0 + cd,
            cd.len() + unvisited(visited@) == MAZE_W * MAZE_H - 1,
        decreases 2 * unvisited(visited@) + stack@.len(),
    {
        let (cx, cy) = stack[stack.len() - 1];
        let neighbors = unvisited_neighbors(&visited, cx, cy);
        let ghost tr0 = trace;
        if neighbors.len() == 0 {
            let ghost old_stack = stack@;
            stack.pop();
            proof {
                assert(stack@ =~= old_stack.drop_last());
                trace = tr0.push((rows_of(grid@), rows_of(visited@), stack@));
                assert(trace.drop_last() =~= tr0);
                assert(trace[trace.len() - 2] == tr0.last());
                assert(old_stack.last() == (cx, cy));
                assert forall|x: int, y: int| 0 <= x < MAZE_W && 0 <= y < MAZE_H && #[trigger] visited@[y]@[x]
                    && !on_stack(stack@, x, y) implies all_nbrs_visited(visited@, x, y) by {
                    if on_stack(old_stack, x, y) {
                        let k = choose|k: int| 0 <= k < old_stack.len() && (#[trigger] old_stack[k]).0 == x && old_stack[k].1 == y;
                        if k < old_stack.len() - 1 {
                            assert(stack@[k] == old_stack[k]);
                        }
                    }
                }
            }
        } else {
            let idx = dice.below(neighbors.len());
            let (nx, ny, wall_gx, wall_gy) = neighbors[idx];
            proof {
                assert(valid_candidate(visited@, cx as int, cy as int, neighbors@[idx as int]));
            }
            let ghost g0 = grid@;
            let ghost v0 = visited@;
            let ghost s0 = stack@;
            let ghost cd0 = cd;
            grid[wall_gy][wall_gx] = OPEN;
            let ghost g1 = grid@;
            grid[ny * 2 + 1][nx * 2 + 1] = OPEN;
            visited[ny][nx] = true;
            stack.push((nx, ny));
            proof {
                lemma_dfs_step(g0, g1, grid@, v0, visited@, s0, stack@, cx as int, cy as int, nx as int, ny as int,
                    wall_gx as int, wall_gy as int);
                lemma_unvisited_set(v0, ny as int, nx as int, visited@[ny as int]);
                assert(visited@ == v0.update(ny as int, visited@[ny as int]));
                cd = cd0.push(Draw::Below { bound: neighbors@.len() as usize, pick: idx });
                assert(dice.history() =~= h0 + cd);
                let s = tr0.last();
                assert(s.2.last() == (cx, cy));
                let n = neighbors@[idx as int];
                assert(rows_of(grid@) =~~= carve_to(s, n).0);
                assert(rows_of(visited@) =~~= carve_to(s, n).1);
                trace = tr0.push((rows_of(grid@), rows_of(visited@), stack@));
                assert(trace.drop_last() =~= tr0);
                assert(trace[trace.len() - 2] == tr0.last());
                assert(cd.drop_last() =~= cd0);
            }
        }
    }
    proof {
        assert forall|cx: int, cy: int| 0 <= cx < MAZE_W && 0 <= cy < MAZE_H implies
            #[trigger] grid@[room_cell(cy)]@[room_cell(cx)] == OPEN by {
            assert forall|x: int, y: int| 0 <= x < MAZE_W && 0 <= y < MAZE_H && #[trigger] visited@[y]@[x]
                implies all_nbrs_visited(visited@, x, y) by {
                assert(!on_stack(stack@, x, y));
            }
            lemma_visited_at(visited@, cx, cy);
        }
        assert forall|y: int, x: int| 0 <= y < visited@.len() && 0 <= x < MAZE_W implies #[trigger] visited@[y]@[x]
            == true by {
            assert forall|xx: int, yy: int| 0 <= xx < MAZE_W && 0 <= yy < MAZE_H && #[trigger] visited@[yy]@[xx]
                implies all_nbrs_visited(visited@, xx, yy) by {
                assert(!on_stack(stack@, xx, yy));
            }
            lemma_visited_at(visited@, x, y);
        }
        lemma_unvisited_all(visited@, true);
        assert(carved_by(cd, rows_of(grid@)));
    }
    grid
}

/// One forward step of the search opens exactly two wall cells (the passage
/// and the new room) and visits one room, and every open passage still
/// joins two visited rooms.
#[verifier::rlimit(40)]
proof fn lemma_dfs_step_count(
    g0: Seq<Vec<u8>>,
    g1: Seq<Vec<u8>>,
    g2: Seq<Vec<u8>>,
    v0: Seq<Vec<bool>>,
    v1: Seq<Vec<bool>>,
    cx: int,
    cy: int,
    nx: int,
    ny: int,
    wx: int,
    wy: int,
)
    requires
        grid_shape(g0),
        visited_shape(v0),
        carved_cells(g0),
        rooms_match(g0, v0),
        passages_join_visited(g0, v0),
        open_count(g0) + 2 * unvisited(v0) == 2 * MAZE_W * MAZE_H - 1,
        0 <= cx < MAZE_W,
        0 <= cy < MAZE_H,
        v0[cy]@[cx],
        0 <= nx < MAZE_W,
        0 <= ny < MAZE_H,
        !v0[ny]@[nx],
        adjacent((cx, cy), (nx, ny)),
        wx == cx + nx + 1,
        wy == cy + ny + 1,
        g1 == g0.update(wy, g1[wy]),
        g1[wy]@ == g0[wy]@.update(wx, OPEN),
        g2 == g1.update(room_cell(ny), g2[room_cell(ny)]),
        g2[room_cell(ny)]@ == g1[room_cell(ny)]@.update(room_cell(nx), OPEN),
        v1 == v0.update(ny, v1[ny]),
        v1[ny]@ == v0[ny]@.update(nx, true),
        unvisited(v1) + 1 == unvisited(v0),
    ensures
        passages_join_visited(g2, v1),
        open_count(g2) + 2 * unvisited(v1) == 2 * MAZE_W * MAZE_H - 1,
{
    reveal(passages_join_visited);
    // it was still a wall: an open passage joins two visited rooms, and room `n` is not visited
    assert(g0[wy]@[wx] == WALL) by {
        if g0[wy]@[wx] == OPEN {
            if nx == cx + 1 || nx + 1 == cx {
                assert(wx % 2 == 0 && wy % 2 == 1);
                assert((wy - 1) / 2 == ny);
                assert(wx / 2 - 1 == nx || wx / 2 == nx);
            } else {
                assert(wx % 2 == 1 && wy % 2 == 0);
                assert((wx - 1) / 2 == nx);
                assert(wy / 2 - 1 == ny || wy / 2 == ny);
            }
        }
    }
    assert(g1[room_cell(ny)]@[room_cell(nx)] == WALL) by {
        assert(g0[room_cell(ny)]@[room_cell(nx)] != OPEN);
    }
    lemma_count_set(g0, wy, wx, OPEN, g1[wy]);
    lemma_count_set(g1, room_cell(ny), room_cell(nx), OPEN, g2[room_cell(ny)]);
    assert forall|x: int, y: int| 0 <= x < GRID_W && 0 <= y < GRID_H && #[trigger] g2[y]@[x] == OPEN implies {
        &&& (x % 2 == 0 && y % 2 == 1) ==> v1[(y - 1) / 2]@[x / 2 - 1] && v1[(y - 1) / 2]@[x / 2]
        &&& (x % 2 == 1 && y % 2 == 0) ==> v1[y / 2 - 1]@[(x - 1) / 2] && v1[y / 2]@[(x - 1) / 2]
    } by {
        if (x, y) == (wx, wy) {
            if nx == cx + 1 || nx + 1 == cx {
                assert(wx % 2 == 0 && wy % 2 == 1);
                assert((wy - 1) / 2 == ny && ny == cy);
                assert((wx / 2 - 1 == nx && wx / 2 == cx) || (wx / 2 - 1 == cx && wx / 2 == nx));
            } else {
                assert(wx % 2 == 1 && wy % 2 == 0);
                assert((wx - 1) / 2 == nx && nx == cx);
                assert((wy / 2 - 1 == ny && wy / 2 == cy) || (wy / 2 - 1 == cy && wy / 2 == ny));
            }
        } else if (x, y) != (room_cell(nx), room_cell(ny)) {
            assert(g0[y]@[x] == OPEN);
        }
    }
}

/// One forward step of the search keeps every loop invariant.
proof fn lemma_dfs_step(
    g0: Seq<Vec<u8>>,
    g1: Seq<Vec<u8>>,
    g2: Seq<Vec<u8>>,
    v0: Seq<Vec<bool>>,
    v1: Seq<Vec<bool>>,
    s0: Seq<(usize, usize)>,
    s1: Seq<(usize, usize)>,
    cx: int,
    cy: int,
    nx: int,
    ny: int,
    wx: int,
    wy: int,
)
    requires
        grid_shape(g0),
        visited_shape(v0),
        carved_cells(g0),
        rooms_match(g0, v0),
        open_reachable(g0),
        stack_ok(s0, v0),
        finished_rooms_closed(s0, v0),
        v0[0]@[0],
        passages_join_visited(g0, v0),
        open_count(g0) + 2 * unvisited(v0) == 2 * MAZE_W * MAZE_H - 1,
        s0.len() > 0,
        s0.last().0 == cx,
        s0.last().1 == cy,
        0 <= nx < MAZE_W,
        0 <= ny < MAZE_H,
        !v0[ny]@[nx],
        adjacent((cx, cy), (nx, ny)),
        wx == cx + nx + 1,
        wy == cy + ny + 1,
        g1 == g0.update(wy, g1[wy]),
        g1[wy]@ == g0[wy]@.update(wx, OPEN),
        g2 == g1.update(room_cell(ny), g2[room_cell(ny)]),
        g2[room_cell(ny)]@ == g1[room_cell(ny)]@.update(room_cell(nx), OPEN),
        v1 == v0.update(ny, v1[ny]),
        v1[ny]@ == v0[ny]@.update(nx, true),
        s1 == s0.push((nx as usize, ny as usize)),
    ensures
        grid_shape(g2),
        visited_shape(v1),
        carved_cells(g2),
        rooms_match(g2, v1),
        open_reachable(g2),
        stack_ok(s1, v1),
        finished_rooms_closed(s1, v1),
        v1[0]@[0],
        passages_join_visited(g2, v1),
        open_count(g2) + 2 * unvisited(v1) == 2 * MAZE_W * MAZE_H - 1,
        2 * unvisited(v1) + s1.len() < 2 * unvisited(v0) + s0.len(),
{
    lemma_unvisited_set(v0, ny, nx, v1[ny]);
    assert(0 <= cx < MAZE_W && 0 <= cy < MAZE_H) by {
        assert(s0[s0.len() - 1] == s0.last());
    }
    assert(v0[cy]@[cx]) by {
        assert(s0[s0.len() - 1] == s0.last());
    }
    // the opened wall cell lies between two rooms, so it is not a room itself
    assert(wx % 2 == 0 || wy % 2 == 0);
    lemma_dfs_step_count(g0, g1, g2, v0, v1, cx, cy, nx, ny, wx, wy);
    assert(opens_more(g0, g1));
    assert(opens_more(g1, g2));
    let top = (room_cell(cx), room_cell(cy));
    let wall = (wx, wy);
    let next = (room_cell(nx), room_cell(ny));
    assert(g0[top.1]@[top.0] == OPEN);
    assert(reachable(g0, (1, 1), top));
    lemma_reach_mono(g0, g1, (1, 1), top);
    lemma_reach_step(g1, (1, 1), top, wall);
    lemma_reach_mono(g1, g2, (1, 1), wall);
    lemma_reach_step(g2, (1, 1), wall, next);
    assert forall|x: int, y: int| 0 <= x < GRID_W && 0 <= y < GRID_H && #[trigger] g2[y]@[x] == OPEN
        implies reachable(g2, (1, 1), (x, y)) by {
        if (x, y) == wall {
        } else if (x, y) == next {
        } else {
            assert(g0[y]@[x] == OPEN);
            lemma_reach_mono(g0, g1, (1, 1), (x, y));
            lemma_reach_mono(g1, g2, (1, 1), (x, y));
        }
    }
    assert forall|x: int, y: int| 0 <= x < MAZE_W && 0 <= y < MAZE_H && #[trigger] v1[y]@[x]
        && !on_stack(s1, x, y) implies all_nbrs_visited(v1, x, y) by {
        assert(s1[s1.len() - 1] == (nx as usize, ny as usize));
        if (x, y) != (nx, ny) {
            assert(v0[y]@[x]);
            if on_stack(s0, x, y) {
                let k = choose|k: int| 0 <= k < s0.len() && (#[trigger] s0[k]).0 == x && s0[k].1 == y;
                assert(s1[k] == s0[k]);
            }
            assert(all_nbrs_visited(v0, x, y));
        }
    }
    assert forall|k: int| 0 <= k < s1.len() implies {
        &&& (#[trigger] s1[k]).0 < MAZE_W
        &&& s1[k].1 < MAZE_H
        &&& v1[s1[k].1 as int]@[s1[k].0 as int]
    } by {
        if k < s0.len() {
            assert(s1[k] == s0[k]);
        }
    }
}

/// The grid is a finished maze: full size, only open, wall and exit cells,
/// the exit only in the far corner room, every room open and nothing open
/// that is not a room or a cell between two rooms (so the border is solid).
pub open spec fn is_maze_grid(g: Seq<Vec<u8>>) -> bool {
    &&& grid_shape(g)
    &&& forall|x: int, y: int| 0 <= x < GRID_W && 0 <= y < GRID_H ==>
        (#[trigger] g[y]@[x] == OPEN || g[y]@[x] == WALL || g[y]@[x] == EXIT)
    &&& forall|x: int, y: int| 0 <= x < GRID_W && 0 <= y < GRID_H ==>
        (#[trigger] g[y]@[x] == EXIT <==> x == GRID_W - 2 && y == GRID_H - 2)
    &&& forall|x: int, y: int| 0 <= x < GRID_W && 0 <= y < GRID_H && #[trigger] g[y]@[x] != WALL
        ==> room_or_passage(x, y)
    &&& forall|cx: int, cy: int| 0 <= cx < MAZE_W && 0 <= cy < MAZE_H ==>
        #[trigger] g[room_cell(cy)]@[room_cell(cx)] != WALL
}

/// Every walkable cell of the grid can be walked to from cell `from`.
pub open spec fn all_open_reachable(g: Seq<Vec<u8>>, from: (int, int)) -> bool {
    forall|x: int, y: int| #[trigger] open_in(g, x, y) ==> reachable(g, from, (x, y))
}

/// An enemy start cell: an open room (not the exit) at least four rooms
/// away from the first room, counting steps along rows and columns.
pub open spec fn enemy_spawn_ok(g: Seq<Vec<u8>>, s: (usize, usize)) -> bool {
    &&& s.0 < GRID_W && s.1 < GRID_H
    &&& s.0 % 2 == 1 && s.1 % 2 == 1
    &&& g[s.1 as int]@[s.0 as int] == OPEN
    &&& s.0 / 2 + s.1 / 2 >= 4
}

/// A spawn draw: yes with probability `SPAWN_NUM / SPAWN_DEN`.
pub open spec fn is_spawn_draw(d: Draw) -> bool {
    d matches Draw::Ratio { numerator, denominator, .. } && numerator == SPAWN_NUM && denominator == SPAWN_DEN
}

/// A yes/no draw that came out yes.
pub open spec fn won(d: Draw) -> bool {
    d matches Draw::Ratio { yes, .. } && yes
}

/// The enemy starts picked among the first `i` rooms in row order (the
/// room at index `r` is column `r % 12`, row `r / 12`) by the spawn draws
/// `draws`, and how many draws that took: each room at least four rooms
/// from the start takes the next draw, and becomes an enemy start when
/// the draw is won and the room is open.
pub open spec fn spawn_pick(g: Seq<Vec<u8>>, draws: Seq<Draw>, i: nat) -> (Seq<(usize, usize)>, nat)
    decreases i,
{
    if i == 0 {
        (seq![], 0)
    } else {
        let prev = spawn_pick(g, draws, (i - 1) as nat);
        let cx = (i - 1) % (MAZE_W as int);
        let cy = (i - 1) / (MAZE_W as int);
        if cx + cy >= 4 {
            (if won(draws[prev.1 as int]) && g[room_cell(cy)]@[room_cell(cx)] == OPEN {
                prev.0.push((room_cell(cx) as usize, room_cell(cy) as usize))
            } else {
                prev.0
            }, prev.1 + 1)
        } else {
            prev
        }
    }
}

/// The enemy starts of a maze `g` given its spawn draws: the rooms picked
/// by the draws, followed by the rooms (2, 2), (4, 2) and (2, 4) when fewer
/// than three were picked.
pub open spec fn spawn_list(g: Seq<Vec<u8>>, draws: Seq<Draw>) -> Seq<(usize, usize)> {
    let picked = spawn_pick(g, draws, (MAZE_W * MAZE_H) as nat).0;
    if picked.len() < 3 {
        picked + seq![(5usize, 5usize), (9usize, 5usize), (5usize, 9usize)]
    } else {
        picked
    }
}

/// The enemy starts begin with the rooms the spawn draws picked, in order;
/// when at least three were picked they are exactly those rooms, and
/// otherwise the three fixed rooms follow them. There are always at least
/// three.
pub proof fn lemma_spawn_fallback_only_when_few(g: Seq<Vec<u8>>, draws: Seq<Draw>)
    ensures
        ({
            let picked = spawn_pick(g, draws, (MAZE_W * MAZE_H) as nat).0;
            let starts = spawn_list(g, draws);
            &&& forall|k: int| 0 <= k < picked.len() ==> #[trigger] starts[k] == picked[k]
            &&& picked.len() >= 3 ==> starts.len() == picked.len()
            &&& picked.len() < 3 ==> starts.len() == picked.len() + 3 && starts[picked.len() as int] == (5usize, 5usize)
                && starts[picked.len() + 1int] == (9usize, 5usize) && starts[picked.len() + 2int] == (5usize, 9usize)
            &&& starts.len() >= 3
        }),
{
}

/// The spawn draws of a maze `g`: as many as its rooms take, each a draw
/// at the spawn odds.
pub open spec fn spawn_draws_ok(g: Seq<Vec<u8>>, draws: Seq<Draw>) -> bool {
    &&& draws.len() == spawn_pick(g, draws, (MAZE_W * MAZE_H) as nat).1
    &&& forall|k: int| 0 <= k < draws.len() ==> is_spawn_draw(#[trigger] draws[k])
}

/// What the first `i` rooms pick depends only on the draws they take.
proof fn lemma_spawn_pick_prefix(g: Seq<Vec<u8>>, d1: Seq<Draw>, d2: Seq<Draw>, i: nat)
    requires
        d1.len() <= d2.len(),
        forall|k: int| 0 <= k < d1.len() ==> d1[k] == d2[k],
        spawn_pick(g, d1, i).1 <= d1.len(),
    ensures
        spawn_pick(g, d1, i) == spawn_pick(g, d2, i),
    decreases i,
{
    if i > 0 {
        let prev = spawn_pick(g, d1, (i - 1) as nat);
        assert(prev.1 <= spawn_pick(g, d1, i).1);
        lemma_spawn_pick_prefix(g, d1, d2, (i - 1) as nat);
    }
}

impl GameMap {
    /// The grid rows have the stated width and height.
    pub open spec fn wf(self) -> bool {
        &&& self.grid@.len() == self.height
        &&& forall|y: int| 0 <= y < self.height ==> (#[trigger] self.grid@[y]@).len() == self.width
    }

    /// The value of cell `(x, y)`; every cell outside the grid reads as a
    /// wall. The bounds are the width and height taken as `i32` values, as
    /// the cell coordinates are; for a grid of at most `i32::MAX` columns
    /// and rows they are the width and height themselves.
    pub open spec fn cell_value(self, x: int, y: int) -> u8 {
        if 0 <= x < (self.width as i32) && 0 <= y < (self.height as i32) {
            self.grid@[y]@[x]
        } else {
            WALL
        }
    }

    /// Generates a new random maze: a depth-first search over a 12×12 grid
    /// of rooms carves passages, the far corner room becomes the exit, and
    /// each room at least four rooms from the start becomes an enemy start
    /// with probability 22/100 (three fixed rooms are added when fewer than
    /// three were chosen). Every walkable cell can be reached from the start,
    /// and exactly 287 cells are walkable: the 144 rooms and the 143
    /// passages that join them. The draws made are the 143 picks of the
    /// search, each below the number of unvisited neighbours of the room
    /// it steps from, then one spawn draw per room far enough from the
    /// start; the maze and the enemy starts are the ones those draws give.
    pub fn generate(dice: &mut Dice) -> (m: Self)
        ensures
            m.wf(),
            m.width == GRID_W,
            m.height == GRID_H,
            m.spawn == (1usize, 1usize),
            m.exit == (23usize, 23usize),
            is_maze_grid(m.grid@),
            all_open_reachable(m.grid@, (1, 1)),
            open_count(m.grid@) == 2 * MAZE_W * MAZE_H - 1,
            m.enemy_spawns@.len() >= 3,
            forall|k: int| 0 <= k < m.enemy_spawns@.len() ==> enemy_spawn_ok(m.grid@, #[trigger] m.enemy_spawns@[k]),
            exists|carve: Seq<Draw>, spawn: Seq<Draw>|
                #![trigger maze_from(carve, m.grid@), spawn_list(m.grid@, spawn)]
                final(dice).history() == old(dice).history() + carve + spawn && carve.len() == MAZE_W * MAZE_H - 1
                    && maze_from(carve, m.grid@) && spawn_draws_ok(m.grid@, spawn) && m.enemy_spawns@ == spawn_list(
                    m.grid@,
                    spawn,
                ),
    {
        let maze_w: usize = MAZE_W;
        let maze_h: usize = MAZE_H;
        let grid_w = maze_w * 2 + 1;
        let grid_h = maze_h * 2 + 1;

        let ghost h0 = dice.history();
        let mut grid = carve_maze(dice);
        let ghost cd = choose|cd: Seq<Draw>|
            #![trigger carved_by(cd, rows_of(grid@))]
            dice.history() == h0 + cd && cd.len() == MAZE_W * MAZE_H - 1 && carved_by(cd, rows_of(grid@));
        let ghost carved = rows_of(grid@);

        // Mark exit cell (far corner room)
        let exit_gx = (maze_w - 1) * 2 + 1;
        let exit_gy = (maze_h - 1) * 2 + 1;
        let ghost g0 = grid@;
        grid[exit_gy][exit_gx] = EXIT;
        proof {
            lemma_exit_marked(g0, grid@);
            assert(rows_of(grid@) =~~= carved.update(GRID_H - 2, carved[GRID_H - 2].update(GRID_W - 2, EXIT)));
            assert(maze_from(cd, grid@));
        }

        // Collect enemy spawn positions: open rooms away from start
        let mut enemy_spawns: Vec<(usize, usize)> = Vec::new();
        let ghost h1 = dice.history();
        let ghost mut sp: Seq<Draw> = Seq::empty();
        for cy in 0..maze_h
            invariant
                maze_w == MAZE_W,
                maze_h == MAZE_H,
                is_maze_grid(grid@),
                all_open_reachable(grid@, (1, 1)),
                open_count(grid@) == 2 * MAZE_W * MAZE_H - 1,
                forall|k: int| 0 <= k < enemy_spawns@.len() ==> enemy_spawn_ok(grid@, #[trigger] enemy_spawns@[k]),
                dice.history() == h1 + sp,
                forall|k: int| 0 <= k < sp.len() ==> is_spawn_draw(#[trigger] sp[k]),
                spawn_pick(grid@, sp, (cy * MAZE_W) as nat) == (enemy_spawns@, sp.len()),
        {
            for cx in 0..maze_w
                invariant
                    maze_w == MAZE_W,
                    maze_h == MAZE_H,
                    cy < MAZE_H,
                    is_maze_grid(grid@),
                    all_open_reachable(grid@, (1, 1)),
                    open_count(grid@) == 2 * MAZE_W * MAZE_H - 1,
                    forall|k: int| 0 <= k < enemy_spawns@.len() ==> enemy_spawn_ok(grid@, #[trigger] enemy_spawns@[k]),
                    dice.history() == h1 + sp,
                    forall|k: int| 0 <= k < sp.len() ==> is_spawn_draw(#[trigger] sp[k]),
                    spawn_pick(grid@, sp, (cy * MAZE_W + cx) as nat) == (enemy_spawns@, sp.len()),
            {
                let ghost i = (cy * MAZE_W + cx) as nat;
                assert((i as int) % (MAZE_W as int) == cx && (i as int) / (MAZE_W as int) == cy) by (nonlinear_arith)
                    requires
                        i == cy * 12 + cx,
                        cx < 12,
                ;
                let dist = cx + cy; // Manhattan distance from (0,0)
                if dist >= 4 {
                    let ghost sp0 = sp;
                    let win = dice.ratio(SPAWN_NUM, SPAWN_DEN);
                    proof {
                        sp = sp0.push(Draw::Ratio { numerator: SPAWN_NUM, denominator: SPAWN_DEN, yes: win });
                        assert(dice.history() == h1 + sp);
                        lemma_spawn_pick_prefix(grid@, sp0, sp, i);
                        assert(won(sp[sp0.len() as int]) == win);
                    }
                    if win {
                        let gx = cx * 2 + 1;
                        let gy = cy * 2 + 1;
                        if grid[gy][gx] == OPEN {
                            enemy_spawns.push((gx, gy));
                        }
                    }
                }
                proof {
                    assert(spawn_pick(grid@, sp, (i + 1) as nat) == (enemy_spawns@, sp.len()));
                }
            }
        }
        let ghost picked = enemy_spawns@;
        if enemy_spawns.len() < 3 {
            proof {
                assert(grid@[room_cell(2)]@[room_cell(2)] != WALL);
                assert(grid@[room_cell(2)]@[room_cell(4)] != WALL);
                assert(grid@[room_cell(4)]@[room_cell(2)] != WALL);
            }
            enemy_spawns.push((5, 5));
            enemy_spawns.push((9, 5));
            enemy_spawns.push((5, 9));
        }
        proof {
            assert(enemy_spawns@ =~= spawn_list(grid@, sp));
            assert(dice.history() =~= h0 + cd + sp);
            assert(spawn_draws_ok(grid@, sp));
        }

        let m = GameMap {
            grid,
            width: grid_w,
            height: grid_h,
            spawn: (1, 1),
            exit: (exit_gx, exit_gy),
            enemy_spawns,
        };
        proof {
            assert(cd.len() == MAZE_W * MAZE_H - 1);
            assert(maze_from(cd, m.grid@));
            assert(m.enemy_spawns@ == spawn_list(m.grid@, sp));
            assert(dice.history() == h0 + cd + sp);
        }
        m
    }

    /// Whether cell `(x, y)` blocks movement; everything outside the grid does.
    pub fn is_wall(&self, x: i32, y: i32) -> (r: bool)
        requires
            self.wf(),
        ensures
            r == (self.cell_value(x as int, y as int) == WALL),
    {
        proof {
            lemma_i32_cast_le(self.width);
            lemma_i32_cast_le(self.height);
        }
        if x < 0 || y < 0 || x >= self.width as i32 || y >= self.height as i32 {
            return true;
        }
        self.grid[y as usize][x as usize] == WALL
    }

    /// Whether cell `(x, y)` is the exit portal; nothing outside the grid is.
    pub fn is_exit(&self, x: i32, y: i32) -> (r: bool)
        requires
            self.wf(),
        ensures
            r == (self.cell_value(x as int, y as int) == EXIT),
    {
        proof {
            lemma_i32_cast_le(self.width);
            lemma_i32_cast_le(self.height);
        }
        if x < 0 || y < 0 || x >= self.width as i32 || y >= self.height as i32 {
            return false;
        }
        self.grid[y as usize][x as usize] == EXIT
    }

    /// The value of cell `(x, y)`, `WALL` outside the grid.
    pub fn cell(&self, x: i32, y: i32) -> (r: u8)
        requires
            self.wf(),
        ensures
            r == self.cell_value(x as int, y as int),
    {
        proof {
            lemma_i32_cast_le(self.width);
            lemma_i32_cast_le(self.height);
        }
        if x < 0 || y < 0 || x >= self.width as i32 || y >= self.height as i32 {
            return WALL;
        }
        self.grid[y as usize][x as usize]
    }
}

/// A size taken as an `i32` is never larger than the size.
proof fn lemma_i32_cast_le(n: usize)
    ensures
        (n as i32) <= n,
{
    assert((n as i32) <= n) by (bit_vector);
}

/// Turning the open far corner room into the exit keeps the maze shape and
/// keeps every walkable cell reachable.
proof fn lemma_exit_marked(g0: Seq<Vec<u8>>, g1: Seq<Vec<u8>>)
    requires
        grid_shape(g0),
        carved_cells(g0),
        open_reachable(g0),
        forall|cx: int, cy: int| 0 <= cx < MAZE_W && 0 <= cy < MAZE_H ==>
            #[trigger] g0[room_cell(cy)]@[room_cell(cx)] == OPEN,
        g1 == g0.update(GRID_H - 2, g1[GRID_H - 2]),
        g1[GRID_H - 2]@ == g0[GRID_H - 2]@.update(GRID_W - 2, EXIT),
        open_count(g0) == 2 * MAZE_W * MAZE_H - 1,
    ensures
        is_maze_grid(g1),
        all_open_reachable(g1, (1, 1)),
        open_count(g1) == 2 * MAZE_W * MAZE_H - 1,
{
    lemma_count_set(g0, GRID_H - 2, GRID_W - 2, EXIT, g1[GRID_H - 2]);
    assert(g0[room_cell(MAZE_H - 1)]@[room_cell(MAZE_W - 1)] == OPEN);
    assert(opens_more(g0, g1));
    assert forall|x: int, y: int| #[trigger] open_in(g1, x, y) implies reachable(g1, (1, 1), (x, y)) by {
        assert(g0[y]@[x] == OPEN);
        lemma_reach_mono(g0, g1, (1, 1), (x, y));
    }
    assert forall|cx: int, cy: int| 0 <= cx < MAZE_W && 0 <= cy < MAZE_H implies
        #[trigger] g1[room_cell(cy)]@[room_cell(cx)] != WALL by {
        assert(g0[room_cell(cy)]@[room_cell(cx)] == OPEN);
    }
}

} // verus!
