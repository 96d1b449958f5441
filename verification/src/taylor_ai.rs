//! The pursuit AI: grid pathfinding toward the player and continuous-space
//! path following with stuck detection and fallbacks.
//!
//! The search is A* over grid cells with 8-directional moves, orthogonal
//! step cost 10 and diagonal step cost 14 (a fixed-point approximation of
//! the diagonal length that keeps the cost accumulator integral), and the
//! Manhattan distance as the heuristic — intentionally a fast approximation
//! rather than an admissible heuristic for diagonal movement. The open set
//! is kept in a plain vector and scanned for the best node (lowest f; on a
//! tie the node with the larger heuristic wins — a deliberate rule that
//! fixes the path shape on equal costs; on a full tie the earliest-inserted
//! node wins), and a closed flag per
//! cell prevents reprocessing, so the search visits each cell at most once.

use vstd::prelude::*;
use crate::fixed::FP_ONE;
use crate::fixed::Vec2;
use crate::fixed::abs_i;
use crate::fixed::is_isqrt;
use crate::fixed::isqrt;
use crate::fixed::scale;
use crate::fixed::spec_scale;
use crate::fixed::lemma_scale_le;
use crate::maze::Maze;
use crate::maze::walkable_at;
use crate::maze::spec_cell_center;
use crate::maze::EMPTY_TILE;
use crate::player::Player;
use crate::player::is_valid_position;
use crate::player::spec_point_walkable;

verus! {

/// A grid cell address. May denote a cell outside the maze; every use is
/// bounds-checked.
#[derive(Clone, Copy, Debug, PartialEq, Eq, Structural)]
pub struct GridPos {
    pub x: i32,
    pub y: i32,
}

/// Coordinate magnitude within which grid arithmetic (neighbors, Manhattan
/// distances) cannot overflow.
pub const POS_LIMIT: i32 = 0x100000;

/// `p` has coordinates small enough for grid arithmetic.
pub open spec fn pos_bounded(p: GridPos) -> bool {
    -POS_LIMIT <= p.x <= POS_LIMIT && -POS_LIMIT <= p.y <= POS_LIMIT
}

/// Like [`pos_bounded`], with one cell of slack: holds of every neighbor of
/// a bounded cell.
pub open spec fn pos_bounded_slack(p: GridPos) -> bool {
    -POS_LIMIT - 1 <= p.x <= POS_LIMIT + 1 && -POS_LIMIT - 1 <= p.y <= POS_LIMIT + 1
}

/// `a` and `b` are distinct cells that touch (8-directional adjacency).
pub open spec fn adjacent(a: GridPos, b: GridPos) -> bool {
    abs_i(a.x - b.x) <= 1 && abs_i(a.y - b.y) <= 1 && !(a.x == b.x && a.y == b.y)
}

/// The step from `a` to `b` is diagonal (both coordinates change).
pub open spec fn is_diagonal_step(a: GridPos, b: GridPos) -> bool {
    abs_i(a.x - b.x) == 1 && abs_i(a.y - b.y) == 1
}

/// Cost of one step between adjacent cells: 10 orthogonal, 14 diagonal.
pub open spec fn step_cost(a: GridPos, b: GridPos) -> int {
    if is_diagonal_step(a, b) { 14 } else { 10 }
}

/// The cell a path step starts from: the caller's start cell for the first
/// step, the previous path cell afterwards.
pub open spec fn path_step_src(start: GridPos, path: Seq<GridPos>, i: int) -> GridPos {
    if i == 0 { start } else { path[i - 1] }
}

/// Chebyshev distance between two cells: the ring radius that reaches one
/// from the other.
pub open spec fn chebyshev(a: GridPos, b: GridPos) -> int {
    if abs_i(a.x - b.x) >= abs_i(a.y - b.y) { abs_i(a.x - b.x) } else { abs_i(a.y - b.y) }
}

/// A walkable substitute goal on the fallback's square rings: within five
/// rings of the goal, but not the goal itself.
pub open spec fn ring_candidate(m: Seq<Vec<char>>, goal: GridPos, c: GridPos) -> bool {
    walkable_at(m, c.x as int, c.y as int) && 1 <= chebyshev(c, goal) <= 5
}

/// A well-formed pursuit path from `start` to `goal` through maze `m`:
/// every cell is walkable, consecutive cells (and the first cell, seen from
/// `start`) are adjacent, the path ends at `goal`, and the start cell itself
/// never appears.
pub open spec fn valid_path(m: Seq<Vec<char>>, start: GridPos, goal: GridPos,
    path: Seq<GridPos>) -> bool
{
    &&& path.len() > 0 ==> path[path.len() - 1] == goal
    &&& forall|i: int| 0 <= i < path.len()
        ==> walkable_at(m, #[trigger] path[i].x as int, path[i].y as int)
    &&& forall|i: int| 0 <= i < path.len()
        ==> adjacent(path_step_src(start, path, i), #[trigger] path[i])
    &&& forall|i: int| 0 <= i < path.len() ==> #[trigger] path[i] != start
}

impl GridPos {
    pub fn new(x: i32, y: i32) -> (r: Self)
        ensures
            r.x == x,
            r.y == y,
    {
        Self { x, y }
    }

    /// The cell containing a world position (fixed-point coordinates),
    /// rounding the division toward zero.
    pub fn from_world_pos(world_x: i64, world_y: i64, block_size: usize) -> (r: Self)
        requires
            0 < block_size <= 0x10000,
            -0x4000000000 <= world_x <= 0x4000000000,
            -0x4000000000 <= world_y <= 0x4000000000,
        ensures
            r.x == spec_world_to_cell(world_x as int, block_size as int * FP_ONE as int),
            r.y == spec_world_to_cell(world_y as int, block_size as int * FP_ONE as int),
            -0x20000000 <= world_x <= 0x20000000 && -0x20000000 <= world_y <= 0x20000000
                ==> -0x80000 <= r.x <= 0x80000 && -0x80000 <= r.y <= 0x80000,
    {
        let block_fp: i64 = (block_size as i64) * FP_ONE;
        proof {
            if -0x20000000 <= world_x <= 0x20000000 {
                lemma_world_to_cell_bound(world_x as int, block_fp as int);
            }
            if -0x20000000 <= world_y <= 0x20000000 {
                lemma_world_to_cell_bound(world_y as int, block_fp as int);
            }
        }
        Self {
            x: world_to_cell(world_x, block_fp),
            y: world_to_cell(world_y, block_fp),
        }
    }

    /// World position (fixed-point) of the center of this cell.
    pub fn to_world_pos(&self, block_size: usize) -> (r: Vec2)
        requires
            0 < block_size <= 0x10000,
            pos_bounded(*self),
        ensures
            r.x == self.x as int * (block_size as int) * (FP_ONE as int)
                + (block_size as int) * (FP_ONE as int) / 2,
            r.y == self.y as int * (block_size as int) * (FP_ONE as int)
                + (block_size as int) * (FP_ONE as int) / 2,
    {
        proof {
            assert(-0x100000 * 0x10000 * 1024 <= self.x as int * (block_size as int) * (
            FP_ONE as int) <= 0x100000 * 0x10000 * 1024) by (nonlinear_arith)
                requires
                    -0x100000 <= self.x as int <= 0x100000,
                    0 < block_size as int <= 0x10000;
            assert(-0x100000 * 0x10000 * 1024 <= self.y as int * (block_size as int) * (
            FP_ONE as int) <= 0x100000 * 0x10000 * 1024) by (nonlinear_arith)
                requires
                    -0x100000 <= self.y as int <= 0x100000,
                    0 < block_size as int <= 0x10000;
        }
        Vec2 {
            x: (self.x as i64) * (block_size as i64) * FP_ONE + (block_size as i64) * FP_ONE / 2,
            y: (self.y as i64) * (block_size as i64) * FP_ONE + (block_size as i64) * FP_ONE / 2,
        }
    }

    /// Manhattan distance between two cells: the pathfinding heuristic.
    pub fn manhattan_distance(&self, other: &GridPos) -> (r: i32)
        requires
            pos_bounded(*self),
            pos_bounded(*other),
        ensures
            r == abs_i(self.x - other.x) + abs_i(self.y - other.y),
    {
        let dx: i32 = if self.x >= other.x { self.x - other.x } else { other.x - self.x };
        let dy: i32 = if self.y >= other.y { self.y - other.y } else { other.y - self.y };
        dx + dy
    }

    /// The eight neighbor cells, in the fixed order the search relaxes them.
    pub fn get_neighbors(&self) -> (r: Vec<GridPos>)
        requires
            pos_bounded(*self),
        ensures
            r@.len() == 8,
            r@[0].x == self.x + 1 && r@[0].y == self.y,
            r@[1].x == self.x - 1 && r@[1].y == self.y,
            r@[2].x == self.x && r@[2].y == self.y + 1,
            r@[3].x == self.x && r@[3].y == self.y - 1,
            r@[4].x == self.x + 1 && r@[4].y == self.y + 1,
            r@[5].x == self.x - 1 && r@[5].y == self.y + 1,
            r@[6].x == self.x + 1 && r@[6].y == self.y - 1,
            r@[7].x == self.x - 1 && r@[7].y == self.y - 1,
            forall|i: int| 0 <= i < 8 ==> adjacent(*self, #[trigger] r@[i]),
            forall|i: int| 0 <= i < 8 ==> pos_bounded_slack(#[trigger] r@[i]),
    {
        let mut v: Vec<GridPos> = Vec::new();
        v.push(GridPos { x: self.x + 1, y: self.y });
        v.push(GridPos { x: self.x - 1, y: self.y });
        v.push(GridPos { x: self.x, y: self.y + 1 });
        v.push(GridPos { x: self.x, y: self.y - 1 });
        v.push(GridPos { x: self.x + 1, y: self.y + 1 });
        v.push(GridPos { x: self.x - 1, y: self.y + 1 });
        v.push(GridPos { x: self.x + 1, y: self.y - 1 });
        v.push(GridPos { x: self.x - 1, y: self.y - 1 });
        v
    }
}

/// Truncating-toward-zero division of a world coordinate by the cell span.
pub open spec fn spec_world_to_cell(w: int, block_fp: int) -> int {
    if w >= 0 { w / block_fp } else { -((-w) / block_fp) }
}

fn world_to_cell(w: i64, block_fp: i64) -> (r: i32)
    requires
        1024 <= block_fp <= 0x10000 * 1024,
        -0x4000000000 <= w <= 0x4000000000,
    ensures
        r == spec_world_to_cell(w as int, block_fp as int),
{
    if w >= 0 {
        let q: u64 = (w as u64) / (block_fp as u64);
        proof {
            assert((w as int) / (block_fp as int) <= w as int) by (nonlinear_arith)
                requires 0 <= w, 0 < block_fp;
            assert((w as int) / (block_fp as int) < 0x80000000) by (nonlinear_arith)
                requires 0 <= w <= 0x4000000000, 1024 <= block_fp;
        }
        q as i32
    } else {
        let q: u64 = ((-w) as u64) / (block_fp as u64);
        proof {
            assert((-w as int) / (block_fp as int) <= -w as int) by (nonlinear_arith)
                requires 0 <= -w, 0 < block_fp;
            assert((-w as int) / (block_fp as int) < 0x80000000) by (nonlinear_arith)
                requires 0 <= -w <= 0x4000000000, 1024 <= block_fp;
        }
        -(q as i32)
    }
}

/// A world coordinate within the engine's range maps to a cell index within
/// the grid-arithmetic range.
proof fn lemma_world_to_cell_bound(w: int, bfp: int)
    requires
        1024 <= bfp,
        -0x20000000 <= w <= 0x20000000,
    ensures
        -0x80000 <= spec_world_to_cell(w, bfp) <= 0x80000,
{
    if w >= 0 {
        let q = w / bfp;
        vstd::arithmetic::div_mod::lemma_fundamental_div_mod(w, bfp);
        assert(0 <= q <= 0x80000) by (nonlinear_arith)
            requires
                w == bfp * q + (w % bfp),
                0 <= (w % bfp) < bfp,
                1024 <= bfp,
                0 <= w <= 0x20000000;
    } else {
        let q = (-w) / bfp;
        vstd::arithmetic::div_mod::lemma_fundamental_div_mod(-w, bfp);
        assert(0 <= q <= 0x80000) by (nonlinear_arith)
            requires
                -w == bfp * q + ((-w) % bfp),
                0 <= ((-w) % bfp) < bfp,
                1024 <= bfp,
                0 <= -w <= 0x20000000;
    }
}

/// A node queued in the open set: a cell, its accumulated cost `g_cost`,
/// its heuristic `h_cost`, and the cell it was reached from.
#[derive(Clone, Copy, Debug)]
pub struct PathNode {
    pub pos: GridPos,
    pub g_cost: i32,
    pub h_cost: i32,
    pub parent: Option<GridPos>,
}

impl PathNode {
    /// The search priority f = g + h; lower is better.
    pub fn f_cost(&self) -> (r: i32)
        requires
            self.g_cost + self.h_cost <= i32::MAX,
            i32::MIN <= self.g_cost + self.h_cost,
        ensures
            r == self.g_cost + self.h_cost,
    {
        self.g_cost + self.h_cost
    }
}

/// Pursuer AI state: the current path with a cursor into it, the replan
/// timer, and the stuck detector (timer plus last sampled position).
/// Times are fixed-point seconds.
pub struct TaylorAI {
    pub current_path: Vec<GridPos>,
    pub path_index: usize,
    pub last_pathfind_time: i64,
    pub pathfind_frequency: i64,
    pub stuck_timer: i64,
    pub last_position: Vec2,
}

impl TaylorAI {
    pub fn new() -> (r: Self)
        ensures
            r.current_path@.len() == 0,
            r.path_index == 0,
            r.last_pathfind_time == 0,
            r.pathfind_frequency == FP_ONE,
            r.stuck_timer == 0,
            r.last_position == (Vec2 { x: 0, y: 0 }),
    {
        Self {
            current_path: Vec::new(),
            path_index: 0,
            last_pathfind_time: 0,
            pathfind_frequency: FP_ONE,  // replan once per second
            stuck_timer: 0,
            last_position: Vec2 { x: 0, y: 0 },
        }
    }

    /// A cell is walkable iff it lies inside the grid (including short rows
    /// of a ragged grid) and holds the empty tile.
    pub fn is_walkable(&self, pos: &GridPos, maze: &Maze) -> (r: bool)
        ensures
            r == walkable_at(maze@, pos.x as int, pos.y as int),
    {
        if pos.y < 0 {
            return false;
        }
        let y = pos.y as usize;
        if y >= maze.len() {
            return false;
        }
        let row = &maze[y];
        if pos.x < 0 {
            return false;
        }
        let x = pos.x as usize;
        if x >= row.len() {
            return false;
        }
        row[x] == EMPTY_TILE
    }
}

/// Per-cell bookkeeping of one A* search. `seen` means a cost has been
/// recorded; `closed` means the cell was expanded and is final.
#[derive(Clone, Copy, Debug)]
struct SearchCell {
    g: i32,
    parent: Option<GridPos>,
    seen: bool,
    closed: bool,
}

spec fn st_in(st: Seq<Vec<SearchCell>>, x: int, y: int) -> bool {
    0 <= y < st.len() && 0 <= x < st[y]@.len()
}

spec fn st_at(st: Seq<Vec<SearchCell>>, x: int, y: int) -> SearchCell {
    st[y]@[x]
}

spec fn seen_at(st: Seq<Vec<SearchCell>>, x: int, y: int) -> bool {
    st_in(st, x, y) && st_at(st, x, y).seen
}

/// The search grid has exactly the maze's shape, and the engine's size cap.
spec fn shape_ok(m: Seq<Vec<char>>, st: Seq<Vec<SearchCell>>) -> bool {
    &&& st.len() == m.len()
    &&& st.len() <= 0x1000
    &&& forall|j: int| 0 <= j < st.len()
        ==> #[trigger] st[j]@.len() == m[j]@.len() && st[j]@.len() <= 0x1000
}

spec fn b2i(b: bool) -> int {
    if b { 1 } else { 0 }
}

/// Number of closed cells among the first `upto` entries of one row.
spec fn row_closed_count(row: Seq<SearchCell>, upto: int) -> int
    decreases upto,
{
    if upto <= 0 {
        0
    } else {
        row_closed_count(row, upto - 1) + b2i(row[upto - 1].closed)
    }
}

/// Number of closed cells in the first `upto` rows.
spec fn grid_closed_count(st: Seq<Vec<SearchCell>>, upto: int) -> int
    decreases upto,
{
    if upto <= 0 {
        0
    } else {
        grid_closed_count(st, upto - 1)
            + row_closed_count(st[upto - 1]@, st[upto - 1]@.len() as int)
    }
}

/// Number of cells in the first `upto` rows.
spec fn grid_cells(st: Seq<Vec<SearchCell>>, upto: int) -> int
    decreases upto,
{
    if upto <= 0 {
        0
    } else {
        grid_cells(st, upto - 1) + st[upto - 1]@.len()
    }
}

proof fn lemma_row_closed_le(row: Seq<SearchCell>, upto: int)
    requires
        0 <= upto <= row.len(),
    ensures
        0 <= row_closed_count(row, upto) <= upto,
    decreases upto,
{
    if upto > 0 {
        lemma_row_closed_le(row, upto - 1);
    }
}

proof fn lemma_grid_closed_le(st: Seq<Vec<SearchCell>>, upto: int)
    requires
        0 <= upto <= st.len(),
    ensures
        0 <= grid_closed_count(st, upto) <= grid_cells(st, upto),
    decreases upto,
{
    if upto > 0 {
        lemma_grid_closed_le(st, upto - 1);
        lemma_row_closed_le(st[upto - 1]@, st[upto - 1]@.len() as int);
    }
}

/// Changing one entry of a row shifts its closed count by the flag delta.
proof fn lemma_row_closed_update(r1: Seq<SearchCell>, r2: Seq<SearchCell>, i: int, upto: int)
    requires
        r1.len() == r2.len(),
        0 <= i < r1.len(),
        forall|k: int| 0 <= k < r1.len() && k != i ==> r1[k] == #[trigger] r2[k],
        0 <= upto <= r1.len(),
    ensures
        i < upto ==> row_closed_count(r2, upto)
            == row_closed_count(r1, upto) - b2i(r1[i].closed) + b2i(r2[i].closed),
        i >= upto ==> row_closed_count(r2, upto) == row_closed_count(r1, upto),
    decreases upto,
{
    if upto > 0 {
        lemma_row_closed_update(r1, r2, i, upto - 1);
    }
}

/// Changing one cell shifts the grid's closed count by the flag delta and
/// keeps the cell count.
proof fn lemma_grid_closed_update(s1: Seq<Vec<SearchCell>>, s2: Seq<Vec<SearchCell>>,
    x: int, y: int, upto: int)
    requires
        s1.len() == s2.len(),
        0 <= y < s1.len(),
        forall|j: int| 0 <= j < s1.len() && j != y ==> s1[j] == #[trigger] s2[j],
        s2[y]@.len() == s1[y]@.len(),
        0 <= x < s1[y]@.len(),
        forall|k: int| 0 <= k < s1[y]@.len() && k != x ==> s1[y]@[k] == #[trigger] s2[y]@[k],
        0 <= upto <= s1.len(),
    ensures
        grid_cells(s2, upto) == grid_cells(s1, upto),
        y < upto ==> grid_closed_count(s2, upto)
            == grid_closed_count(s1, upto) - b2i(s1[y]@[x].closed) + b2i(s2[y]@[x].closed),
        y >= upto ==> grid_closed_count(s2, upto) == grid_closed_count(s1, upto),
    decreases upto,
{
    if upto > 0 {
        lemma_grid_closed_update(s1, s2, x, y, upto - 1);
        if y == upto - 1 {
            lemma_row_closed_update(s1[y]@, s2[y]@, x, s1[y]@.len() as int);
        }
    }
}


/// Number of seen cells among the first `upto` entries of one row.
spec fn row_seen_count(row: Seq<SearchCell>, upto: int) -> int
    decreases upto,
{
    if upto <= 0 {
        0
    } else {
        row_seen_count(row, upto - 1) + b2i(row[upto - 1].seen)
    }
}

/// Number of seen cells in the first `upto` rows.
spec fn grid_seen_count(st: Seq<Vec<SearchCell>>, upto: int) -> int
    decreases upto,
{
    if upto <= 0 {
        0
    } else {
        grid_seen_count(st, upto - 1)
            + row_seen_count(st[upto - 1]@, st[upto - 1]@.len() as int)
    }
}

proof fn lemma_row_seen_le(row: Seq<SearchCell>, upto: int)
    requires
        0 <= upto <= row.len(),
    ensures
        0 <= row_seen_count(row, upto) <= upto,
    decreases upto,
{
    if upto > 0 {
        lemma_row_seen_le(row, upto - 1);
    }
}

proof fn lemma_grid_seen_le(st: Seq<Vec<SearchCell>>, upto: int)
    requires
        0 <= upto <= st.len(),
    ensures
        0 <= grid_seen_count(st, upto) <= grid_cells(st, upto),
    decreases upto,
{
    if upto > 0 {
        lemma_grid_seen_le(st, upto - 1);
        lemma_row_seen_le(st[upto - 1]@, st[upto - 1]@.len() as int);
    }
}

/// A grid with rows of at most 0x1000 cells has at most `upto * 0x1000`
/// cells in its first `upto` rows.
proof fn lemma_grid_cells_bound(st: Seq<Vec<SearchCell>>, upto: int)
    requires
        0 <= upto <= st.len(),
        forall|j: int| 0 <= j < st.len() ==> (#[trigger] st[j]@.len()) <= 0x1000,
    ensures
        0 <= grid_cells(st, upto) <= upto * 0x1000,
    decreases upto,
{
    if upto > 0 {
        lemma_grid_cells_bound(st, upto - 1);
        assert((upto - 1) * 0x1000 + 0x1000 == upto * 0x1000) by (nonlinear_arith);
    }
}

/// Changing one entry of a row shifts its seen count by the flag delta.
proof fn lemma_row_seen_update(r1: Seq<SearchCell>, r2: Seq<SearchCell>, i: int,
    upto: int)
    requires
        r1.len() == r2.len(),
        0 <= i < r1.len(),
        forall|k: int| 0 <= k < r1.len() && k != i ==> r1[k] == #[trigger] r2[k],
        0 <= upto <= r1.len(),
    ensures
        i < upto ==> row_seen_count(r2, upto)
            == row_seen_count(r1, upto) - b2i(r1[i].seen) + b2i(r2[i].seen),
        i >= upto ==> row_seen_count(r2, upto) == row_seen_count(r1, upto),
    decreases upto,
{
    if upto > 0 {
        lemma_row_seen_update(r1, r2, i, upto - 1);
    }
}

/// Changing one cell shifts the grid's seen count by the flag delta.
proof fn lemma_grid_seen_update(s1: Seq<Vec<SearchCell>>, s2: Seq<Vec<SearchCell>>,
    x: int, y: int, upto: int)
    requires
        s1.len() == s2.len(),
        0 <= y < s1.len(),
        forall|j: int| 0 <= j < s1.len() && j != y ==> s1[j] == #[trigger] s2[j],
        s2[y]@.len() == s1[y]@.len(),
        0 <= x < s1[y]@.len(),
        forall|k: int| 0 <= k < s1[y]@.len() && k != x ==> s1[y]@[k] == #[trigger] s2[y]@[k],
        0 <= upto <= s1.len(),
    ensures
        y < upto ==> grid_seen_count(s2, upto)
            == grid_seen_count(s1, upto) - b2i(s1[y]@[x].seen) + b2i(s2[y]@[x].seen),
        y >= upto ==> grid_seen_count(s2, upto) == grid_seen_count(s1, upto),
    decreases upto,
{
    if upto > 0 {
        lemma_grid_seen_update(s1, s2, x, y, upto - 1);
        if y == upto - 1 {
            lemma_row_seen_update(s1[y]@, s2[y]@, x, s1[y]@.len() as int);
        }
    }
}

/// A row of fresh (unseen) cells counts zero.
proof fn lemma_row_seen_zero(row: Seq<SearchCell>, upto: int)
    requires
        0 <= upto <= row.len(),
        forall|k: int| 0 <= k < row.len() ==> !(#[trigger] row[k]).seen,
    ensures
        row_seen_count(row, upto) == 0,
    decreases upto,
{
    if upto > 0 {
        lemma_row_seen_zero(row, upto - 1);
    }
}

/// A grid of fresh (unseen) cells counts zero.
proof fn lemma_grid_seen_zero(st: Seq<Vec<SearchCell>>, upto: int)
    requires
        0 <= upto <= st.len(),
        forall|j: int, k: int| 0 <= j < st.len() && 0 <= k < st[j]@.len()
            ==> !(#[trigger] st[j]@[k]).seen,
    ensures
        grid_seen_count(st, upto) == 0,
    decreases upto,
{
    if upto > 0 {
        lemma_grid_seen_zero(st, upto - 1);
        assert forall|k: int| 0 <= k < st[upto - 1]@.len()
            implies !(#[trigger] st[upto - 1]@[k]).seen by {}
        lemma_row_seen_zero(st[upto - 1]@, st[upto - 1]@.len() as int);
    }
}

/// Cells (cx, cy) and (nx, ny) are distinct and touch.
spec fn adj_cells(cx: int, cy: int, nx: int, ny: int) -> bool {
    abs_i(cx - nx) <= 1 && abs_i(cy - ny) <= 1 && !(cx == nx && cy == ny)
}

/// The completeness invariants of the search: every cell of the frontier
/// (seen but not yet closed) is queued in the open set, every closed cell
/// has all its walkable neighbors seen, and every recorded cost is bounded
/// by the number of seen cells, so the accumulator cannot overflow.
spec fn reach_inv(m: Seq<Vec<char>>, st: Seq<Vec<SearchCell>>, open: Seq<PathNode>)
    -> bool
{
    &&& forall|x: int, y: int| #[trigger] seen_at(st, x, y) && !st_at(st, x, y).closed
        ==> exists|k: int| 0 <= k < open.len() && (#[trigger] open[k]).pos.x == x
            && open[k].pos.y == y
    &&& forall|cx: int, cy: int, nx: int, ny: int|
        st_in(st, cx, cy) && (#[trigger] st_at(st, cx, cy)).closed
            && #[trigger] walkable_at(m, nx, ny) && adj_cells(cx, cy, nx, ny)
        ==> seen_at(st, nx, ny)
    &&& forall|x: int, y: int| #[trigger] seen_at(st, x, y)
        ==> st_at(st, x, y).g <= 14 * grid_seen_count(st, st.len() as int)
    &&& forall|k: int| 0 <= k < open.len()
        ==> (#[trigger] open[k]).g_cost <= 14 * grid_seen_count(st, st.len() as int)
}

/// Along any valid path from the start, the first cell that is not closed
/// is seen: walking the path from the seen start, every closed cell hands
/// the search on to its walkable, adjacent successor. Since the goal is
/// never closed while the search runs, some seen-and-unclosed cell exists.
proof fn lemma_valid_path_reaches_frontier(m: Seq<Vec<char>>,
    st: Seq<Vec<SearchCell>>, open: Seq<PathNode>, start: GridPos, goal: GridPos,
    p: Seq<GridPos>, i: int)
    requires
        reach_inv(m, st, open),
        valid_path(m, start, goal, p),
        p.len() > 0,
        !st_at(st, goal.x as int, goal.y as int).closed,
        0 <= i <= p.len(),
        seen_at(st, path_step_src(start, p, i).x as int,
            path_step_src(start, p, i).y as int)
            || (i == p.len() && seen_at(st, goal.x as int, goal.y as int)),
    ensures
        exists|x: int, y: int| #[trigger] seen_at(st, x, y) && !st_at(st, x, y).closed,
    decreases p.len() - i,
{
    let c = if i == p.len() { p[i - 1] } else { path_step_src(start, p, i) };
    let cx = c.x as int;
    let cy = c.y as int;
    if i == p.len() {
        // The chain has reached the goal, which is never closed.
        assert(c == goal);
        assert(seen_at(st, cx, cy));
        assert(seen_at(st, cx, cy) && !st_at(st, cx, cy).closed);
    } else {
        assert(seen_at(st, cx, cy));
        if !st_at(st, cx, cy).closed {
            assert(seen_at(st, cx, cy) && !st_at(st, cx, cy).closed);
        } else {
            // A closed cell's walkable, adjacent successor is seen.
            let n = p[i];
            assert(adjacent(path_step_src(start, p, i), n));
            assert(walkable_at(m, n.x as int, n.y as int));
            assert(adj_cells(cx, cy, n.x as int, n.y as int));
            assert(seen_at(st, n.x as int, n.y as int));
            lemma_valid_path_reaches_frontier(m, st, open, start, goal, p, i + 1);
        }
    }
}


/// Removing one queued node keeps every other frontier cell covered by the
/// open set, and keeps the cost bounds.
proof fn lemma_reach_after_pop(m: Seq<Vec<char>>, st: Seq<Vec<SearchCell>>,
    open1: Seq<PathNode>, k: int)
    requires
        reach_inv(m, st, open1),
        0 <= k < open1.len(),
    ensures
        forall|x: int, y: int| #[trigger] seen_at(st, x, y) && !st_at(st, x, y).closed
            && !(x == open1[k].pos.x && y == open1[k].pos.y)
            ==> exists|j: int| 0 <= j < open1.remove(k).len()
                && (#[trigger] open1.remove(k)[j]).pos.x == x
                && open1.remove(k)[j].pos.y == y,
        forall|j: int| 0 <= j < open1.remove(k).len()
            ==> (#[trigger] open1.remove(k)[j]).g_cost
                <= 14 * grid_seen_count(st, st.len() as int),
{
    let open2 = open1.remove(k);
    assert forall|x: int, y: int| #[trigger] seen_at(st, x, y)
        && !st_at(st, x, y).closed
        && !(x == open1[k].pos.x && y == open1[k].pos.y)
        implies exists|j: int| 0 <= j < open2.len()
            && (#[trigger] open2[j]).pos.x == x && open2[j].pos.y == y by {
        let j0 = choose|j0: int| 0 <= j0 < open1.len()
            && (#[trigger] open1[j0]).pos.x == x && open1[j0].pos.y == y;
        assert(j0 != k);
        if j0 < k {
            assert(open2[j0] == open1[j0]);
        } else {
            assert(open2[j0 - 1] == open1[j0]);
        }
    }
    assert forall|j: int| 0 <= j < open2.len()
        implies (#[trigger] open2[j]).g_cost
            <= 14 * grid_seen_count(st, st.len() as int) by {
        if j < k {
            assert(open2[j] == open1[j]);
        } else {
            assert(open2[j] == open1[j + 1]);
        }
    }
}

/// The search-state invariant. Every seen cell is walkable with a
/// non-negative cost; every seen cell other than the start was reached from
/// a seen, closed, adjacent parent of strictly smaller cost (so parent
/// chains are acyclic and end at the start, which alone has no parent).
/// Opaque: its quantified clauses would otherwise let the solver chase
/// parent chains without bound; the lemmas below expose what callers need.
#[verifier::opaque]
spec fn search_inv(m: Seq<Vec<char>>, st: Seq<Vec<SearchCell>>, start: GridPos) -> bool {
    &&& shape_ok(m, st)
    &&& seen_at(st, start.x as int, start.y as int)
    &&& st_at(st, start.x as int, start.y as int).g == 0
    &&& st_at(st, start.x as int, start.y as int).parent is None
    &&& forall|x: int, y: int| #[trigger] seen_at(st, x, y)
        ==> walkable_at(m, x, y) && 0 <= st_at(st, x, y).g
    &&& forall|x: int, y: int| #[trigger] seen_at(st, x, y)
        && !(x == start.x && y == start.y) ==> {
            let c = st_at(st, x, y);
            &&& c.parent is Some
            &&& seen_at(st, c.parent.unwrap().x as int, c.parent.unwrap().y as int)
            &&& st_at(st, c.parent.unwrap().x as int, c.parent.unwrap().y as int).closed
            &&& adjacent(c.parent.unwrap(), GridPos { x: x as i32, y: y as i32 })
            &&& st_at(st, c.parent.unwrap().x as int, c.parent.unwrap().y as int).g < c.g
        }
    &&& forall|x: int, y: int| st_in(st, x, y) && (#[trigger] st_at(st, x, y)).closed
        ==> seen_at(st, x, y)
}

/// Every queued node refers to a seen cell and carries a cost no smaller
/// than the cell's recorded cost (costs only improve after queueing).
spec fn open_inv(st: Seq<Vec<SearchCell>>, open: Seq<PathNode>) -> bool {
    forall|k: int| 0 <= k < open.len() ==> {
        let n = #[trigger] open[k];
        &&& seen_at(st, n.pos.x as int, n.pos.y as int)
        &&& n.g_cost >= st_at(st, n.pos.x as int, n.pos.y as int).g
    }
}

/// A fresh search grid with only the start cell recorded satisfies the
/// search invariant.
proof fn lemma_inv_init(m: Seq<Vec<char>>, st: Seq<Vec<SearchCell>>, start: GridPos)
    requires
        shape_ok(m, st),
        walkable_at(m, start.x as int, start.y as int),
        seen_at(st, start.x as int, start.y as int),
        st_at(st, start.x as int, start.y as int).g == 0,
        st_at(st, start.x as int, start.y as int).parent is None,
        forall|x: int, y: int| st_in(st, x, y) && !(x == start.x && y == start.y)
            ==> !(#[trigger] st_at(st, x, y)).seen && !st_at(st, x, y).closed,
        !st_at(st, start.x as int, start.y as int).closed,
    ensures
        search_inv(m, st, start),
{
    reveal(search_inv);
    assert forall|x: int, y: int| #[trigger] seen_at(st, x, y)
        implies x == start.x && y == start.y by {
        if !(x == start.x && y == start.y) {
            assert(!st_at(st, x, y).seen);
        }
    }
}

/// What the search invariant says of one seen cell.
proof fn lemma_seen_cell(m: Seq<Vec<char>>, st: Seq<Vec<SearchCell>>, start: GridPos,
    x: int, y: int)
    requires
        search_inv(m, st, start),
        seen_at(st, x, y),
    ensures
        walkable_at(m, x, y),
        0 <= st_at(st, x, y).g,
        st_at(st, x, y).parent is None ==> x == start.x && y == start.y,
        x == start.x && y == start.y
            ==> st_at(st, x, y).g == 0 && st_at(st, x, y).parent is None,
        !(x == start.x && y == start.y) ==> {
            let c = st_at(st, x, y);
            &&& c.parent is Some
            &&& seen_at(st, c.parent.unwrap().x as int, c.parent.unwrap().y as int)
            &&& st_at(st, c.parent.unwrap().x as int, c.parent.unwrap().y as int).closed
            &&& adjacent(c.parent.unwrap(), GridPos { x: x as i32, y: y as i32 })
            &&& st_at(st, c.parent.unwrap().x as int, c.parent.unwrap().y as int).g
                < c.g
        },
{
    reveal(search_inv);
}

/// A closed cell is seen: the search closes only cells it has recorded.
proof fn lemma_closed_is_seen(m: Seq<Vec<char>>, st: Seq<Vec<SearchCell>>,
    start: GridPos, x: int, y: int)
    requires
        search_inv(m, st, start),
        st_in(st, x, y),
        st_at(st, x, y).closed,
    ensures
        seen_at(st, x, y),
{
    reveal(search_inv);
}

/// The search invariant fixes the grid's shape.
proof fn lemma_inv_shape(m: Seq<Vec<char>>, st: Seq<Vec<SearchCell>>, start: GridPos)
    requires
        search_inv(m, st, start),
    ensures
        shape_ok(m, st),
        seen_at(st, start.x as int, start.y as int),
{
    reveal(search_inv);
}

/// Closing a not-yet-closed, seen cell preserves the search invariant:
/// no recorded parent can point at it (parents are closed), and its own
/// cost and parent are untouched.
proof fn lemma_inv_after_close(m: Seq<Vec<char>>, st1: Seq<Vec<SearchCell>>,
    st2: Seq<Vec<SearchCell>>, start: GridPos, x: int, y: int)
    requires
        search_inv(m, st1, start),
        seen_at(st1, x, y),
        !st_at(st1, x, y).closed,
        st2.len() == st1.len(),
        forall|j: int| 0 <= j < st1.len() && j != y ==> st1[j] == #[trigger] st2[j],
        st2[y]@ == st1[y]@.update(x, SearchCell {
            g: st_at(st1, x, y).g,
            parent: st_at(st1, x, y).parent,
            seen: true,
            closed: true,
        }),
    ensures
        search_inv(m, st2, start),
        shape_ok(m, st2),
        forall|a: int, b: int| st_in(st1, a, b) && !(a == x && b == y)
            ==> st_at(st2, a, b) == #[trigger] st_at(st1, a, b),
        forall|a: int, b: int| #[trigger] seen_at(st2, a, b) <==> seen_at(st1, a, b),
        forall|a: int, b: int| st_in(st1, a, b)
            ==> #[trigger] st_at(st2, a, b).g == st_at(st1, a, b).g,
{
    reveal(search_inv);
    assert forall|a: int, b: int| st_in(st1, a, b) && !(a == x && b == y)
        implies st_at(st2, a, b) == #[trigger] st_at(st1, a, b) by {
        if b == y {
            assert(st2[b]@[a] == st1[b]@[a]);
        } else {
            assert(st2[b] == st1[b]);
        }
    }
    assert(st_at(st2, x, y).g == st_at(st1, x, y).g);
    assert(st_at(st2, x, y).parent == st_at(st1, x, y).parent);
    assert(st_at(st2, x, y).seen);
    assert(shape_ok(m, st2)) by {
        assert forall|j: int| 0 <= j < st2.len()
            implies #[trigger] st2[j]@.len() == m[j]@.len() && st2[j]@.len() <= 0x10000 by {
            if j != y {
                assert(st2[j] == st1[j]);
            }
            assert(st1[j]@.len() == m[j]@.len());
        }
    }
    assert forall|a: int, b: int| #[trigger] seen_at(st2, a, b)
        implies seen_at(st1, a, b) by {
        if !(a == x && b == y) {
            assert(st_at(st2, a, b) == st_at(st1, a, b));
        }
    }
    assert forall|a: int, b: int| #[trigger] seen_at(st2, a, b)
        implies walkable_at(m, a, b) && 0 <= st_at(st2, a, b).g by {
        assert(seen_at(st1, a, b));
        if !(a == x && b == y) {
            assert(st_at(st2, a, b) == st_at(st1, a, b));
        }
    }
    assert forall|a: int, b: int| st_in(st2, a, b) && (#[trigger] st_at(st2, a, b)).closed
        implies seen_at(st2, a, b) by {
        if !(a == x && b == y) {
            assert(st_at(st2, a, b) == st_at(st1, a, b));
        }
    }
    assert forall|a: int, b: int| #[trigger] seen_at(st2, a, b)
        && !(a == start.x && b == start.y) implies {
        let c = st_at(st2, a, b);
        &&& c.parent is Some
        &&& seen_at(st2, c.parent.unwrap().x as int, c.parent.unwrap().y as int)
        &&& st_at(st2, c.parent.unwrap().x as int, c.parent.unwrap().y as int).closed
        &&& adjacent(c.parent.unwrap(), GridPos { x: a as i32, y: b as i32 })
        &&& st_at(st2, c.parent.unwrap().x as int, c.parent.unwrap().y as int).g < c.g
    } by {
        assert(seen_at(st1, a, b));
        let c1 = st_at(st1, a, b);
        let p = c1.parent.unwrap();
        // In st1 every recorded parent is closed, so p is not the cell
        // being closed here; its entry is unchanged.
        assert(st_at(st1, p.x as int, p.y as int).closed);
        assert(!(p.x as int == x && p.y as int == y));
        assert(st_at(st2, p.x as int, p.y as int) == st_at(st1, p.x as int, p.y as int));
        if a == x && b == y {
            assert(st_at(st2, a, b).parent == c1.parent);
            assert(st_at(st2, a, b).g == c1.g);
        } else {
            assert(st_at(st2, a, b) == c1);
        }
        assert(seen_at(st2, p.x as int, p.y as int));
    }
}

/// Recording a better route to an unclosed cell `n` preserves the search
/// invariant, provided the new parent is a seen, closed, adjacent cell of
/// strictly smaller cost.
#[verifier::rlimit(100)]
#[verifier::spinoff_prover]
proof fn lemma_inv_after_relax(m: Seq<Vec<char>>, st1: Seq<Vec<SearchCell>>,
    st2: Seq<Vec<SearchCell>>, start: GridPos, n: GridPos, par: GridPos, g_new: i32)
    requires
        search_inv(m, st1, start),
        st_in(st1, n.x as int, n.y as int),
        walkable_at(m, n.x as int, n.y as int),
        !st_at(st1, n.x as int, n.y as int).closed,
        st_at(st1, n.x as int, n.y as int).seen
            ==> g_new < st_at(st1, n.x as int, n.y as int).g,
        seen_at(st1, par.x as int, par.y as int),
        st_at(st1, par.x as int, par.y as int).closed,
        adjacent(par, n),
        st_at(st1, par.x as int, par.y as int).g < g_new,
        st2.len() == st1.len(),
        forall|j: int| 0 <= j < st1.len() && j != n.y ==> st1[j] == #[trigger] st2[j],
        st2[n.y as int]@ == st1[n.y as int]@.update(n.x as int, SearchCell {
            g: g_new,
            parent: Some(par),
            seen: true,
            closed: false,
        }),
    ensures
        search_inv(m, st2, start),
        shape_ok(m, st2),
        n != start,
        forall|a: int, b: int| st_in(st1, a, b) && !(a == n.x && b == n.y)
            ==> st_at(st2, a, b) == #[trigger] st_at(st1, a, b),
        st_at(st2, n.x as int, n.y as int).g == g_new,
        seen_at(st2, n.x as int, n.y as int),
        forall|a: int, b: int| seen_at(st1, a, b) ==> #[trigger] seen_at(st2, a, b),
        grid_closed_count(st2, st2.len() as int)
            == grid_closed_count(st1, st1.len() as int),
        grid_cells(st2, st2.len() as int) == grid_cells(st1, st1.len() as int),
{
    reveal(search_inv);
    assert forall|a: int, b: int| st_in(st1, a, b) && !(a == n.x && b == n.y)
        implies st_at(st2, a, b) == #[trigger] st_at(st1, a, b) by {
        if b == n.y {
            assert(st2[b]@[a] == st1[b]@[a]);
        } else {
            assert(st2[b] == st1[b]);
        }
    }
    assert(shape_ok(m, st2)) by {
        assert forall|j: int| 0 <= j < st2.len()
            implies #[trigger] st2[j]@.len() == m[j]@.len() && st2[j]@.len() <= 0x10000 by {
            if j != n.y {
                assert(st2[j] == st1[j]);
            }
            assert(st1[j]@.len() == m[j]@.len());
        }
    }
    // The start cell keeps cost 0 and no parent, so `n`, whose new cost
    // exceeds its parent's non-negative cost, cannot be the start.
    assert(0 <= st_at(st1, par.x as int, par.y as int).g);
    if n == start {
        assert(seen_at(st1, n.x as int, n.y as int));
        assert(st_at(st1, n.x as int, n.y as int).g == 0);
        assert(false);
    }
    assert(st_at(st2, n.x as int, n.y as int).g == g_new);
    assert(seen_at(st2, n.x as int, n.y as int));
    assert(!(start.x as int == n.x && start.y as int == n.y));
    assert(st_at(st2, start.x as int, start.y as int)
        == st_at(st1, start.x as int, start.y as int));
    assert(seen_at(st2, start.x as int, start.y as int));
    assert forall|a: int, b: int| seen_at(st1, a, b)
        implies #[trigger] seen_at(st2, a, b) by {
        if !(a == n.x && b == n.y) {
            assert(st_at(st2, a, b) == st_at(st1, a, b));
        }
    }
    assert forall|a: int, b: int| #[trigger] seen_at(st2, a, b)
        implies walkable_at(m, a, b) && 0 <= st_at(st2, a, b).g by {
        if !(a == n.x && b == n.y) {
            assert(st_at(st2, a, b) == st_at(st1, a, b));
            assert(seen_at(st1, a, b));
        }
    }
    assert forall|a: int, b: int| #[trigger] seen_at(st2, a, b)
        && !(a == start.x && b == start.y) implies {
        let c = st_at(st2, a, b);
        &&& c.parent is Some
        &&& seen_at(st2, c.parent.unwrap().x as int, c.parent.unwrap().y as int)
        &&& st_at(st2, c.parent.unwrap().x as int, c.parent.unwrap().y as int).closed
        &&& adjacent(c.parent.unwrap(), GridPos { x: a as i32, y: b as i32 })
        &&& st_at(st2, c.parent.unwrap().x as int, c.parent.unwrap().y as int).g < c.g
    } by {
        if a == n.x && b == n.y {
            assert(st_at(st2, a, b).parent == Some(par));
            assert(!(par.x as int == n.x && par.y as int == n.y));
            assert(st_at(st2, par.x as int, par.y as int) == st_at(st1, par.x as int,
                par.y as int));
            assert(seen_at(st2, par.x as int, par.y as int));
            assert(GridPos { x: a as i32, y: b as i32 } == n);
        } else {
            assert(seen_at(st1, a, b));
            let c1 = st_at(st1, a, b);
            let p = c1.parent.unwrap();
            // Every parent recorded in st1 is closed, and `n` is not, so
            // this cell's parent entry is untouched.
            assert(st_at(st1, p.x as int, p.y as int).closed);
            assert(!(p.x as int == n.x && p.y as int == n.y));
            assert(st_at(st2, p.x as int, p.y as int)
                == st_at(st1, p.x as int, p.y as int));
            assert(seen_at(st2, p.x as int, p.y as int));
            assert(st_at(st2, a, b) == c1);
        }
    }
    assert forall|a: int, b: int| st_in(st2, a, b) && (#[trigger] st_at(st2, a, b)).closed
        implies seen_at(st2, a, b) by {
        if !(a == n.x && b == n.y) {
            assert(st_at(st2, a, b) == st_at(st1, a, b));
        }
    }
    lemma_grid_closed_update(st1, st2, n.x as int, n.y as int, st1.len() as int);
}

fn get_cell(st: &Vec<Vec<SearchCell>>, x: usize, y: usize) -> (c: SearchCell)
    requires
        y < st@.len(),
        x < st@[y as int]@.len(),
    ensures
        c == st_at(st@, x as int, y as int),
{
    st[y][x]
}

fn put_cell(st: &mut Vec<Vec<SearchCell>>, x: usize, y: usize, c: SearchCell)
    requires
        y < old(st)@.len(),
        x < old(st)@[y as int]@.len(),
    ensures
        final(st)@.len() == old(st)@.len(),
        forall|j: int| 0 <= j < old(st)@.len() && j != y
            ==> old(st)@[j] == #[trigger] final(st)@[j],
        final(st)@[y as int]@ == old(st)@[y as int]@.update(x as int, c),
{
    let row = &mut st[y];
    row.set(x, c);
}

/// Node `a` takes priority over node `b` in the open set: lower f = g + h,
/// ties broken toward the larger heuristic (the tie-break is deliberate and
/// fixes the path shape on equal costs).
pub open spec fn better_node(a: PathNode, b: PathNode) -> bool {
    ||| a.g_cost + a.h_cost < b.g_cost + b.h_cost
    ||| (a.g_cost + a.h_cost == b.g_cost + b.h_cost && a.h_cost > b.h_cost)
}

/// The index of the best node among the first `upto` queued nodes; on full
/// ties the earliest-queued node wins.
pub open spec fn best_node_index(open: Seq<PathNode>, upto: int) -> int
    decreases upto,
{
    if upto <= 1 {
        0
    } else {
        let b = best_node_index(open, upto - 1);
        if better_node(open[upto - 1], open[b]) { upto - 1 } else { b }
    }
}

proof fn lemma_best_node_index_in_range(open: Seq<PathNode>, upto: int)
    requires
        1 <= upto,
    ensures
        0 <= best_node_index(open, upto) < upto,
    decreases upto,
{
    if upto > 1 {
        lemma_best_node_index_in_range(open, upto - 1);
    }
}

/// Remove and return the best node of the open set.
fn pop_best(open: &mut Vec<PathNode>) -> (r: PathNode)
    requires
        old(open)@.len() > 0,
    ensures
        final(open)@.len() == old(open)@.len() - 1,
        0 <= best_node_index(old(open)@, old(open)@.len() as int) < old(open)@.len(),
        r == old(open)@[best_node_index(old(open)@, old(open)@.len() as int)],
        final(open)@ == old(open)@.remove(best_node_index(old(open)@,
            old(open)@.len() as int)),
        exists|k: int| 0 <= k < old(open)@.len() && r == old(open)@[k]
            && final(open)@ == old(open)@.remove(k),
{
    let mut best: usize = 0;
    let mut i: usize = 1;
    while i < open.len()
        invariant
            open@ == old(open)@,
            open@.len() > 0,
            best < open@.len(),
            1 <= i <= open@.len(),
            best as int == best_node_index(open@, i as int),
        decreases open@.len() - i,
    {
        let fi: i64 = open[i].g_cost as i64 + open[i].h_cost as i64;
        let fb: i64 = open[best].g_cost as i64 + open[best].h_cost as i64;
        if fi < fb || (fi == fb && open[i].h_cost > open[best].h_cost) {
            best = i;
        }
        i = i + 1;
    }
    proof {
        lemma_best_node_index_in_range(open@, open@.len() as int);
    }
    let r = open.remove(best);
    proof {
        assert(r == old(open)@[best as int] && final(open)@ == old(open)@.remove(best as int));
    }
    r
}

impl TaylorAI {
    /// A* search from `start` to `goal`. Returns the cells of a path in
    /// order, excluding `start` and ending with `goal`, or an empty vector
    /// when `start` or `goal` is unwalkable or no path was found.
    #[verifier::rlimit(60)]
    pub fn find_path_astar(&self, start: GridPos, goal: GridPos, maze: &Maze)
        -> (path: Vec<GridPos>)
        requires
            maze@.len() <= 0x1000,
            forall|j: int| 0 <= j < maze@.len() ==> #[trigger] maze@[j]@.len() <= 0x1000,
        ensures
            valid_path(maze@, start, goal, path@),
            !walkable_at(maze@, start.x as int, start.y as int) ==> path@.len() == 0,
            !walkable_at(maze@, goal.x as int, goal.y as int) ==> path@.len() == 0,
            // No cell repeats: parent links carry strictly increasing costs.
            forall|i: int, j: int| 0 <= i < j < path@.len()
                ==> path@[i] != path@[j],
            // Completeness: whenever the start is walkable and any valid
            // path exists, one is returned.
            (walkable_at(maze@, start.x as int, start.y as int)
                && exists|p: Seq<GridPos>| valid_path(maze@, start, goal, p)
                    && p.len() > 0)
                ==> path@.len() > 0,
    {
        if !self.is_walkable(&start, maze) || !self.is_walkable(&goal, maze) {
            return Vec::new();
        }

        // A search grid of the maze's shape, all cells fresh.
        let mut st: Vec<Vec<SearchCell>> = Vec::new();
        let mut j: usize = 0;
        while j < maze.len()
            invariant
                j <= maze@.len(),
                maze@.len() <= 0x1000,
                forall|t: int| 0 <= t < maze@.len() ==> #[trigger] maze@[t]@.len() <= 0x1000,
                st@.len() == j,
                forall|t: int| 0 <= t < j
                    ==> #[trigger] st@[t]@.len() == maze@[t]@.len(),
                forall|t: int, i: int| 0 <= t < j && 0 <= i < st@[t]@.len()
                    ==> !(#[trigger] st@[t]@[i]).seen && !st@[t]@[i].closed,
            decreases maze@.len() - j,
        {
            let row_len = maze[j].len();
            let mut fresh: Vec<SearchCell> = Vec::new();
            let mut i: usize = 0;
            while i < row_len
                invariant
                    i <= row_len,
                    fresh@.len() == i,
                    forall|k: int| 0 <= k < i
                        ==> !(#[trigger] fresh@[k]).seen && !fresh@[k].closed,
                decreases row_len - i,
            {
                fresh.push(SearchCell { g: 0, parent: None, seen: false, closed: false });
                i = i + 1;
            }
            st.push(fresh);
            j = j + 1;
        }

        // Record the start cell and queue it.
        let ghost st0 = st@;
        let sx = start.x as usize;
        let sy = start.y as usize;
        put_cell(&mut st, sx, sy, SearchCell { g: 0, parent: None, seen: true, closed: false });
        let h0 = start.manhattan_distance(&goal);
        let mut open: Vec<PathNode> = Vec::new();
        open.push(PathNode { pos: start, g_cost: 0, h_cost: h0, parent: None });

        proof {
            assert(shape_ok(maze@, st@)) by {
                assert forall|t: int| 0 <= t < st@.len()
                    implies #[trigger] st@[t]@.len() == maze@[t]@.len()
                        && st@[t]@.len() <= 0x1000 by {
                    if t != start.y as int {
                        assert(st@[t] == st0[t]);
                    }
                    assert(st0[t]@.len() == maze@[t]@.len());
                }
            }
            assert(seen_at(st@, start.x as int, start.y as int));
            assert forall|x: int, y: int| st_in(st@, x, y)
                && !(x == start.x && y == start.y)
                implies !(#[trigger] st_at(st@, x, y)).seen && !st_at(st@, x, y).closed by {
                if y == start.y as int {
                    assert(st@[y]@[x] == st0[y]@[x]);
                } else {
                    assert(st@[y] == st0[y]);
                }
                assert(!st0[y]@[x].seen && !st0[y]@[x].closed);
            }
            lemma_inv_init(maze@, st@, start);
            // Exactly the start cell is seen, so the seen count is one.
            assert forall|jj: int, kk: int| 0 <= jj < st0.len() && 0 <= kk < st0[jj]@.len()
                implies !(#[trigger] st0[jj]@[kk]).seen by {}
            lemma_grid_seen_zero(st0, st0.len() as int);
            lemma_grid_seen_update(st0, st@, start.x as int, start.y as int,
                st0.len() as int);
            assert(grid_seen_count(st@, st@.len() as int) == 1);
            assert forall|x: int, y: int| #[trigger] seen_at(st@, x, y)
                && !st_at(st@, x, y).closed
                implies exists|k: int| 0 <= k < open@.len()
                    && (#[trigger] open@[k]).pos.x == x && open@[k].pos.y == y by {
                assert(x == start.x && y == start.y);
                assert((open@[0]).pos.x == x && open@[0].pos.y == y);
            }
            assert forall|cx: int, cy: int, nx: int, ny: int|
                st_in(st@, cx, cy) && (#[trigger] st_at(st@, cx, cy)).closed
                    && #[trigger] walkable_at(maze@, nx, ny)
                    && adj_cells(cx, cy, nx, ny)
                implies seen_at(st@, nx, ny) by {
                assert(!st_at(st@, cx, cy).closed);
            }
            assert forall|x: int, y: int| #[trigger] seen_at(st@, x, y)
                implies st_at(st@, x, y).g
                    <= 14 * grid_seen_count(st@, st@.len() as int) by {
                assert(x == start.x && y == start.y);
            }
            assert(reach_inv(maze@, st@, open@));
        }

        while open.len() > 0
            invariant
                maze@.len() <= 0x1000,
                forall|t: int| 0 <= t < maze@.len() ==> #[trigger] maze@[t]@.len() <= 0x1000,
                walkable_at(maze@, start.x as int, start.y as int),
                walkable_at(maze@, goal.x as int, goal.y as int),
                st@.len() == maze@.len(),
                forall|t: int| 0 <= t < st@.len()
                    ==> #[trigger] st@[t]@.len() == maze@[t]@.len(),
                search_inv(maze@, st@, start),
                open_inv(st@, open@),
                reach_inv(maze@, st@, open@),
                !st_at(st@, goal.x as int, goal.y as int).closed,
            decreases
                grid_cells(st@, st@.len() as int) - grid_closed_count(st@, st@.len() as int),
                open@.len(),
        {
            let ghost open_pre = open@;
            let current = pop_best(&mut open);
            let cpos = current.pos;
            proof {
                assert(seen_at(st@, cpos.x as int, cpos.y as int));
                lemma_reach_after_pop(maze@, st@, open_pre,
                    best_node_index(open_pre, open_pre.len() as int));
            }

            if cpos.x == goal.x && cpos.y == goal.y {
                let found = self.reconstruct_path(&st, cpos, maze, Ghost(start));
                proof {
                    // A non-empty valid path forces the goal off the start
                    // cell, and then the reconstruction is non-empty.
                    if exists|p: Seq<GridPos>| valid_path(maze@, start, goal, p)
                        && p.len() > 0 {
                        let p = choose|p: Seq<GridPos>| valid_path(maze@, start, goal,
                            p) && p.len() > 0;
                        assert(p[p.len() - 1] == goal && p[p.len() - 1] != start);
                        assert(cpos != start);
                    }
                }
                return found;
            }

            let cx = cpos.x as usize;
            let cy = cpos.y as usize;
            let cc = get_cell(&st, cx, cy);
            if cc.closed {
                // The closed set prevents reprocessing a cell: a stale
                // queued duplicate is dropped, and since a closed cell is
                // not on the frontier, the frontier stays covered.
                proof {
                    assert forall|x: int, y: int| #[trigger] seen_at(st@, x, y)
                        && !st_at(st@, x, y).closed
                        implies exists|k: int| 0 <= k < open@.len()
                            && (#[trigger] open@[k]).pos.x == x
                            && open@[k].pos.y == y by {
                        assert(!(x == cpos.x && y == cpos.y));
                    }
                    assert(reach_inv(maze@, st@, open@));
                }
                continue;
            }

            let ghost st_before = st@;
            let ghost cells0 = grid_cells(st@, st@.len() as int);
            let ghost gcc0 = grid_closed_count(st@, st@.len() as int);
            let ghost gsc0 = grid_seen_count(st@, st@.len() as int);
            put_cell(&mut st, cx, cy,
                SearchCell { g: cc.g, parent: cc.parent, seen: true, closed: true });
            proof {
                assert(st@[cpos.y as int]@ == st_before[cpos.y as int]@.update(
                    cpos.x as int, SearchCell {
                        g: st_at(st_before, cpos.x as int, cpos.y as int).g,
                        parent: st_at(st_before, cpos.x as int, cpos.y as int).parent,
                        seen: true,
                        closed: true,
                    }));
                lemma_inv_after_close(maze@, st_before, st@, start, cpos.x as int,
                    cpos.y as int);
                lemma_grid_closed_update(st_before, st@, cpos.x as int, cpos.y as int,
                    st_before.len() as int);
                lemma_grid_seen_update(st_before, st@, cpos.x as int, cpos.y as int,
                    st_before.len() as int);
                lemma_grid_closed_le(st@, st@.len() as int);
                lemma_seen_cell(maze@, st@, start, cpos.x as int, cpos.y as int);
                assert(grid_closed_count(st@, st@.len() as int) == gcc0 + 1);
                assert(grid_cells(st@, st@.len() as int) == cells0);
                assert(grid_seen_count(st@, st@.len() as int) == gsc0);
                assert forall|k: int| 0 <= k < open@.len() implies {
                    let nd = #[trigger] open@[k];
                    &&& seen_at(st@, nd.pos.x as int, nd.pos.y as int)
                    &&& nd.g_cost >= st_at(st@, nd.pos.x as int, nd.pos.y as int).g
                } by {
                    let nd = open@[k];
                    assert(seen_at(st_before, nd.pos.x as int, nd.pos.y as int));
                    assert(st_at(st@, nd.pos.x as int, nd.pos.y as int).g
                        == st_at(st_before, nd.pos.x as int, nd.pos.y as int).g);
                }
                // The frontier lost exactly the cell being closed.
                assert forall|x: int, y: int| #[trigger] seen_at(st@, x, y)
                    && !st_at(st@, x, y).closed
                    implies exists|k: int| 0 <= k < open@.len()
                        && (#[trigger] open@[k]).pos.x == x && open@[k].pos.y == y by {
                    assert(!(x == cpos.x && y == cpos.y));
                    assert(seen_at(st_before, x, y));
                    assert(st_at(st@, x, y) == st_at(st_before, x, y));
                }
                // Cost bounds survive: costs and the seen count are unchanged.
                assert forall|x: int, y: int| #[trigger] seen_at(st@, x, y)
                    implies st_at(st@, x, y).g
                        <= 14 * grid_seen_count(st@, st@.len() as int) by {
                    assert(seen_at(st_before, x, y));
                    assert(st_at(st@, x, y).g == st_at(st_before, x, y).g);
                }
                // The popped node's cost is bounded like every queued cost.
                assert(current.g_cost <= 14 * gsc0);
                // Every other closed cell keeps its neighbor coverage: only
                // the cell being expanded is newly closed.
                assert forall|ccx: int, ccy: int, nx2: int, ny2: int|
                    st_in(st@, ccx, ccy) && (#[trigger] st_at(st@, ccx, ccy)).closed
                        && !(ccx == cpos.x && ccy == cpos.y)
                        && #[trigger] walkable_at(maze@, nx2, ny2)
                        && adj_cells(ccx, ccy, nx2, ny2)
                    implies seen_at(st@, nx2, ny2) by {
                    assert(st_at(st@, ccx, ccy) == st_at(st_before, ccx, ccy));
                    assert(seen_at(st_before, nx2, ny2));
                }
            }

            let neighbors = cpos.get_neighbors();
            let mut ni: usize = 0;
            while ni < 8
                invariant
                    maze@.len() <= 0x1000,
                    forall|t: int| 0 <= t < maze@.len()
                        ==> #[trigger] maze@[t]@.len() <= 0x1000,
                    walkable_at(maze@, start.x as int, start.y as int),
                    walkable_at(maze@, goal.x as int, goal.y as int),
                    st@.len() == maze@.len(),
                    forall|t: int| 0 <= t < st@.len()
                        ==> #[trigger] st@[t]@.len() == maze@[t]@.len(),
                    search_inv(maze@, st@, start),
                    open_inv(st@, open@),
                    neighbors@.len() == 8,
                    forall|t: int| 0 <= t < 8 ==> adjacent(cpos, #[trigger] neighbors@[t]),
                    forall|t: int| 0 <= t < 8
                        ==> pos_bounded_slack(#[trigger] neighbors@[t]),
                    neighbors@[0].x == cpos.x + 1 && neighbors@[0].y == cpos.y,
                    neighbors@[1].x == cpos.x - 1 && neighbors@[1].y == cpos.y,
                    neighbors@[2].x == cpos.x && neighbors@[2].y == cpos.y + 1,
                    neighbors@[3].x == cpos.x && neighbors@[3].y == cpos.y - 1,
                    neighbors@[4].x == cpos.x + 1 && neighbors@[4].y == cpos.y + 1,
                    neighbors@[5].x == cpos.x - 1 && neighbors@[5].y == cpos.y + 1,
                    neighbors@[6].x == cpos.x + 1 && neighbors@[6].y == cpos.y - 1,
                    neighbors@[7].x == cpos.x - 1 && neighbors@[7].y == cpos.y - 1,
                    ni <= 8,
                    seen_at(st@, cpos.x as int, cpos.y as int),
                    st_at(st@, cpos.x as int, cpos.y as int).closed,
                    st_at(st@, cpos.x as int, cpos.y as int).g <= current.g_cost,
                    0 <= st_at(st@, cpos.x as int, cpos.y as int).g,
                    grid_closed_count(st@, st@.len() as int) == gcc0 + 1,
                    grid_cells(st@, st@.len() as int) == cells0,
                    gsc0 <= grid_seen_count(st@, st@.len() as int),
                    0 <= gsc0,
                    current.g_cost <= 14 * gsc0,
                    !st_at(st@, goal.x as int, goal.y as int).closed,
                    // The frontier stays covered by the open set.
                    forall|x: int, y: int| #[trigger] seen_at(st@, x, y)
                        && !st_at(st@, x, y).closed
                        ==> exists|k: int| 0 <= k < open@.len()
                            && (#[trigger] open@[k]).pos.x == x
                            && open@[k].pos.y == y,
                    // Closed cells other than the one being expanded have
                    // all their walkable neighbors seen.
                    forall|ccx: int, ccy: int, nx: int, ny: int|
                        st_in(st@, ccx, ccy) && (#[trigger] st_at(st@, ccx, ccy)).closed
                            && !(ccx == cpos.x && ccy == cpos.y)
                            && #[trigger] walkable_at(maze@, nx, ny)
                            && adj_cells(ccx, ccy, nx, ny)
                        ==> seen_at(st@, nx, ny),
                    // Processed walkable neighbors of the expanded cell are
                    // seen already.
                    forall|t: int| 0 <= t < ni
                        && walkable_at(maze@, (#[trigger] neighbors@[t]).x as int,
                            neighbors@[t].y as int)
                        ==> seen_at(st@, neighbors@[t].x as int,
                            neighbors@[t].y as int),
                    // Costs stay bounded by the growing seen count.
                    forall|x: int, y: int| #[trigger] seen_at(st@, x, y)
                        ==> st_at(st@, x, y).g
                            <= 14 * grid_seen_count(st@, st@.len() as int),
                    forall|k: int| 0 <= k < open@.len()
                        ==> (#[trigger] open@[k]).g_cost
                            <= 14 * grid_seen_count(st@, st@.len() as int),
                decreases 8 - ni,
            {
                let n = neighbors[ni];
                if self.is_walkable(&n, maze) {
                    proof {
                        assert(st@[n.y as int]@.len() == maze@[n.y as int]@.len());
                        assert(st_in(st@, n.x as int, n.y as int));
                    }
                    let nx = n.x as usize;
                    let ny = n.y as usize;
                    let ncell = get_cell(&st, nx, ny);
                    if !ncell.closed {
                        let dx: i32 = if n.x >= cpos.x { n.x - cpos.x } else { cpos.x - n.x };
                        let dy: i32 = if n.y >= cpos.y { n.y - cpos.y } else { cpos.y - n.y };
                        let is_diag = dx == 1 && dy == 1;
                        let move_cost: i32 = if is_diag { 14 } else { 10 };
                        proof {
                            // The accumulated cost is bounded by the seen
                            // count and cannot overflow.
                            lemma_grid_seen_le(st@, st@.len() as int);
                            lemma_grid_cells_bound(st@, st@.len() as int);
                            assert(grid_cells(st@, st@.len() as int)
                                <= 0x1000 * 0x1000) by (nonlinear_arith)
                                requires
                                    grid_cells(st@, st@.len() as int)
                                        <= st@.len() * 0x1000,
                                    st@.len() <= 0x1000;
                            assert(current.g_cost + move_cost < 0x7fffffff);
                        }
                        let tentative: i32 = current.g_cost + move_cost;
                        if !(ncell.seen && tentative >= ncell.g) {
                            let ghost st_pre = st@;
                            let ghost open_pre2 = open@;
                            let ghost gsc_pre = grid_seen_count(st@, st@.len() as int);
                            let h = n.manhattan_distance(&goal);
                            put_cell(&mut st, nx, ny, SearchCell {
                                g: tentative,
                                parent: Some(cpos),
                                seen: true,
                                closed: false,
                            });
                            open.push(PathNode {
                                pos: n,
                                g_cost: tentative,
                                h_cost: h,
                                parent: Some(cpos),
                            });
                            proof {
                                assert(st@[n.y as int]@ == st_pre[n.y as int]@.update(
                                    n.x as int, SearchCell {
                                        g: tentative,
                                        parent: Some(cpos),
                                        seen: true,
                                        closed: false,
                                    }));
                                lemma_inv_after_relax(maze@, st_pre, st@, start, n,
                                    cpos, tentative);
                                lemma_grid_seen_update(st_pre, st@, n.x as int,
                                    n.y as int, st_pre.len() as int);
                                let gsc_now = grid_seen_count(st@, st@.len() as int);
                                assert(gsc_pre <= gsc_now);
                                assert(st_at(st@, cpos.x as int, cpos.y as int)
                                    == st_at(st_pre, cpos.x as int, cpos.y as int));
                                assert(tentative <= 14 * gsc_now) by {
                                    if st_at(st_pre, n.x as int, n.y as int).seen {
                                        assert(seen_at(st_pre, n.x as int, n.y as int));
                                        assert(st_at(st_pre, n.x as int, n.y as int).g
                                            <= 14 * gsc_pre);
                                        assert(tentative
                                            < st_at(st_pre, n.x as int, n.y as int).g);
                                    } else {
                                        assert(gsc_now == gsc_pre + 1);
                                        assert(current.g_cost <= 14 * gsc_pre);
                                    }
                                }
                                assert forall|k: int| 0 <= k < open@.len() implies {
                                    let nd = #[trigger] open@[k];
                                    &&& seen_at(st@, nd.pos.x as int, nd.pos.y as int)
                                    &&& nd.g_cost
                                        >= st_at(st@, nd.pos.x as int, nd.pos.y as int).g
                                    &&& nd.g_cost <= 14 * gsc_now
                                } by {
                                    if k < open_pre2.len() {
                                        let nd = open_pre2[k];
                                        assert(open@[k] == nd);
                                        assert(seen_at(st_pre, nd.pos.x as int,
                                            nd.pos.y as int));
                                        assert(nd.g_cost <= 14 * gsc_pre);
                                        if nd.pos.x as int == n.x && nd.pos.y as int == n.y {
                                            assert(st_at(st_pre, n.x as int,
                                                n.y as int).seen);
                                            assert(tentative
                                                < st_at(st_pre, n.x as int, n.y as int).g);
                                        } else {
                                            assert(st_at(st@, nd.pos.x as int,
                                                nd.pos.y as int)
                                                == st_at(st_pre, nd.pos.x as int,
                                                    nd.pos.y as int));
                                        }
                                    } else {
                                        assert(open@[k] == (PathNode {
                                            pos: n,
                                            g_cost: tentative,
                                            h_cost: h,
                                            parent: Some(cpos),
                                        }));
                                    }
                                }
                                // The frontier gained the relaxed cell, whose
                                // fresh node sits at the end of the queue.
                                assert forall|x: int, y: int| #[trigger] seen_at(st@, x, y)
                                    && !st_at(st@, x, y).closed
                                    implies exists|k: int| 0 <= k < open@.len()
                                        && (#[trigger] open@[k]).pos.x == x
                                        && open@[k].pos.y == y by {
                                    if x == n.x as int && y == n.y as int {
                                        assert((open@[open@.len() - 1]).pos.x == x
                                            && open@[open@.len() - 1].pos.y == y);
                                    } else {
                                        assert(st_at(st@, x, y) == st_at(st_pre, x, y));
                                        assert(seen_at(st_pre, x, y));
                                        let k0 = choose|k0: int| 0 <= k0 < open_pre2.len()
                                            && (#[trigger] open_pre2[k0]).pos.x == x
                                            && open_pre2[k0].pos.y == y;
                                        assert((open@[k0]).pos.x == x
                                            && open@[k0].pos.y == y);
                                    }
                                }
                                // Closed cells are untouched, and the seen
                                // set only grows.
                                assert forall|ccx: int, ccy: int, nnx: int, nny: int|
                                    st_in(st@, ccx, ccy)
                                        && (#[trigger] st_at(st@, ccx, ccy)).closed
                                        && !(ccx == cpos.x && ccy == cpos.y)
                                        && #[trigger] walkable_at(maze@, nnx, nny)
                                        && adj_cells(ccx, ccy, nnx, nny)
                                    implies seen_at(st@, nnx, nny) by {
                                    assert(!(ccx == n.x && ccy == n.y));
                                    assert(st_at(st@, ccx, ccy) == st_at(st_pre, ccx, ccy));
                                    assert(seen_at(st_pre, nnx, nny));
                                }
                                assert forall|t: int| 0 <= t < ni + 1
                                    && walkable_at(maze@, (#[trigger] neighbors@[t]).x as int,
                                        neighbors@[t].y as int)
                                    implies seen_at(st@, neighbors@[t].x as int,
                                        neighbors@[t].y as int) by {
                                    if t < ni {
                                        assert(seen_at(st_pre, neighbors@[t].x as int,
                                            neighbors@[t].y as int));
                                    } else {
                                        assert(seen_at(st@, n.x as int, n.y as int));
                                    }
                                }
                                assert forall|x: int, y: int| #[trigger] seen_at(st@, x, y)
                                    implies st_at(st@, x, y).g <= 14 * gsc_now by {
                                    if !(x == n.x as int && y == n.y as int) {
                                        assert(st_at(st@, x, y) == st_at(st_pre, x, y));
                                        assert(seen_at(st_pre, x, y));
                                        assert(st_at(st_pre, x, y).g <= 14 * gsc_pre);
                                    }
                                }
                            }
                        } else {
                            proof {
                                // The neighbor was already seen with a cost
                                // at least as good: it stays seen.
                                assert(seen_at(st@, n.x as int, n.y as int));
                            }
                        }
                    } else {
                        proof {
                            // A closed cell was seen when it was closed.
                            lemma_closed_is_seen(maze@, st@, start, n.x as int,
                                n.y as int);
                        }
                    }
                }
                ni = ni + 1;
            }
            proof {
                // With all eight neighbors processed, the freshly closed
                // cell satisfies the neighbor-coverage rule too: every cell
                // adjacent to it is one of the eight.
                assert forall|ccx: int, ccy: int, nnx: int, nny: int|
                    st_in(st@, ccx, ccy) && (#[trigger] st_at(st@, ccx, ccy)).closed
                        && #[trigger] walkable_at(maze@, nnx, nny)
                        && adj_cells(ccx, ccy, nnx, nny)
                    implies seen_at(st@, nnx, nny) by {
                    if ccx == cpos.x && ccy == cpos.y {
                        assert(-1 <= nnx - ccx <= 1 && -1 <= nny - ccy <= 1
                            && !(nnx == ccx && nny == ccy));
                        if nnx == ccx + 1 && nny == ccy {
                            assert(neighbors@[0].x == nnx && neighbors@[0].y == nny);
                        } else if nnx == ccx - 1 && nny == ccy {
                            assert(neighbors@[1].x == nnx && neighbors@[1].y == nny);
                        } else if nnx == ccx && nny == ccy + 1 {
                            assert(neighbors@[2].x == nnx && neighbors@[2].y == nny);
                        } else if nnx == ccx && nny == ccy - 1 {
                            assert(neighbors@[3].x == nnx && neighbors@[3].y == nny);
                        } else if nnx == ccx + 1 && nny == ccy + 1 {
                            assert(neighbors@[4].x == nnx && neighbors@[4].y == nny);
                        } else if nnx == ccx - 1 && nny == ccy + 1 {
                            assert(neighbors@[5].x == nnx && neighbors@[5].y == nny);
                        } else if nnx == ccx + 1 && nny == ccy - 1 {
                            assert(neighbors@[6].x == nnx && neighbors@[6].y == nny);
                        } else {
                            assert(nnx == ccx - 1 && nny == ccy - 1);
                            assert(neighbors@[7].x == nnx && neighbors@[7].y == nny);
                        }
                    }
                }
                assert(reach_inv(maze@, st@, open@));
            }
        }

        proof {
            // The open set is empty: if a non-empty valid path existed, its
            // first unclosed cell would still be on the frontier and hence
            // queued — a contradiction. So no such path exists.
            if exists|p: Seq<GridPos>| valid_path(maze@, start, goal, p)
                && p.len() > 0 {
                let p = choose|p: Seq<GridPos>| valid_path(maze@, start, goal, p)
                    && p.len() > 0;
                lemma_inv_shape(maze@, st@, start);
                lemma_valid_path_reaches_frontier(maze@, st@, open@, start, goal, p, 0);
                let (fx, fy) = choose|fx: int, fy: int| #[trigger] seen_at(st@, fx, fy)
                    && !st_at(st@, fx, fy).closed;
                assert(exists|k: int| 0 <= k < open@.len()
                    && (#[trigger] open@[k]).pos.x == fx && open@[k].pos.y == fy);
                assert(false);
            }
        }
        Vec::new()
    }

    /// Walk the parent links recorded by the search back from `current` to
    /// the start cell, then return the chain in forward order with the
    /// start cell dropped.
    #[verifier::rlimit(100)]
    fn reconstruct_path(&self, st: &Vec<Vec<SearchCell>>, current: GridPos, maze: &Maze,
        Ghost(start): Ghost<GridPos>) -> (path: Vec<GridPos>)
        requires
            search_inv(maze@, st@, start),
            seen_at(st@, current.x as int, current.y as int),
        ensures
            valid_path(maze@, start, current, path@),
            current != start ==> path@.len() > 0,
            forall|i: int, j: int| 0 <= i < j < path@.len()
                ==> path@[i] != path@[j],
    {
        let mut chain: Vec<GridPos> = Vec::new();
        chain.push(current);
        let mut cur = current;
        loop
            invariant_except_break
                search_inv(maze@, st@, start),
                chain@.len() >= 1,
                chain@[0] == current,
                chain@[chain@.len() - 1] == cur,
                forall|i: int| 0 <= i < chain@.len()
                    ==> seen_at(st@, (#[trigger] chain@[i]).x as int, chain@[i].y as int),
                forall|i: int| 0 <= i < chain@.len() - 1
                    ==> st_at(st@, (#[trigger] chain@[i]).x as int, chain@[i].y as int).parent
                        == Some(chain@[i + 1]),
                forall|i: int| 0 <= i < chain@.len() - 1
                    ==> st_at(st@, chain@[i + 1].x as int, chain@[i + 1].y as int).g
                        < st_at(st@, (#[trigger] chain@[i]).x as int,
                            chain@[i].y as int).g,
            ensures
                search_inv(maze@, st@, start),
                chain@.len() >= 1,
                chain@[0] == current,
                chain@[chain@.len() - 1] == cur,
                forall|i: int| 0 <= i < chain@.len()
                    ==> seen_at(st@, (#[trigger] chain@[i]).x as int, chain@[i].y as int),
                forall|i: int| 0 <= i < chain@.len() - 1
                    ==> st_at(st@, (#[trigger] chain@[i]).x as int, chain@[i].y as int).parent
                        == Some(chain@[i + 1]),
                forall|i: int| 0 <= i < chain@.len() - 1
                    ==> st_at(st@, chain@[i + 1].x as int, chain@[i + 1].y as int).g
                        < st_at(st@, (#[trigger] chain@[i]).x as int,
                            chain@[i].y as int).g,
                st_at(st@, cur.x as int, cur.y as int).parent is None,
            decreases st_at(st@, cur.x as int, cur.y as int).g,
        {
            proof {
                lemma_seen_cell(maze@, st@, start, cur.x as int, cur.y as int);
            }
            let c = get_cell(st, cur.x as usize, cur.y as usize);
            match c.parent {
                Some(p) => {
                    chain.push(p);
                    cur = p;
                    proof {
                        lemma_seen_cell(maze@, st@, start, cur.x as int, cur.y as int);
                    }
                }
                None => {
                    break;
                }
            }
        }
        proof {
            // A seen cell without a parent can only be the start cell.
            lemma_seen_cell(maze@, st@, start, cur.x as int, cur.y as int);
            assert(cur == start);
        }

        // Reverse the chain and drop its final element, the start cell.
        let n = chain.len();
        let mut path: Vec<GridPos> = Vec::new();
        let mut i: usize = n - 1;
        while i > 0
            invariant
                n == chain@.len(),
                n >= 1,
                i <= n - 1,
                path@.len() == n - 1 - i,
                forall|k: int| 0 <= k < path@.len()
                    ==> #[trigger] path@[k] == chain@[n - 2 - k],
            decreases i,
        {
            path.push(chain[i - 1]);
            i = i - 1;
        }

        proof {
            lemma_chain_to_path(maze@, st@, start, current, chain@, path@);
        }
        path
    }
}

/// Costs strictly decrease along a parent-link chain, so its cells are
/// pairwise distinct.
proof fn lemma_chain_desc(st: Seq<Vec<SearchCell>>, chain: Seq<GridPos>, i: int, j: int)
    requires
        forall|t: int| 0 <= t < chain.len() - 1
            ==> st_at(st, chain[t + 1].x as int, chain[t + 1].y as int).g
                < st_at(st, (#[trigger] chain[t]).x as int, chain[t].y as int).g,
        0 <= i <= j < chain.len(),
    ensures
        i < j ==> st_at(st, chain[j].x as int, chain[j].y as int).g
            < st_at(st, chain[i].x as int, chain[i].y as int).g,
    decreases j - i,
{
    if i < j {
        lemma_chain_desc(st, chain, i, j - 1);
        assert(st_at(st, chain[j].x as int, chain[j].y as int).g
            < st_at(st, chain[j - 1].x as int, chain[j - 1].y as int).g);
    }
}

/// A reversed parent-link chain, with the start cell dropped, is a valid
/// pursuit path.
#[verifier::rlimit(100)]
proof fn lemma_chain_to_path(m: Seq<Vec<char>>, st: Seq<Vec<SearchCell>>, start: GridPos,
    current: GridPos, chain: Seq<GridPos>, path: Seq<GridPos>)
    requires
        search_inv(m, st, start),
        chain.len() >= 1,
        chain[0] == current,
        chain[chain.len() - 1] == start,
        forall|i: int| 0 <= i < chain.len()
            ==> seen_at(st, (#[trigger] chain[i]).x as int, chain[i].y as int),
        forall|i: int| 0 <= i < chain.len() - 1
            ==> st_at(st, (#[trigger] chain[i]).x as int, chain[i].y as int).parent
                == Some(chain[i + 1]),
        forall|i: int| 0 <= i < chain.len() - 1
            ==> st_at(st, chain[i + 1].x as int, chain[i + 1].y as int).g
                < st_at(st, (#[trigger] chain[i]).x as int, chain[i].y as int).g,
        path.len() == chain.len() - 1,
        forall|k: int| 0 <= k < path.len()
            ==> #[trigger] path[k] == chain[chain.len() - 2 - k],
    ensures
        valid_path(m, start, current, path),
        forall|i: int, j: int| 0 <= i < j < path.len() ==> path[i] != path[j],
{
    assert forall|i: int, j: int| 0 <= i < j < path.len()
        implies path[i] != path[j] by {
        let n0 = chain.len() as int;
        lemma_chain_desc(st, chain, n0 - 2 - j, n0 - 2 - i);
        assert(path[i] == chain[n0 - 2 - i] && path[j] == chain[n0 - 2 - j]);
        if path[i] == path[j] {
            assert(st_at(st, chain[n0 - 2 - i].x as int, chain[n0 - 2 - i].y as int).g
                == st_at(st, chain[n0 - 2 - j].x as int, chain[n0 - 2 - j].y as int).g);
        }
    }
    let n = chain.len() as int;
    let pl = path.len() as int;
    if pl > 0 {
        assert(path[pl - 1] == chain[0]);
    }
    assert forall|k: int| 0 <= k < pl implies
        walkable_at(m, (#[trigger] path[k]).x as int, path[k].y as int)
        && adjacent(path_step_src(start, path, k), path[k])
        && path[k] != start by {
        let cell = chain[n - 2 - k];
        assert(path[k] == cell);
        assert(seen_at(st, cell.x as int, cell.y as int));
        lemma_seen_cell(m, st, start, cell.x as int, cell.y as int);
        // Its parent is the previous chain entry, which precedes it on the
        // path (or is the start cell for the first step).
        assert(st_at(st, cell.x as int, cell.y as int).parent
            == Some(chain[n - 1 - k]));
        // A cell with a recorded parent cannot be the start cell, whose
        // parent entry is empty.
        assert(cell != start);
        assert(adjacent(chain[n - 1 - k],
            GridPos { x: cell.x as i32, y: cell.y as i32 }));
        assert(GridPos { x: cell.x as i32, y: cell.y as i32 } == cell);
        if k == 0 {
            assert(chain[n - 1 - k] == start);
            assert(path_step_src(start, path, k) == start);
        } else {
            assert(path_step_src(start, path, k) == path[k - 1]);
            assert(path[k - 1] == chain[n - 1 - k]);
        }
    }
}


/// Squared distance between two world points, in squared fixed units.
pub open spec fn displacement_sq(a: Vec2, b: Vec2) -> int {
    (a.x - b.x) * (a.x - b.x) + (a.y - b.y) * (a.y - b.y)
}

/// Squared displacement below which the pursuer counts as not moving
/// (half a squared world unit).
pub const MOVE_EPS_SQ: i64 = 524288;

/// Stuck time beyond which a replan is forced: two seconds, fixed-point.
pub const STUCK_LIMIT: i64 = 2048;

/// The pursuer's collision radius: 15 world units, fixed-point.
pub const TAYLOR_RADIUS: i64 = 15360;

/// The stuck timer's value after one tick: it grows by twice the elapsed
/// time while the pursuer stands still and resets as soon as it moves.
pub open spec fn spec_stuck_timer_after(ai: TaylorAI, pos: Vec2, delta: int) -> int {
    if displacement_sq(pos, ai.last_position) < MOVE_EPS_SQ {
        ai.stuck_timer + 2 * delta
    } else {
        0
    }
}

/// A tick must replan when the replan interval has elapsed, the path is
/// empty, or the stuck timer has passed its limit.
pub open spec fn spec_replan_due(ai: TaylorAI, pos: Vec2, delta: int) -> bool {
    ||| ai.last_pathfind_time + delta >= ai.pathfind_frequency
    ||| ai.current_path@.len() == 0
    ||| spec_stuck_timer_after(ai, pos, delta) > STUCK_LIMIT
}

/// The pursuer fits at (x, y): the position itself and the four cardinal
/// offsets at its collision radius all land on walkable cells.
pub open spec fn spec_position_clear(m: Seq<Vec<char>>, x: int, y: int, block_size: int)
    -> bool
{
    &&& spec_point_walkable(m, x, y, block_size)
    &&& spec_point_walkable(m, x + TAYLOR_RADIUS, y, block_size)
    &&& spec_point_walkable(m, x - TAYLOR_RADIUS, y, block_size)
    &&& spec_point_walkable(m, x, y + TAYLOR_RADIUS, block_size)
    &&& spec_point_walkable(m, x, y - TAYLOR_RADIUS, block_size)
}

/// Movement per tick in fixed world units: speed times elapsed time times
/// the frame-rate constant.
pub open spec fn spec_move_dist(speed: int, delta: int) -> int {
    speed * delta * 60 / (FP_ONE as int)
}

/// The path found by a replan, if any, leads from the pursuer's cell to the
/// player's cell, or to a walkable substitute within the ring-search radius
/// of the player's cell.
pub open spec fn replan_path_ok(m: Seq<Vec<char>>, tgrid: GridPos, pgrid: GridPos,
    path: Seq<GridPos>) -> bool
{
    path.len() > 0 ==> exists|t: GridPos| valid_path(m, tgrid, t, path)
        && (t == pgrid
            || (t != pgrid && abs_i(t.x - pgrid.x) <= 5 && abs_i(t.y - pgrid.y) <= 5))
}

/// Cumulative cost of the first `i` steps of a path (g-value along the
/// reconstructed path).
pub open spec fn path_cost(start: GridPos, path: Seq<GridPos>, i: int) -> int
    decreases i,
{
    if i <= 0 {
        0
    } else {
        path_cost(start, path, i - 1) + step_cost(path_step_src(start, path, i - 1),
            path[i - 1])
    }
}

/// Along a valid path the cumulative g-values never decrease: every step
/// has positive cost.
pub proof fn lemma_path_cost_monotone(m: Seq<Vec<char>>, start: GridPos, goal: GridPos,
    path: Seq<GridPos>, i: int, j: int)
    requires
        valid_path(m, start, goal, path),
        0 <= i <= j <= path.len(),
    ensures
        path_cost(start, path, i) <= path_cost(start, path, j),
    decreases j - i,
{
    if i < j {
        lemma_path_cost_monotone(m, start, goal, path, i, j - 1);
    }
}

/// Stuck detection forces replanning: a pursuer whose displacement has
/// stayed below the movement threshold for longer than the stuck limit has
/// a replan due on the next tick, whatever the other triggers say.
pub proof fn lemma_stuck_forces_replan(ai: TaylorAI, pos: Vec2, delta: int)
    requires
        displacement_sq(pos, ai.last_position) < MOVE_EPS_SQ,
        ai.stuck_timer + 2 * delta > STUCK_LIMIT,
    ensures
        spec_replan_due(ai, pos, delta),
{
}


/// The four alternative displacements the controller tries when the direct
/// move is blocked: the two perpendiculars of the desired direction and two
/// diagonal blends, each at half the move distance. `dx`, `dy` point at the
/// target, `dist` is their Euclidean length, `mh` half the move distance.
pub open spec fn alt_vec(k: int, pos: Vec2, dx: int, dy: int, dist: int, mh: int) -> Vec2 {
    if k == 0 {
        Vec2 {
            x: (pos.x + spec_scale(dy, mh, dist)) as i64,
            y: (pos.y + spec_scale(-dx, mh, dist)) as i64,
        }
    } else if k == 1 {
        Vec2 {
            x: (pos.x + spec_scale(-dy, mh, dist)) as i64,
            y: (pos.y + spec_scale(dx, mh, dist)) as i64,
        }
    } else if k == 2 {
        Vec2 {
            x: (pos.x + spec_scale(spec_scale(dx + dy, 7, 10), mh, dist)) as i64,
            y: (pos.y + spec_scale(spec_scale(dy - dx, 7, 10), mh, dist)) as i64,
        }
    } else {
        Vec2 {
            x: (pos.x + spec_scale(spec_scale(dx - dy, 7, 10), mh, dist)) as i64,
            y: (pos.y + spec_scale(spec_scale(dy + dx, 7, 10), mh, dist)) as i64,
        }
    }
}

/// Alternative `k` lands on a clear position.
pub open spec fn alt_clear(m: Seq<Vec<char>>, k: int, pos: Vec2, dx: int, dy: int,
    dist: int, mh: int, block_size: int) -> bool
{
    let c = alt_vec(k, pos, dx, dy, dist, mh);
    spec_position_clear(m, c.x as int, c.y as int, block_size)
}

/// Where one path-follow step from `pos` toward `target` ends: the direct
/// move of length `mv` along the unit direction (Euclidean length `d`) when
/// it lands clear, else the first clear alternative at half distance, else
/// `pos` itself. Opaque so that the controller's contract stays a small
/// term; reveal it to unfold the rule.
#[verifier::opaque]
pub open spec fn spec_follow_move(m: Seq<Vec<char>>, pos: Vec2, target: Vec2,
    mv: int, d: int, block_size: int, fin: Vec2) -> bool
{
    let dx = target.x - pos.x;
    let dy = target.y - pos.y;
    let cand = Vec2 {
        x: (pos.x + spec_scale(dx, mv, d)) as i64,
        y: (pos.y + spec_scale(dy, mv, d)) as i64,
    };
    if spec_position_clear(m, cand.x as int, cand.y as int, block_size) {
        fin == cand
    } else {
        let mh = mv / 2;
        if alt_clear(m, 0, pos, dx, dy, d, mh, block_size) {
            fin == alt_vec(0, pos, dx, dy, d, mh)
        } else if alt_clear(m, 1, pos, dx, dy, d, mh, block_size) {
            fin == alt_vec(1, pos, dx, dy, d, mh)
        } else if alt_clear(m, 2, pos, dx, dy, d, mh, block_size) {
            fin == alt_vec(2, pos, dx, dy, d, mh)
        } else if alt_clear(m, 3, pos, dx, dy, d, mh, block_size) {
            fin == alt_vec(3, pos, dx, dy, d, mh)
        } else {
            fin == pos
        }
    }
}

/// Where one direct chase step from `pos` toward `target` ends: the move of
/// length `mv` along the unit direction when it lands clear, else `pos`.
/// Opaque, like [`spec_follow_move`].
#[verifier::opaque]
pub open spec fn spec_direct_move(m: Seq<Vec<char>>, pos: Vec2, target: Vec2,
    mv: int, d: int, block_size: int, fin: Vec2) -> bool
{
    let dx = target.x - pos.x;
    let dy = target.y - pos.y;
    let cand = Vec2 {
        x: (pos.x + spec_scale(dx, mv, d)) as i64,
        y: (pos.y + spec_scale(dy, mv, d)) as i64,
    };
    if spec_position_clear(m, cand.x as int, cand.y as int, block_size) {
        fin == cand
    } else {
        fin == pos
    }
}

impl TaylorAI {
    /// The pursuer fits at (x, y): the point itself plus four cardinal
    /// probes at the collision radius must all be walkable, so the pursuer
    /// cannot clip through wall corners.
    fn is_position_valid(&self, x: i64, y: i64, maze: &Maze, block_size: usize) -> (r: bool)
        requires
            0 < block_size <= 0x10000,
            -0x1fff0000 <= x <= 0x1fff0000,
            -0x1fff0000 <= y <= 0x1fff0000,
        ensures
            r == spec_position_clear(maze@, x as int, y as int, block_size as int),
    {
        if !is_valid_position(maze, x, y, block_size) {
            return false;
        }
        if !is_valid_position(maze, x + TAYLOR_RADIUS, y, block_size) {
            return false;
        }
        if !is_valid_position(maze, x - TAYLOR_RADIUS, y, block_size) {
            return false;
        }
        if !is_valid_position(maze, x, y + TAYLOR_RADIUS, block_size) {
            return false;
        }
        if !is_valid_position(maze, x, y - TAYLOR_RADIUS, block_size) {
            return false;
        }
        true
    }

    /// When the direct move is blocked, take the first of the four
    /// alternative displacements that lands clear; stay put if all four are
    /// blocked.
    fn try_alternative_movement(&self, taylor_position: &mut Vec2, dx: i64, dy: i64,
        dist: i64, move_half: i64, maze: &Maze, block_size: usize)
        requires
            0 < block_size <= 0x10000,
            0 < dist <= 0x80000000,
            -0x40000000 <= dx <= 0x40000000,
            -0x40000000 <= dy <= 0x40000000,
            -dist <= dx <= dist,
            -dist <= dy <= dist,
            0 <= move_half <= 0x2000000,
            -0x10000000 <= old(taylor_position).x <= 0x10000000,
            -0x10000000 <= old(taylor_position).y <= 0x10000000,
        ensures
            ({
                let m = maze@;
                let pos = *old(taylor_position);
                let dxi = dx as int;
                let dyi = dy as int;
                let di = dist as int;
                let mhi = move_half as int;
                let bi = block_size as int;
                if alt_clear(m, 0, pos, dxi, dyi, di, mhi, bi) {
                    *final(taylor_position) == alt_vec(0, pos, dxi, dyi, di, mhi)
                } else if alt_clear(m, 1, pos, dxi, dyi, di, mhi, bi) {
                    *final(taylor_position) == alt_vec(1, pos, dxi, dyi, di, mhi)
                } else if alt_clear(m, 2, pos, dxi, dyi, di, mhi, bi) {
                    *final(taylor_position) == alt_vec(2, pos, dxi, dyi, di, mhi)
                } else if alt_clear(m, 3, pos, dxi, dyi, di, mhi, bi) {
                    *final(taylor_position) == alt_vec(3, pos, dxi, dyi, di, mhi)
                } else {
                    *final(taylor_position) == pos
                }
            }),
            *final(taylor_position) == *old(taylor_position)
                || spec_position_clear(maze@, final(taylor_position).x as int,
                    final(taylor_position).y as int, block_size as int),
            -2 * move_half <= final(taylor_position).x - old(taylor_position).x
                <= 2 * move_half,
            -2 * move_half <= final(taylor_position).y - old(taylor_position).y
                <= 2 * move_half,
            -0x14000000 <= final(taylor_position).x <= 0x14000000,
            -0x14000000 <= final(taylor_position).y <= 0x14000000,
    {
        proof {
            lemma_scale_le(dy as int, move_half as int, dist as int, 1);
            lemma_scale_le(-dx as int, move_half as int, dist as int, 1);
            lemma_scale_le(-dy as int, move_half as int, dist as int, 1);
            lemma_scale_le(dx as int, move_half as int, dist as int, 1);
            lemma_scale_le(dx + dy as int, 7, 10, 0x10000000);
            lemma_scale_le(dy - dx as int, 7, 10, 0x10000000);
            lemma_scale_le(dx - dy as int, 7, 10, 0x10000000);
            lemma_scale_le(dy + dx as int, 7, 10, 0x10000000);
        }
        let a1x = taylor_position.x + scale(dy, move_half, dist);
        let a1y = taylor_position.y + scale(-dx, move_half, dist);
        if self.is_position_valid(a1x, a1y, maze, block_size) {
            taylor_position.x = a1x;
            taylor_position.y = a1y;
            return;
        }
        let a2x = taylor_position.x + scale(-dy, move_half, dist);
        let a2y = taylor_position.y + scale(dx, move_half, dist);
        if self.is_position_valid(a2x, a2y, maze, block_size) {
            taylor_position.x = a2x;
            taylor_position.y = a2y;
            return;
        }
        let b3x = scale(scale(dx + dy, 7, 10), move_half, dist);
        let b3y = scale(scale(dy - dx, 7, 10), move_half, dist);
        proof {
            lemma_scale_le(spec_scale(dx + dy as int, 7, 10), move_half as int,
                dist as int, 2);
            lemma_scale_le(spec_scale(dy - dx as int, 7, 10), move_half as int,
                dist as int, 2);
        }
        let a3x = taylor_position.x + b3x;
        let a3y = taylor_position.y + b3y;
        if self.is_position_valid(a3x, a3y, maze, block_size) {
            taylor_position.x = a3x;
            taylor_position.y = a3y;
            return;
        }
        let b4x = scale(scale(dx - dy, 7, 10), move_half, dist);
        let b4y = scale(scale(dy + dx, 7, 10), move_half, dist);
        proof {
            lemma_scale_le(spec_scale(dx - dy as int, 7, 10), move_half as int,
                dist as int, 2);
            lemma_scale_le(spec_scale(dy + dx as int, 7, 10), move_half as int,
                dist as int, 2);
        }
        let a4x = taylor_position.x + b4x;
        let a4y = taylor_position.y + b4y;
        if self.is_position_valid(a4x, a4y, maze, block_size) {
            taylor_position.x = a4x;
            taylor_position.y = a4y;
            return;
        }
    }

    /// With no path to follow, head straight for the player at full speed,
    /// subject to the same clearance check; stand still when already within
    /// ten world units.
    fn direct_movement_fallback(&self, taylor_position: &mut Vec2, player: &Player,
        taylor_speed: i64, delta_time: i64, maze: &Maze, block_size: usize)
        requires
            0 < block_size <= 0x10000,
            0 <= taylor_speed <= 0x40000,
            0 <= delta_time <= 4096,
            -0x10000000 <= old(taylor_position).x <= 0x10000000,
            -0x10000000 <= old(taylor_position).y <= 0x10000000,
            -0x10000000 <= player.pos.x <= 0x10000000,
            -0x10000000 <= player.pos.y <= 0x10000000,
        ensures
            displacement_sq(*old(taylor_position), player.pos) <= 104857600
                ==> *final(taylor_position) == *old(taylor_position),
            displacement_sq(*old(taylor_position), player.pos) > 104857600
                ==> exists|d: int| #[trigger] is_isqrt(d,
                        displacement_sq(*old(taylor_position), player.pos))
                    && spec_direct_move(maze@, *old(taylor_position), player.pos,
                        spec_move_dist(taylor_speed as int, delta_time as int), d,
                        block_size as int, *final(taylor_position)),
            *final(taylor_position) == *old(taylor_position)
                || spec_position_clear(maze@, final(taylor_position).x as int,
                    final(taylor_position).y as int, block_size as int),
            ({
                let mv = spec_move_dist(taylor_speed as int, delta_time as int);
                -mv <= final(taylor_position).x - old(taylor_position).x <= mv
                    && -mv <= final(taylor_position).y - old(taylor_position).y <= mv
            }),
            -0x14000000 <= final(taylor_position).x <= 0x14000000,
            -0x14000000 <= final(taylor_position).y <= 0x14000000,
    {
        proof {
            assert(0 <= taylor_speed * delta_time * 60) by (nonlinear_arith)
                requires 0 <= taylor_speed, 0 <= delta_time;
            assert(0 <= spec_move_dist(taylor_speed as int, delta_time as int));
        }
        let dx = player.pos.x - taylor_position.x;
        let dy = player.pos.y - taylor_position.y;
        proof {
            assert(0 <= dx * dx <= 0x20000000 * 0x20000000) by (nonlinear_arith)
                requires -0x20000000 <= dx <= 0x20000000;
            assert(0 <= dy * dy <= 0x20000000 * 0x20000000) by (nonlinear_arith)
                requires -0x20000000 <= dy <= 0x20000000;
        }
        let dsq = dx * dx + dy * dy;
        proof {
            let ax = old(taylor_position).x as int;
            let ay = old(taylor_position).y as int;
            let px = player.pos.x as int;
            let py = player.pos.y as int;
            assert((ax - px) * (ax - px) == (px - ax) * (px - ax)) by (nonlinear_arith);
            assert((ay - py) * (ay - py) == (py - ay) * (py - ay)) by (nonlinear_arith);
            assert(displacement_sq(*old(taylor_position), player.pos) == dsq);
        }
        if dsq > 104857600 {
            proof {
                assert(0 <= taylor_speed * delta_time * 60 <= 0x40000 * 4096 * 60)
                    by (nonlinear_arith)
                    requires 0 <= taylor_speed <= 0x40000, 0 <= delta_time <= 4096;
            }
            let mv = ((taylor_speed as u64 * delta_time as u64 * 60) / 1024) as i64;
            proof {
                assert(mv == spec_move_dist(taylor_speed as int, delta_time as int));
            }
            let dist = isqrt(dsq as u64) as i64;
            proof {
                assert(is_isqrt(dist as int,
                    displacement_sq(*old(taylor_position), player.pos)));
            }
            proof {
                assert(dist >= 1) by (nonlinear_arith)
                    requires
                        (dsq as int) < ((dist as int) + 1) * ((dist as int) + 1),
                        104857600 < dsq as int,
                        0 <= dist as int;
                assert(dx * dx <= dsq) by (nonlinear_arith)
                    requires dsq == dx * dx + dy * dy;
                assert(dy * dy <= dsq) by (nonlinear_arith)
                    requires dsq == dx * dx + dy * dy;
                assert(-dist <= dx <= dist) by (nonlinear_arith)
                    requires dx * dx <= dsq, dsq < (dist + 1) * (dist + 1), 0 <= dist;
                assert(-dist <= dy <= dist) by (nonlinear_arith)
                    requires dy * dy <= dsq, dsq < (dist + 1) * (dist + 1), 0 <= dist;
                lemma_scale_le(dx as int, mv as int, dist as int, 1);
                lemma_scale_le(dy as int, mv as int, dist as int, 1);
            }
            let new_x = taylor_position.x + scale(dx, mv, dist);
            let new_y = taylor_position.y + scale(dy, mv, dist);
            let ghost cand = Vec2 {
                x: (old(taylor_position).x
                    + spec_scale(dx as int, mv as int, dist as int)) as i64,
                y: (old(taylor_position).y
                    + spec_scale(dy as int, mv as int, dist as int)) as i64,
            };
            if self.is_position_valid(new_x, new_y, maze, block_size) {
                taylor_position.x = new_x;
                taylor_position.y = new_y;
            }
            proof {
                reveal(spec_direct_move);
                assert(spec_direct_move(maze@, *old(taylor_position), player.pos,
                    spec_move_dist(taylor_speed as int, delta_time as int),
                    dist as int, block_size as int, *taylor_position));
            }
        }
    }
}


impl TaylorAI {
    /// When the true goal is unreachable, search concentric square rings
    /// (radius 1 to 5) around it for the walkable cell nearest the start by
    /// Manhattan distance, and path to the best candidate found so far after
    /// each ring; the first ring whose best candidate yields a path wins.
    fn find_approximate_path(&mut self, start: GridPos, goal: GridPos, maze: &Maze)
        requires
            maze@.len() <= 0x1000,
            forall|j: int| 0 <= j < maze@.len() ==> #[trigger] maze@[j]@.len() <= 0x1000,
            -0x80000 <= start.x <= 0x80000,
            -0x80000 <= start.y <= 0x80000,
            -0x80000 <= goal.x <= 0x80000,
            -0x80000 <= goal.y <= 0x80000,
            old(self).current_path@.len() == 0,
        ensures
            final(self).path_index == old(self).path_index,
            final(self).last_pathfind_time == old(self).last_pathfind_time,
            final(self).pathfind_frequency == old(self).pathfind_frequency,
            final(self).stuck_timer == old(self).stuck_timer,
            final(self).last_position == old(self).last_position,
            final(self).current_path@.len() > 0 ==> exists|t: GridPos|
                #[trigger] valid_path(maze@, start, t, final(self).current_path@)
                && t != goal && abs_i(t.x - goal.x) <= 5 && abs_i(t.y - goal.y) <= 5,
            // Ring completeness: from a walkable start, if ring candidates
            // exist and every one of them is reachable, some path comes
            // back. (The search retries only its nearest-to-start candidate,
            // so one unreachable candidate can mask reachable ones.)
            (walkable_at(maze@, start.x as int, start.y as int)
                && (exists|c: GridPos| #[trigger] ring_candidate(maze@, goal, c))
                && (forall|c: GridPos| #[trigger] ring_candidate(maze@, goal, c)
                    ==> exists|p: Seq<GridPos>| valid_path(maze@, start, c, p)
                        && p.len() > 0))
                ==> final(self).current_path@.len() > 0,
    {
        let mut best_distance: i32 = i32::MAX;
        let mut best_target: GridPos = goal;
        let mut radius: i32 = 1;
        while radius <= 5
            invariant
                1 <= radius <= 6,
                maze@.len() <= 0x1000,
                forall|j: int| 0 <= j < maze@.len()
                    ==> #[trigger] maze@[j]@.len() <= 0x1000,
                -0x80000 <= start.x <= 0x80000,
                -0x80000 <= start.y <= 0x80000,
                -0x80000 <= goal.x <= 0x80000,
                -0x80000 <= goal.y <= 0x80000,
                best_target == goal || ring_candidate(maze@, goal, best_target),
                best_target == goal ==> best_distance == i32::MAX,
                // While nothing was accepted, every ring below this radius
                // is wall.
                best_target == goal ==> forall|c: GridPos|
                    #[trigger] ring_candidate(maze@, goal, c)
                    ==> chebyshev(c, goal) >= radius,
                // A candidate that failed its search is unreachable.
                walkable_at(maze@, start.x as int, start.y as int)
                    && best_target != goal && self.current_path@.len() == 0
                    ==> !(exists|p: Seq<GridPos>| valid_path(maze@, start,
                        best_target, p) && p.len() > 0),
                self.path_index == old(self).path_index,
                self.last_pathfind_time == old(self).last_pathfind_time,
                self.pathfind_frequency == old(self).pathfind_frequency,
                self.stuck_timer == old(self).stuck_timer,
                self.last_position == old(self).last_position,
                self.current_path@.len() > 0 ==> exists|t: GridPos|
                    #[trigger] valid_path(maze@, start, t, self.current_path@)
                    && t != goal && abs_i(t.x - goal.x) <= 5 && abs_i(t.y - goal.y) <= 5,
            ensures
                self.path_index == old(self).path_index,
                self.last_pathfind_time == old(self).last_pathfind_time,
                self.pathfind_frequency == old(self).pathfind_frequency,
                self.stuck_timer == old(self).stuck_timer,
                self.last_position == old(self).last_position,
                self.current_path@.len() > 0 ==> exists|t: GridPos|
                    #[trigger] valid_path(maze@, start, t, self.current_path@)
                    && t != goal && abs_i(t.x - goal.x) <= 5 && abs_i(t.y - goal.y) <= 5,
                self.current_path@.len() == 0 ==> {
                    &&& (best_target == goal ==> forall|c: GridPos|
                        #[trigger] ring_candidate(maze@, goal, c)
                        ==> chebyshev(c, goal) >= 6)
                    &&& (best_target == goal || ring_candidate(maze@, goal, best_target))
                    &&& (walkable_at(maze@, start.x as int, start.y as int)
                        && best_target != goal
                        ==> !(exists|p: Seq<GridPos>| valid_path(maze@, start,
                            best_target, p) && p.len() > 0))
                },
            decreases 6 - radius,
        {
            let ghost best0 = best_target;
            let mut dx: i32 = -radius;
            while dx <= radius
                invariant
                    1 <= radius <= 5,
                    -radius <= dx <= radius + 1,
                    -0x80000 <= start.x <= 0x80000,
                    -0x80000 <= start.y <= 0x80000,
                    -0x80000 <= goal.x <= 0x80000,
                    -0x80000 <= goal.y <= 0x80000,
                    best_target == goal || ring_candidate(maze@, goal, best_target),
                    best_target == goal ==> best_distance == i32::MAX,
                    best_target == goal ==> best0 == goal,
                    best_target == goal ==> forall|c: GridPos|
                        #[trigger] ring_candidate(maze@, goal, c)
                        ==> chebyshev(c, goal) >= radius,
                    // Scanned columns of this ring held no walkable cell.
                    best_target == goal ==> forall|ddx: int, ddy: int|
                        -radius <= ddx < dx && -radius <= ddy <= radius
                        && (abs_i(ddx) == radius || abs_i(ddy) == radius)
                        ==> !#[trigger] walkable_at(maze@, goal.x + ddx, goal.y + ddy),
                decreases radius + 1 - dx,
            {
                let mut dy: i32 = -radius;
                while dy <= radius
                    invariant
                        1 <= radius <= 5,
                        -radius <= dx <= radius,
                        -radius <= dy <= radius + 1,
                        -0x80000 <= start.x <= 0x80000,
                        -0x80000 <= start.y <= 0x80000,
                        -0x80000 <= goal.x <= 0x80000,
                        -0x80000 <= goal.y <= 0x80000,
                        best_target == goal || ring_candidate(maze@, goal, best_target),
                        best_target == goal ==> best_distance == i32::MAX,
                        best_target == goal ==> best0 == goal,
                        best_target == goal ==> forall|c: GridPos|
                            #[trigger] ring_candidate(maze@, goal, c)
                            ==> chebyshev(c, goal) >= radius,
                        best_target == goal ==> forall|ddx: int, ddy: int|
                            -radius <= ddx < dx && -radius <= ddy <= radius
                            && (abs_i(ddx) == radius || abs_i(ddy) == radius)
                            ==> !#[trigger] walkable_at(maze@, goal.x + ddx,
                                goal.y + ddy),
                        best_target == goal ==> forall|ddy: int|
                            -radius <= ddy < dy
                            && (abs_i(dx as int) == radius || abs_i(ddy) == radius)
                            ==> !#[trigger] walkable_at(maze@, goal.x + dx,
                                goal.y + ddy),
                    decreases radius + 1 - dy,
                {
                    let adx: i32 = if dx < 0 { -dx } else { dx };
                    let ady: i32 = if dy < 0 { -dy } else { dy };
                    // Only the ring itself, not the interior already tried.
                    if adx == radius || ady == radius {
                        let candidate = GridPos::new(goal.x + dx, goal.y + dy);
                        if self.is_walkable(&candidate, maze) {
                            let distance = start.manhattan_distance(&candidate);
                            proof {
                                assert(chebyshev(candidate, goal) == radius);
                                assert(ring_candidate(maze@, goal, candidate));
                            }
                            if distance < best_distance {
                                best_distance = distance;
                                best_target = candidate;
                            }
                        }
                    }
                    dy = dy + 1;
                }
                dx = dx + 1;
            }
            proof {
                // If nothing was accepted, this whole ring is wall, so every
                // candidate lies at least one ring farther out.
                if best_target == goal {
                    assert forall|c: GridPos| #[trigger] ring_candidate(maze@, goal, c)
                        implies chebyshev(c, goal) >= radius + 1 by {
                        if chebyshev(c, goal) == radius {
                            let ddx = c.x - goal.x;
                            let ddy = c.y - goal.y;
                            assert(abs_i(ddx) == radius || abs_i(ddy) == radius);
                            assert(!walkable_at(maze@, goal.x + ddx, goal.y + ddy));
                            assert(goal.x + ddx == c.x && goal.y + ddy == c.y);
                        }
                    }
                }
            }
            if best_target.x != goal.x || best_target.y != goal.y {
                let attempt = self.find_path_astar(start, best_target, maze);
                self.current_path = attempt;
                if self.current_path.len() > 0 {
                    break;
                }
            }
            radius = radius + 1;
        }
        proof {
            // At a plain exit the sixth radius was reached: either no ring
            // candidate exists at all, or the retained nearest candidate is
            // unreachable — both contradict the completeness premise.
            if self.current_path@.len() == 0
                && walkable_at(maze@, start.x as int, start.y as int)
                && (exists|c: GridPos| #[trigger] ring_candidate(maze@, goal, c))
                && (forall|c: GridPos| #[trigger] ring_candidate(maze@, goal, c)
                    ==> exists|p: Seq<GridPos>| valid_path(maze@, start, c, p)
                        && p.len() > 0) {
                if best_target == goal {
                    let c = choose|c: GridPos| #[trigger] ring_candidate(maze@, goal, c);
                    assert(chebyshev(c, goal) >= 6);
                    assert(false);
                } else {
                    assert(ring_candidate(maze@, goal, best_target));
                    assert(false);
                }
            }
        }
    }
}


/// Every cell of a stored path is walkable in the maze.
pub open spec fn walkable_path_cells(m: Seq<Vec<char>>, path: Seq<GridPos>) -> bool {
    forall|i: int| 0 <= i < path.len()
        ==> walkable_at(m, (#[trigger] path[i]).x as int, path[i].y as int)
}

/// The grid cell containing a world position.
pub open spec fn spec_cell_of(pos: Vec2, block_size: int) -> GridPos {
    GridPos {
        x: spec_world_to_cell(pos.x as int, block_size * (FP_ONE as int)) as i32,
        y: spec_world_to_cell(pos.y as int, block_size * (FP_ONE as int)) as i32,
    }
}

/// The arrival radius around a waypoint: three tenths of a cell.
pub open spec fn spec_arrive_radius(block_size: int) -> int {
    3 * block_size * (FP_ONE as int) / 10
}

impl TaylorAI {
    /// One AI tick. Accumulates the replan and stuck timers (the stuck
    /// timer grows only while the pursuer's displacement since the last
    /// sample stays below the movement threshold); replans when the replan
    /// interval elapsed, the path is empty, or the pursuer is stuck, falling
    /// back to the ring search when the player's cell is unreachable; then
    /// follows the path — advancing the cursor inside the arrival radius,
    /// else stepping toward the waypoint if the step lands clear, else
    /// trying the alternative directions — or, with no path, chases the
    /// player directly. The pursuer never moves onto a blocked position.
    #[verifier::rlimit(100)]
    #[verifier::spinoff_prover]
    pub fn update_ai(&mut self, taylor_position: &mut Vec2, player: &Player, maze: &Maze,
        block_size: usize, delta_time: i64, taylor_speed: i64)
        requires
            0 < block_size <= 0x10000,
            maze@.len() <= 0x1000,
            forall|j: int| 0 <= j < maze@.len() ==> #[trigger] maze@[j]@.len() <= 0x1000,
            maze@.len() * block_size <= 0x80000,
            forall|j: int| 0 <= j < maze@.len()
                ==> (#[trigger] maze@[j]@.len()) * block_size <= 0x80000,
            0 <= delta_time <= 4096,
            0 <= taylor_speed <= 0x40000,
            0 < old(self).pathfind_frequency <= 0x40000000,
            0 <= old(self).last_pathfind_time <= 0x40000000,
            0 <= old(self).stuck_timer <= 0x40000000,
            -0x10000000 <= old(taylor_position).x <= 0x10000000,
            -0x10000000 <= old(taylor_position).y <= 0x10000000,
            -0x10000000 <= old(self).last_position.x <= 0x10000000,
            -0x10000000 <= old(self).last_position.y <= 0x10000000,
            -0x10000000 <= player.pos.x <= 0x10000000,
            -0x10000000 <= player.pos.y <= 0x10000000,
            walkable_path_cells(maze@, old(self).current_path@),
        ensures
            final(self).pathfind_frequency == old(self).pathfind_frequency,
            spec_replan_due(*old(self), *old(taylor_position), delta_time as int)
                ==> final(self).last_pathfind_time == 0 && final(self).stuck_timer == 0,
            !spec_replan_due(*old(self), *old(taylor_position), delta_time as int)
                ==> final(self).current_path@ == old(self).current_path@
                    && final(self).last_pathfind_time
                        == old(self).last_pathfind_time + delta_time
                    && final(self).stuck_timer == spec_stuck_timer_after(*old(self),
                        *old(taylor_position), delta_time as int),
            displacement_sq(*old(taylor_position), old(self).last_position) < MOVE_EPS_SQ
                ==> final(self).last_position == old(self).last_position,
            displacement_sq(*old(taylor_position), old(self).last_position) >= MOVE_EPS_SQ
                ==> final(self).last_position == *old(taylor_position),
            spec_replan_due(*old(self), *old(taylor_position), delta_time as int)
                ==> replan_path_ok(maze@,
                    spec_cell_of(*old(taylor_position), block_size as int),
                    spec_cell_of(player.pos, block_size as int),
                    final(self).current_path@),
            walkable_path_cells(maze@, final(self).current_path@),
            *final(taylor_position) == *old(taylor_position)
                || spec_position_clear(maze@, final(taylor_position).x as int,
                    final(taylor_position).y as int, block_size as int),
            -0x14000000 <= final(taylor_position).x <= 0x14000000,
            -0x14000000 <= final(taylor_position).y <= 0x14000000,
            ({
                let mv = spec_move_dist(taylor_speed as int, delta_time as int);
                -mv <= final(taylor_position).x - old(taylor_position).x <= mv
                    && -mv <= final(taylor_position).y - old(taylor_position).y <= mv
            }),
            ({
                let due = spec_replan_due(*old(self), *old(taylor_position),
                    delta_time as int);
                let path = final(self).current_path@;
                let idx0: int = if due { 0int } else { old(self).path_index as int };
                let arrive = spec_arrive_radius(block_size as int);
                if path.len() > 0 && idx0 < path.len() {
                    let target = spec_cell_center(path[idx0].x as int,
                        path[idx0].y as int, block_size as int);
                    if displacement_sq(*old(taylor_position), target) < arrive * arrive {
                        // Within the arrival radius: advance the cursor, stay.
                        final(self).path_index == idx0 + 1
                            && *final(taylor_position) == *old(taylor_position)
                    } else {
                        final(self).path_index == idx0
                    }
                } else {
                    final(self).path_index == idx0
                }
            }),
            // Outside the arrival radius the pursuer steps toward the
            // waypoint: the direct move when it lands clear, else the first
            // clear alternative, else it stands still. Stated once for a
            // tick that replanned (cursor at the head of the fresh path) and
            // once for a tick that kept its path and cursor.
            ({
                let path = final(self).current_path@;
                let arrive = spec_arrive_radius(block_size as int);
                let mv = spec_move_dist(taylor_speed as int, delta_time as int);
                spec_replan_due(*old(self), *old(taylor_position), delta_time as int)
                    && path.len() > 0
                    && displacement_sq(*old(taylor_position),
                        spec_cell_center(path[0].x as int, path[0].y as int,
                            block_size as int)) >= arrive * arrive
                    ==> exists|d: int| #[trigger] is_isqrt(d, displacement_sq(
                            *old(taylor_position), spec_cell_center(path[0].x as int,
                                path[0].y as int, block_size as int)))
                        && spec_follow_move(maze@, *old(taylor_position),
                            spec_cell_center(path[0].x as int, path[0].y as int,
                                block_size as int), mv, d, block_size as int,
                            *final(taylor_position))
            }),
            ({
                let path = final(self).current_path@;
                let idx0 = old(self).path_index as int;
                let arrive = spec_arrive_radius(block_size as int);
                let mv = spec_move_dist(taylor_speed as int, delta_time as int);
                !spec_replan_due(*old(self), *old(taylor_position), delta_time as int)
                    && path.len() > 0 && idx0 < path.len()
                    && displacement_sq(*old(taylor_position),
                        spec_cell_center(path[idx0].x as int, path[idx0].y as int,
                            block_size as int)) >= arrive * arrive
                    ==> exists|d: int| #[trigger] is_isqrt(d, displacement_sq(
                            *old(taylor_position), spec_cell_center(path[idx0].x as int,
                                path[idx0].y as int, block_size as int)))
                        && spec_follow_move(maze@, *old(taylor_position),
                            spec_cell_center(path[idx0].x as int, path[idx0].y as int,
                                block_size as int), mv, d, block_size as int,
                            *final(taylor_position))
            }),
            // With no usable path the pursuer chases the player directly,
            // standing still inside ten world units or against a wall.
            ({
                let due = spec_replan_due(*old(self), *old(taylor_position),
                    delta_time as int);
                let path = final(self).current_path@;
                let idx0: int = if due { 0int } else { old(self).path_index as int };
                let mv = spec_move_dist(taylor_speed as int, delta_time as int);
                !(path.len() > 0 && idx0 < path.len()) ==> ({
                    let dsqp = displacement_sq(*old(taylor_position), player.pos);
                    if dsqp <= 104857600 {
                        *final(taylor_position) == *old(taylor_position)
                    } else {
                        exists|d: int| #[trigger] is_isqrt(d, dsqp)
                            && spec_direct_move(maze@, *old(taylor_position),
                                player.pos, mv, d, block_size as int,
                                *final(taylor_position))
                    }
                })
            }),
    {
        let ghost old_self = *old(self);
        let ghost old_pos = *old(taylor_position);

        self.last_pathfind_time = self.last_pathfind_time + delta_time;
        self.stuck_timer = self.stuck_timer + delta_time;

        let ddx = taylor_position.x - self.last_position.x;
        let ddy = taylor_position.y - self.last_position.y;
        proof {
            assert(0 <= ddx * ddx <= 0x20000000 * 0x20000000) by (nonlinear_arith)
                requires -0x20000000 <= ddx <= 0x20000000;
            assert(0 <= ddy * ddy <= 0x20000000 * 0x20000000) by (nonlinear_arith)
                requires -0x20000000 <= ddy <= 0x20000000;
        }
        let distance_moved = ddx * ddx + ddy * ddy;
        proof {
            assert(distance_moved == displacement_sq(old_pos, old_self.last_position));
        }
        if distance_moved < MOVE_EPS_SQ {
            self.stuck_timer = self.stuck_timer + delta_time;
        } else {
            self.stuck_timer = 0;
            self.last_position = Vec2 { x: taylor_position.x, y: taylor_position.y };
        }

        let should_recalculate = self.last_pathfind_time >= self.pathfind_frequency
            || self.current_path.len() == 0
            || self.stuck_timer > STUCK_LIMIT;
        proof {
            assert(should_recalculate
                == spec_replan_due(old_self, old_pos, delta_time as int));
        }

        if should_recalculate {
            let tgrid = GridPos::from_world_pos(taylor_position.x, taylor_position.y,
                block_size);
            let pgrid = GridPos::from_world_pos(player.pos.x, player.pos.y, block_size);
            let fresh = self.find_path_astar(tgrid, pgrid, maze);
            self.current_path = fresh;
            self.path_index = 0;
            self.last_pathfind_time = 0;
            self.stuck_timer = 0;
            proof {
                assert(tgrid == spec_cell_of(old_pos, block_size as int));
                assert(pgrid == spec_cell_of(player.pos, block_size as int));
            }
            if self.current_path.len() == 0 {
                self.find_approximate_path(tgrid, pgrid, maze);
            }
            proof {
                assert(replan_path_ok(maze@, tgrid, pgrid, self.current_path@));
            }
        }

        proof {
            assert forall|i: int| 0 <= i < self.current_path@.len()
                implies walkable_at(maze@,
                    (#[trigger] self.current_path@[i]).x as int,
                    self.current_path@[i].y as int) by {
            }
        }

        if self.current_path.len() > 0 && self.path_index < self.current_path.len() {
            let target_grid = self.current_path[self.path_index];
            proof {
                assert(walkable_at(maze@, target_grid.x as int, target_grid.y as int));
                assert(0 <= target_grid.x as int
                    && (target_grid.x as int) < maze@[target_grid.y as int]@.len());
                assert((target_grid.x as int) * (block_size as int) * (FP_ONE as int)
                    + (block_size as int) * (FP_ONE as int) / 2 < 0x20000000
                    && 0 <= (target_grid.x as int) * (block_size as int) * (
                    FP_ONE as int)) by (nonlinear_arith)
                    requires
                        0 <= target_grid.x as int,
                        (target_grid.x as int) + 1 <= maze@[target_grid.y as int]@.len(),
                        maze@[target_grid.y as int]@.len() * (block_size as int)
                            <= 0x80000,
                        1 <= block_size as int <= 0x10000;
                assert((target_grid.y as int) * (block_size as int) * (FP_ONE as int)
                    + (block_size as int) * (FP_ONE as int) / 2 < 0x20000000
                    && 0 <= (target_grid.y as int) * (block_size as int) * (
                    FP_ONE as int)) by (nonlinear_arith)
                    requires
                        0 <= target_grid.y as int,
                        (target_grid.y as int) + 1 <= maze@.len(),
                        maze@.len() * (block_size as int) <= 0x80000,
                        1 <= block_size as int <= 0x10000;
            }
            let target = target_grid.to_world_pos(block_size);
            let dx = target.x - taylor_position.x;
            let dy = target.y - taylor_position.y;
            proof {
                assert(0 <= dx * dx <= 0x40000000 * 0x40000000) by (nonlinear_arith)
                    requires -0x40000000 <= dx <= 0x40000000;
                assert(0 <= dy * dy <= 0x40000000 * 0x40000000) by (nonlinear_arith)
                    requires -0x40000000 <= dy <= 0x40000000;
            }
            let dsq = dx * dx + dy * dy;
            proof {
                let tx = target.x as int;
                let ty = target.y as int;
                let ax = taylor_position.x as int;
                let ay = taylor_position.y as int;
                assert((ax - tx) * (ax - tx) == (tx - ax) * (tx - ax))
                    by (nonlinear_arith);
                assert((ay - ty) * (ay - ty) == (ty - ay) * (ty - ay))
                    by (nonlinear_arith);
                assert(dsq == displacement_sq(old_pos, target));
            }
            proof {
                assert(3072 <= 3 * (block_size as int) * (FP_ONE as int)
                    <= 3 * 0x10000 * 1024) by (nonlinear_arith)
                    requires 1 <= block_size as int <= 0x10000;
                vstd::arithmetic::div_mod::lemma_fundamental_div_mod(
                    3 * (block_size as int) * (FP_ONE as int), 10);
                assert(307 <= 3 * (block_size as int) * (FP_ONE as int) / 10
                    <= 0x2000000) by (nonlinear_arith)
                    requires
                        3 * (block_size as int) * (FP_ONE as int)
                            == 10 * (3 * (block_size as int) * (FP_ONE as int) / 10)
                            + (3 * (block_size as int) * (FP_ONE as int)) % 10,
                        0 <= (3 * (block_size as int) * (FP_ONE as int)) % 10 < 10,
                        3072 <= 3 * (block_size as int) * (FP_ONE as int)
                            <= 3 * 0x10000 * 1024;
            }
            let arrive = ((3u64 * block_size as u64 * 1024) / 10) as i64;
            proof {
                assert(arrive == spec_arrive_radius(block_size as int));
                assert(0 < arrive * arrive <= 0x2000000 * 0x2000000) by (nonlinear_arith)
                    requires 307 <= arrive <= 0x2000000;
            }
            if dsq < arrive * arrive {
                self.path_index = self.path_index + 1;
            } else {
                proof {
                    assert(0 <= taylor_speed * delta_time * 60 <= 0x40000 * 4096 * 60)
                        by (nonlinear_arith)
                        requires 0 <= taylor_speed <= 0x40000, 0 <= delta_time <= 4096;
                }
                let mv = ((taylor_speed as u64 * delta_time as u64 * 60) / 1024) as i64;
                proof {
                    assert(mv == spec_move_dist(taylor_speed as int, delta_time as int));
                }
                let dist = isqrt(dsq as u64) as i64;
                proof {
                    assert(1 <= dsq as int);
                    assert(0 <= dist as int);
                    assert((dsq as int) < ((dist as int) + 1) * ((dist as int) + 1));
                    assert(dist >= 1) by (nonlinear_arith)
                        requires
                            (dsq as int) < ((dist as int) + 1) * ((dist as int) + 1),
                            1 <= dsq as int,
                            0 <= dist as int;
                    assert(is_isqrt(dist as int, displacement_sq(old_pos, target)));
                    assert(dx * dx <= dsq) by (nonlinear_arith)
                        requires dsq == dx * dx + dy * dy, 0 <= dy * dy;
                    assert(dy * dy <= dsq) by (nonlinear_arith)
                        requires dsq == dx * dx + dy * dy, 0 <= dx * dx;
                    assert(-dist <= dx <= dist) by (nonlinear_arith)
                        requires dx * dx <= dsq, dsq < (dist + 1) * (dist + 1), 0 <= dist;
                    assert(-dist <= dy <= dist) by (nonlinear_arith)
                        requires dy * dy <= dsq, dsq < (dist + 1) * (dist + 1), 0 <= dist;
                    lemma_scale_le(dx as int, mv as int, dist as int, 1);
                    lemma_scale_le(dy as int, mv as int, dist as int, 1);
                }
                let new_x = taylor_position.x + scale(dx, mv, dist);
                let new_y = taylor_position.y + scale(dy, mv, dist);
                let ghost cand = Vec2 {
                    x: (old_pos.x + spec_scale(dx as int, mv as int, dist as int)) as i64,
                    y: (old_pos.y + spec_scale(dy as int, mv as int, dist as int)) as i64,
                };
                proof {
                    assert(new_x == cand.x && new_y == cand.y);
                    assert(is_isqrt(dist as int, displacement_sq(old_pos, target)));
                }
                if self.is_position_valid(new_x, new_y, maze, block_size) {
                    taylor_position.x = new_x;
                    taylor_position.y = new_y;
                    proof {
                        reveal(spec_follow_move);
                        assert(spec_position_clear(maze@, cand.x as int, cand.y as int,
                            block_size as int));
                        assert(spec_follow_move(maze@, old_pos, target, mv as int,
                            dist as int, block_size as int, *taylor_position));
                    }
                } else {
                    proof {
                        assert(!spec_position_clear(maze@, cand.x as int,
                            cand.y as int, block_size as int));
                    }
                    self.try_alternative_movement(taylor_position, dx, dy, dist, mv / 2,
                        maze, block_size);
                    proof {
                        reveal(spec_follow_move);
                        assert((mv / 2) as int == (mv as int) / 2);
                        assert(spec_follow_move(maze@, old_pos, target, mv as int,
                            dist as int, block_size as int, *taylor_position));
                    }
                }
            }
        } else {
            self.direct_movement_fallback(taylor_position, player, taylor_speed,
                delta_time, maze, block_size);
        }
    }
}

} // verus!




