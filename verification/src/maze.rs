//! The grid model: a maze is a sequence of rows of tile tags.
//!
//! A tile tag is a `char`: `' '` is empty (walkable), `'.'` marks a
//! collectible spawn before the level is cleaned, `'E'` is the exit door,
//! and every other tag is a wall variant. The boundary sentinel tag `'+'`
//! doubles as the outer wall. Rows may in principle be ragged; every access
//! is bounds-checked and out-of-range reads degrade to "blocked".

use vstd::prelude::*;
use crate::fixed::FP_ONE;
use crate::fixed::Vec2;

verus! {

/// A maze: rows of tile tags, outermost index is the row (y), inner the column (x).
pub type Maze = Vec<Vec<char>>;

/// The tag of the empty (walkable) tile.
pub const EMPTY_TILE: char = ' ';

/// The tag that marks a collectible spawn point in a freshly loaded level.
pub const SPRITE_MARKER: char = '.';

/// The boundary sentinel tag, also used for the outer wall.
pub const BOUNDARY_TILE: char = '+';

/// Cell (x, y) lies inside the grid (and inside its own, possibly short, row).
pub open spec fn in_grid(m: Seq<Vec<char>>, x: int, y: int) -> bool {
    0 <= y < m.len() && 0 <= x < m[y]@.len()
}

/// The tag stored at cell (x, y); meaningful only when `in_grid` holds.
pub open spec fn tile_at(m: Seq<Vec<char>>, x: int, y: int) -> char {
    m[y]@[x]
}

/// A cell is walkable iff it is in bounds and empty; everything else,
/// including any out-of-bounds access, blocks movement.
pub open spec fn walkable_at(m: Seq<Vec<char>>, x: int, y: int) -> bool {
    in_grid(m, x, y) && tile_at(m, x, y) == EMPTY_TILE
}

/// World position (fixed-point) of the center of grid cell (x, y).
pub open spec fn spec_cell_center(x: int, y: int, block_size: int) -> Vec2 {
    Vec2 {
        x: (x * block_size * FP_ONE + block_size * FP_ONE / 2) as i64,
        y: (y * block_size * FP_ONE + block_size * FP_ONE / 2) as i64,
    }
}

/// A collectible spawn extracted from the grid: the world position
/// (fixed-point) of the center of a marker cell.
#[derive(Clone, Copy, Debug, PartialEq, Eq, Structural)]
pub struct SpritePosition {
    pub x: i64,
    pub y: i64,
}

/// The collectible centers found in the first `upto` cells of row `y`,
/// in column order.
pub open spec fn row_markers(row: Seq<char>, y: int, block_size: int, upto: int)
    -> Seq<SpritePosition>
    decreases upto,
{
    if upto <= 0 {
        Seq::empty()
    } else {
        let rest = row_markers(row, y, block_size, upto - 1);
        if row[upto - 1] == SPRITE_MARKER {
            let c = spec_cell_center(upto - 1, y, block_size);
            rest.push(SpritePosition { x: c.x, y: c.y })
        } else {
            rest
        }
    }
}

/// The collectible centers found in the first `upto` rows, in row-major order.
pub open spec fn grid_markers(m: Seq<Vec<char>>, block_size: int, upto: int)
    -> Seq<SpritePosition>
    decreases upto,
{
    if upto <= 0 {
        Seq::empty()
    } else {
        grid_markers(m, block_size, upto - 1)
            + row_markers(m[upto - 1]@, upto - 1, block_size, m[upto - 1]@.len() as int)
    }
}

/// Scan the maze for collectible markers and return the world-space center
/// of every marker cell, in row-major order.
pub fn extract_sprite_positions(maze: &Maze, block_size: usize) -> (r: Vec<SpritePosition>)
    requires
        0 < block_size <= 0x10000,
        maze@.len() <= 0x10000,
        forall|j: int| 0 <= j < maze@.len() ==> #[trigger] maze@[j]@.len() <= 0x10000,
    ensures
        r@ == grid_markers(maze@, block_size as int, maze@.len() as int),
{
    let mut out: Vec<SpritePosition> = Vec::new();
    let mut row_index: usize = 0;
    while row_index < maze.len()
        invariant
            row_index <= maze@.len(),
            0 < block_size <= 0x10000,
            maze@.len() <= 0x10000,
            forall|j: int| 0 <= j < maze@.len() ==> #[trigger] maze@[j]@.len() <= 0x10000,
            out@ == grid_markers(maze@, block_size as int, row_index as int),
        decreases maze@.len() - row_index,
    {
        let row = &maze[row_index];
        let mut col_index: usize = 0;
        while col_index < row.len()
            invariant
                row_index < maze@.len(),
                col_index <= row@.len(),
                row@.len() <= 0x10000,
                row@ == maze@[row_index as int]@,
                0 < block_size <= 0x10000,
                maze@.len() <= 0x10000,
                out@ == grid_markers(maze@, block_size as int, row_index as int)
                    + row_markers(row@, row_index as int, block_size as int, col_index as int),
            decreases row@.len() - col_index,
        {
            if row[col_index] == SPRITE_MARKER {
                proof {
                    assert((col_index as int) * (block_size as int) * (FP_ONE as int)
                        <= 0x10000 * 0x10000 * 1024) by (nonlinear_arith)
                        requires
                            0 <= col_index as int <= 0x10000,
                            0 < block_size as int <= 0x10000;
                    assert((row_index as int) * (block_size as int) * (FP_ONE as int)
                        <= 0x10000 * 0x10000 * 1024) by (nonlinear_arith)
                        requires
                            0 <= row_index as int <= 0x10000,
                            0 < block_size as int <= 0x10000;
                    assert((col_index as int) * (block_size as int) * (FP_ONE as int) >= 0)
                        by (nonlinear_arith)
                        requires 0 <= col_index as int, 0 < block_size as int;
                    assert((row_index as int) * (block_size as int) * (FP_ONE as int) >= 0)
                        by (nonlinear_arith)
                        requires 0 <= row_index as int, 0 < block_size as int;
                }
                let cx: i64 = (col_index as i64) * (block_size as i64) * FP_ONE
                    + (block_size as i64) * FP_ONE / 2;
                let cy: i64 = (row_index as i64) * (block_size as i64) * FP_ONE
                    + (block_size as i64) * FP_ONE / 2;
                out.push(SpritePosition { x: cx, y: cy });
            }
            col_index = col_index + 1;
            proof {
                assert(out@ == grid_markers(maze@, block_size as int, row_index as int)
                    + row_markers(row@, row_index as int, block_size as int, col_index as int));
            }
        }
        row_index = row_index + 1;
        proof {
            assert(row_markers(row@, row_index as int - 1, block_size as int,
                row@.len() as int)
                == row_markers(maze@[row_index as int - 1]@, row_index as int - 1,
                    block_size as int, maze@[row_index as int - 1]@.len() as int));
            assert(out@ == grid_markers(maze@, block_size as int, row_index as int));
        }
    }
    out
}

/// Replace every collectible marker with the empty tile, leaving all other
/// tags and the grid shape untouched.
pub fn clean_maze(maze: &mut Maze)
    ensures
        final(maze)@.len() == old(maze)@.len(),
        forall|j: int| 0 <= j < final(maze)@.len()
            ==> #[trigger] final(maze)@[j]@.len() == old(maze)@[j]@.len(),
        forall|j: int, i: int| 0 <= j < final(maze)@.len() && 0 <= i < final(maze)@[j]@.len()
            ==> #[trigger] final(maze)@[j]@[i] == (if old(maze)@[j]@[i] == SPRITE_MARKER {
                EMPTY_TILE
            } else {
                old(maze)@[j]@[i]
            }),
{
    let mut row_index: usize = 0;
    while row_index < maze.len()
        invariant
            row_index <= maze@.len(),
            maze@.len() == old(maze)@.len(),
            forall|j: int| 0 <= j < maze@.len()
                ==> #[trigger] maze@[j]@.len() == old(maze)@[j]@.len(),
            forall|j: int, i: int| 0 <= j < row_index && 0 <= i < maze@[j]@.len()
                ==> #[trigger] maze@[j]@[i] == (if old(maze)@[j]@[i] == SPRITE_MARKER {
                    EMPTY_TILE
                } else {
                    old(maze)@[j]@[i]
                }),
            forall|j: int, i: int| row_index <= j < maze@.len() && 0 <= i < maze@[j]@.len()
                ==> #[trigger] maze@[j]@[i] == old(maze)@[j]@[i],
        decreases maze@.len() - row_index,
    {
        let row_len = maze[row_index].len();
        let mut col_index: usize = 0;
        while col_index < row_len
            invariant
                row_index < maze@.len(),
                col_index <= row_len,
                row_len == maze@[row_index as int]@.len(),
                maze@.len() == old(maze)@.len(),
                forall|j: int| 0 <= j < maze@.len()
                    ==> #[trigger] maze@[j]@.len() == old(maze)@[j]@.len(),
                forall|j: int, i: int| 0 <= j < row_index && 0 <= i < maze@[j]@.len()
                    ==> #[trigger] maze@[j]@[i] == (if old(maze)@[j]@[i] == SPRITE_MARKER {
                        EMPTY_TILE
                    } else {
                        old(maze)@[j]@[i]
                    }),
                forall|i: int| 0 <= i < col_index
                    ==> #[trigger] maze@[row_index as int]@[i]
                        == (if old(maze)@[row_index as int]@[i] == SPRITE_MARKER {
                            EMPTY_TILE
                        } else {
                            old(maze)@[row_index as int]@[i]
                        }),
                forall|i: int| col_index <= i < maze@[row_index as int]@.len()
                    ==> #[trigger] maze@[row_index as int]@[i]
                        == old(maze)@[row_index as int]@[i],
                forall|j: int, i: int| row_index < j < maze@.len() && 0 <= i < maze@[j]@.len()
                    ==> #[trigger] maze@[j]@[i] == old(maze)@[j]@[i],
            decreases row_len - col_index,
        {
            if maze[row_index][col_index] == SPRITE_MARKER {
                let row = &mut maze[row_index];
                row.set(col_index, EMPTY_TILE);
            }
            col_index = col_index + 1;
        }
        row_index = row_index + 1;
    }
}

} // verus!
