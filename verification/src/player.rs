//! The player as the engine sees it: a world position, a facing angle and a
//! field of view, all fixed-point. Input handling lives outside the engine;
//! the movement rule that keeps the player out of walls is here.

use vstd::prelude::*;
use crate::fixed::FP_ONE;
use crate::fixed::Vec2;
use crate::maze::Maze;
use crate::maze::walkable_at;
use crate::taylor_ai::spec_world_to_cell;
use crate::taylor_ai::GridPos;

verus! {

/// Read-only camera state: position, facing angle and field of view in
/// fixed-point radians.
pub struct Player {
    pub pos: Vec2,
    pub a: i64,
    pub fov: i64,
}

/// The world position lies in a walkable cell.
pub open spec fn spec_point_walkable(m: Seq<Vec<char>>, x: int, y: int, block_size: int)
    -> bool
{
    walkable_at(m,
        spec_world_to_cell(x, block_size * FP_ONE),
        spec_world_to_cell(y, block_size * FP_ONE))
}

/// A candidate position is accepted iff its cell is walkable (out-of-grid
/// counts as blocked).
pub fn is_valid_position(maze: &Maze, x: i64, y: i64, block_size: usize) -> (r: bool)
    requires
        0 < block_size <= 0x10000,
        -0x20000000 <= x <= 0x20000000,
        -0x20000000 <= y <= 0x20000000,
    ensures
        r == spec_point_walkable(maze@, x as int, y as int, block_size as int),
{
    let cell = GridPos::from_world_pos(x, y, block_size);
    if cell.y < 0 {
        return false;
    }
    let gy = cell.y as usize;
    if gy >= maze.len() {
        return false;
    }
    let row = &maze[gy];
    if cell.x < 0 {
        return false;
    }
    let gx = cell.x as usize;
    if gx >= row.len() {
        return false;
    }
    row[gx] == crate::maze::EMPTY_TILE
}

/// Axis-separated movement: the x and y displacements are validated and
/// applied independently, so the player slides along walls instead of
/// stopping against them.
pub fn try_move_player(player: &mut Player, new_x: i64, new_y: i64, maze: &Maze,
    block_size: usize)
    requires
        0 < block_size <= 0x10000,
        -0x20000000 <= new_x <= 0x20000000,
        -0x20000000 <= new_y <= 0x20000000,
        -0x20000000 <= old(player).pos.x <= 0x20000000,
        -0x20000000 <= old(player).pos.y <= 0x20000000,
    ensures
        final(player).a == old(player).a && final(player).fov == old(player).fov,
        final(player).pos.x == (if spec_point_walkable(maze@, new_x as int,
            old(player).pos.y as int, block_size as int) {
            new_x
        } else {
            old(player).pos.x
        }),
        final(player).pos.y == (if spec_point_walkable(maze@, final(player).pos.x as int,
            new_y as int, block_size as int) {
            new_y
        } else {
            old(player).pos.y
        }),
{
    if is_valid_position(maze, new_x, player.pos.y, block_size) {
        player.pos.x = new_x;
    }
    if is_valid_position(maze, player.pos.x, new_y, block_size) {
        player.pos.y = new_y;
    }
}

} // verus!
