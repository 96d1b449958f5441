//! Pathfinding and pursuit-controller behavior on concrete grids.

use maze_chase::fixed::Vec2;
use maze_chase::fixed::FP_ONE;
use maze_chase::maze::Maze;
use maze_chase::player::Player;
use maze_chase::taylor_ai::GridPos;
use maze_chase::taylor_ai::PathNode;
use maze_chase::taylor_ai::TaylorAI;

fn grid(rows: &[&str]) -> Maze {
    rows.iter().map(|r| r.chars().collect()).collect()
}

fn open_5x5() -> Maze {
    grid(&["+++++", "+   +", "+   +", "+   +", "+++++"])
}

#[test]
fn diagonal_route_beats_orthogonal() {
    // A 5x5 open grid: two diagonal steps (cost 28) beat four orthogonal
    // steps (cost 40) from (1,1) to (3,3).
    let maze = open_5x5();
    let ai = TaylorAI::new();
    let path = ai.find_path_astar(GridPos::new(1, 1), GridPos::new(3, 3), &maze);
    assert_eq!(path.len(), 2);
    assert_eq!((path[0].x, path[0].y), (2, 2));
    assert_eq!((path[1].x, path[1].y), (3, 3));
}

#[test]
fn pathfinder_is_deterministic() {
    let maze = grid(&["+++++++", "+     +", "+ + + +", "+     +", "+++++++"]);
    let ai = TaylorAI::new();
    let a = ai.find_path_astar(GridPos::new(1, 1), GridPos::new(5, 3), &maze);
    let b = ai.find_path_astar(GridPos::new(1, 1), GridPos::new(5, 3), &maze);
    assert_eq!(a.len(), b.len());
    for i in 0..a.len() {
        assert_eq!((a[i].x, a[i].y), (b[i].x, b[i].y));
    }
}

#[test]
fn path_excludes_start_and_costs_never_decrease() {
    let maze = open_5x5();
    let ai = TaylorAI::new();
    let start = GridPos::new(1, 1);
    let path = ai.find_path_astar(start, GridPos::new(3, 1), &maze);
    assert!(!path.is_empty());
    let mut g: i32 = 0;
    let mut prev = start;
    for cell in &path {
        assert!(!(cell.x == start.x && cell.y == start.y));
        let dx = (cell.x - prev.x).abs();
        let dy = (cell.y - prev.y).abs();
        assert!(dx <= 1 && dy <= 1 && (dx, dy) != (0, 0));
        let step = if dx == 1 && dy == 1 { 14 } else { 10 };
        let next_g = g + step;
        assert!(next_g >= g);
        g = next_g;
        prev = *cell;
    }
    assert_eq!((prev.x, prev.y), (3, 1));
}

#[test]
fn unwalkable_endpoints_give_empty_path() {
    let maze = open_5x5();
    let ai = TaylorAI::new();
    assert!(ai.find_path_astar(GridPos::new(0, 0), GridPos::new(3, 3), &maze).is_empty());
    assert!(ai.find_path_astar(GridPos::new(1, 1), GridPos::new(0, 3), &maze).is_empty());
    assert!(ai.find_path_astar(GridPos::new(-2, 1), GridPos::new(1, 1), &maze).is_empty());
}

#[test]
fn sealed_wall_disconnects_islands() {
    // A full-height wall between the two open pockets: no path.
    let maze = grid(&["+++++++", "+  +  +", "+  +  +", "+++++++"]);
    let ai = TaylorAI::new();
    let path = ai.find_path_astar(GridPos::new(1, 1), GridPos::new(5, 2), &maze);
    assert!(path.is_empty());
}

#[test]
fn manhattan_distance_and_neighbors() {
    let a = GridPos::new(2, 3);
    let b = GridPos::new(5, 1);
    assert_eq!(a.manhattan_distance(&b), 5);
    assert_eq!(b.manhattan_distance(&a), 5);
    let n = a.get_neighbors();
    assert_eq!(n.len(), 8);
    assert_eq!((n[0].x, n[0].y), (3, 3));
    assert_eq!((n[7].x, n[7].y), (1, 2));
}

#[test]
fn f_cost_sums_g_and_h() {
    let node = PathNode { pos: GridPos::new(0, 0), g_cost: 24, h_cost: 6, parent: None };
    assert_eq!(node.f_cost(), 30);
}

#[test]
fn grid_world_round_trip() {
    let cell = GridPos::new(3, 7);
    let center = cell.to_world_pos(100);
    assert_eq!(center.x, 3 * 100 * 1024 + 100 * 1024 / 2);
    assert_eq!(center.y, 7 * 100 * 1024 + 100 * 1024 / 2);
    let back = GridPos::from_world_pos(center.x, center.y, 100);
    assert_eq!((back.x, back.y), (3, 7));
}

fn player_at(x: i64, y: i64) -> Player {
    Player { pos: Vec2 { x, y }, a: 0, fov: 1072 }
}

#[test]
fn stuck_pursuer_replans_on_next_tick() {
    // The pursuer holds still (displacement below the threshold) with its
    // stuck timer just under the limit and a fresh replan interval: the next
    // tick must trigger a replan, observable as both timers reset to zero.
    let maze = open_5x5();
    let mut ai = TaylorAI::new();
    let pos = GridPos::new(1, 1).to_world_pos(100);
    ai.current_path = ai.find_path_astar(GridPos::new(1, 1), GridPos::new(3, 3), &maze);
    assert!(!ai.current_path.is_empty());
    ai.last_position = pos;
    ai.stuck_timer = 2040;  // just under the two-second limit of 2048
    ai.last_pathfind_time = 0;
    let mut taylor_pos = pos;
    let player = player_at(3 * 102400 + 51200, 3 * 102400 + 51200);
    ai.update_ai(&mut taylor_pos, &player, &maze, 100, 16, 2662);
    assert_eq!(ai.stuck_timer, 0);
    assert_eq!(ai.last_pathfind_time, 0);
    assert!(!ai.current_path.is_empty());
}

#[test]
fn moving_pursuer_does_not_replan_early() {
    // Large displacement since the last sample, a short elapsed time and a
    // non-empty path: no replan trigger, the timers keep counting.
    let maze = open_5x5();
    let mut ai = TaylorAI::new();
    let pos = GridPos::new(1, 1).to_world_pos(100);
    ai.current_path = ai.find_path_astar(GridPos::new(1, 1), GridPos::new(3, 3), &maze);
    ai.last_position = Vec2 { x: pos.x - 100000, y: pos.y };
    ai.stuck_timer = 500;
    ai.last_pathfind_time = 10;
    let mut taylor_pos = pos;
    let player = player_at(3 * 102400 + 51200, 3 * 102400 + 51200);
    ai.update_ai(&mut taylor_pos, &player, &maze, 100, 16, 2662);
    assert_eq!(ai.last_pathfind_time, 26);
    assert_eq!(ai.stuck_timer, 0);  // it moved, so the stuck timer resets
}

#[test]
fn walled_goal_falls_back_to_nearby_cell() {
    // The player stands in a wall cell: the exact search fails and the ring
    // fallback must deliver a path ending on a walkable cell within
    // Manhattan distance 5 of the goal.
    let maze = open_5x5();
    let mut ai = TaylorAI::new();
    let pos = GridPos::new(1, 1).to_world_pos(100);
    ai.last_position = pos;
    let mut taylor_pos = pos;
    // The player's cell (4, 2) is the border wall.
    let player = player_at(4 * 102400 + 51200, 2 * 102400 + 51200);
    let mut moved = taylor_pos;
    ai.update_ai(&mut moved, &player, &maze, 100, 16, 2662);
    assert!(!ai.current_path.is_empty());
    let last = ai.current_path[ai.current_path.len() - 1];
    assert!(ai.is_walkable(&last, &maze));
    let goal = GridPos::new(4, 2);
    assert!(last.manhattan_distance(&goal) <= 5);
}

#[test]
fn pursuer_moves_toward_waypoint_and_stays_clear() {
    let maze = grid(&[
        "+++++++",
        "+     +",
        "+     +",
        "+     +",
        "+++++++",
    ]);
    let mut ai = TaylorAI::new();
    let pos = GridPos::new(1, 2).to_world_pos(100);
    ai.last_position = Vec2 { x: 0, y: 0 };
    let mut taylor_pos = pos;
    let player = player_at(5 * 102400 + 51200, 2 * 102400 + 51200);
    ai.update_ai(&mut taylor_pos, &player, &maze, 100, 16, 2662);
    // It planned a path and moved toward the player without entering a wall.
    assert!(!ai.current_path.is_empty());
    assert!(taylor_pos.x > pos.x);
    let cell = GridPos::from_world_pos(taylor_pos.x, taylor_pos.y, 100);
    assert!(ai.is_walkable(&cell, &maze));
}

#[test]
fn start_equals_goal_gives_empty_path() {
    let maze = open_5x5();
    let ai = TaylorAI::new();
    let path = ai.find_path_astar(GridPos::new(2, 2), GridPos::new(2, 2), &maze);
    assert!(path.is_empty());
}

#[test]
fn cursor_advances_inside_arrival_radius() {
    // The pursuer already stands within three tenths of a cell of its first
    // waypoint: the tick advances the cursor instead of moving.
    let maze = open_5x5();
    let mut ai = TaylorAI::new();
    ai.current_path = ai.find_path_astar(GridPos::new(1, 1), GridPos::new(3, 3), &maze);
    assert!(!ai.current_path.is_empty());
    let first = ai.current_path[0];
    let target = first.to_world_pos(100);
    let mut taylor_pos = Vec2 { x: target.x - 1000, y: target.y };
    ai.last_position = Vec2 { x: 0, y: 0 };
    ai.last_pathfind_time = 0;
    let player = player_at(3 * 102400 + 51200, 3 * 102400 + 51200);
    ai.update_ai(&mut taylor_pos, &player, &maze, 100, 16, 2662);
    assert_eq!(ai.path_index, 1);
    assert_eq!(taylor_pos.x, target.x - 1000);
}

#[test]
fn ragged_rows_block_pathfinding_safely() {
    // Cells beyond a short row count as blocked, not as a crash.
    let maze = grid(&["+++++", "+  ", "+   +", "+++++"]);
    let ai = TaylorAI::new();
    assert!(!ai.is_walkable(&GridPos::new(3, 1), &maze));
    assert!(ai.is_walkable(&GridPos::new(2, 1), &maze));
    let path = ai.find_path_astar(GridPos::new(1, 1), GridPos::new(3, 2), &maze);
    assert!(!path.is_empty());
}

#[test]
fn replan_interval_triggers_on_schedule() {
    // With the replan timer about to cross the one-second frequency, the
    // tick replans even though the pursuer moves freely.
    let maze = open_5x5();
    let mut ai = TaylorAI::new();
    let pos = GridPos::new(1, 1).to_world_pos(100);
    ai.current_path = ai.find_path_astar(GridPos::new(1, 1), GridPos::new(3, 3), &maze);
    ai.last_position = Vec2 { x: 0, y: 0 };
    ai.last_pathfind_time = 1020;
    let mut taylor_pos = pos;
    let player = player_at(3 * 102400 + 51200, 3 * 102400 + 51200);
    ai.update_ai(&mut taylor_pos, &player, &maze, 100, 16, 2662);
    assert_eq!(ai.last_pathfind_time, 0);
    assert_eq!(ai.path_index, 0);
}

#[test]
fn pathfind_frequency_defaults_to_one_second() {
    let ai = TaylorAI::new();
    assert_eq!(ai.pathfind_frequency, FP_ONE);
    assert_eq!(ai.path_index, 0);
    assert!(ai.current_path.is_empty());
}
