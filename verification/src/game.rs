//! Session state: the level table, per-round counters, the pursuer's world
//! state, and the per-tick glue that drives the pursuit AI and the capture
//! test. All of it lives in one struct passed into update and render calls;
//! nothing is process-global.

use vstd::prelude::*;
use crate::fixed::FP_ONE;
use crate::fixed::Vec2;
use crate::fixed::scale;
use crate::maze::Maze;
use crate::maze::SpritePosition;
use crate::maze::clean_maze;
use crate::maze::extract_sprite_positions;
use crate::maze::grid_markers;
use crate::maze::EMPTY_TILE;
use crate::maze::SPRITE_MARKER;
use crate::player::Player;
use crate::sprites::SpriteManager;
use crate::sprites::frames_view_eq;
use crate::taylor_ai::TaylorAI;
use crate::taylor_ai::displacement_sq;
use crate::taylor_ai::replan_path_ok;
use crate::taylor_ai::spec_cell_of;
use crate::taylor_ai::spec_move_dist;
use crate::taylor_ai::spec_position_clear;
use crate::taylor_ai::spec_replan_due;
use crate::taylor_ai::spec_stuck_timer_after;
use crate::taylor_ai::walkable_path_cells;

verus! {

/// The round's phase.
#[derive(Clone, Copy, Debug, PartialEq, Eq, Structural)]
pub enum GameState {
    Menu,
    Playing,
    LevelComplete,
    GameOver,
    Victory,
}

/// One level's parameters. The maze file name is resolved by the loader
/// outside the engine; speeds and spawn coordinates are fixed-point.
pub struct GameLevel {
    pub maze_file: String,
    pub level_name: String,
    pub required_cans: usize,
    pub taylor_speed: i64,
    pub taylor_spawn_x: i64,
    pub taylor_spawn_y: i64,
}

/// The whole session: level table and cursor, per-round counters, and the
/// pursuer's continuous state plus its AI.
pub struct GameData {
    pub current_level: usize,
    pub levels: Vec<GameLevel>,
    pub gasoline_collected: usize,
    pub game_timer: i64,
    pub taylor_position: Vec2,
    pub taylor_target: Vec2,
    pub taylor_last_move_time: i64,
    pub car_reached: bool,
    pub taylor_ai: TaylorAI,
}

/// The pursuer's speed multiplier per level: the chase tightens as the
/// levels advance (fixed-point factors 1.1, 1.3, 1.6; 1.0 beyond the table).
pub open spec fn spec_speed_multiplier(level: int) -> int {
    if level == 0 { 1126 } else if level == 1 { 1331 } else if level == 2 { 1638 }
    else { 1024 }
}

/// The capture distance: the pursuer's and player's radii plus a per-level
/// forgiveness margin (fixed-point world units).
pub open spec fn spec_collision_distance(level: int) -> int {
    let extra: int = if level == 0 { 10240 } else if level == 1 { 5120 }
        else if level == 2 { 0 } else { 10240 };
    25600 + 15360 + extra
}

impl GameData {
    /// The session at its start: the three-level table, the cursor on the
    /// first level, counters at zero and the pursuer parked at its default.
    pub fn new() -> (r: Self)
        ensures
            r.current_level == 0,
            r.levels@.len() == 3,
            r.levels@[0].taylor_speed == 2662,
            r.levels@[1].taylor_speed == 3328,
            r.levels@[2].taylor_speed == 3994,
            forall|i: int| 0 <= i < 3 ==> (#[trigger] r.levels@[i]).required_cans == 4,
            r.levels@[0].taylor_spawn_x == 256000 && r.levels@[0].taylor_spawn_y
                == 972800,
            r.levels@[1].taylor_spawn_x == 256000 && r.levels@[1].taylor_spawn_y
                == 972800,
            r.levels@[2].taylor_spawn_x == 256000 && r.levels@[2].taylor_spawn_y
                == 1177600,
            r.gasoline_collected == 0,
            r.game_timer == 0,
            r.taylor_position == (Vec2 { x: 819200, y: 819200 }),
            r.taylor_target == (Vec2 { x: 819200, y: 819200 }),
            r.taylor_last_move_time == 0,
            !r.car_reached,
            r.taylor_ai.current_path@.len() == 0,
            r.taylor_ai.path_index == 0,
            r.taylor_ai.last_pathfind_time == 0,
            r.taylor_ai.pathfind_frequency == FP_ONE,
            r.taylor_ai.stuck_timer == 0,
    {
        let mut levels: Vec<GameLevel> = Vec::new();
        levels.push(GameLevel {
            maze_file: "levels/level1.txt".to_string(),
            level_name: "Hollywood Studio".to_string(),
            required_cans: 4,
            taylor_speed: 2662,  // 2.6 world units per second
            taylor_spawn_x: 256000,
            taylor_spawn_y: 972800,
        });
        levels.push(GameLevel {
            maze_file: "levels/level2.txt".to_string(),
            level_name: "Recording Studio".to_string(),
            required_cans: 4,
            taylor_speed: 3328,  // 3.25
            taylor_spawn_x: 256000,
            taylor_spawn_y: 972800,
        });
        levels.push(GameLevel {
            maze_file: "levels/level3.txt".to_string(),
            level_name: "Concert Venue".to_string(),
            required_cans: 4,
            taylor_speed: 3994,  // 3.9
            taylor_spawn_x: 256000,
            taylor_spawn_y: 1177600,
        });
        Self {
            current_level: 0,
            levels,
            gasoline_collected: 0,
            game_timer: 0,
            taylor_position: Vec2 { x: 819200, y: 819200 },
            taylor_target: Vec2 { x: 819200, y: 819200 },
            taylor_last_move_time: 0,
            car_reached: false,
            taylor_ai: TaylorAI::new(),
        }
    }

    /// The level the cursor points at.
    pub fn get_current_level(&self) -> (r: &GameLevel)
        requires
            self.current_level < self.levels@.len(),
        ensures
            *r == self.levels@[self.current_level as int],
    {
        &self.levels[self.current_level]
    }

    /// Advance to the next level: counters reset, and if a level remains,
    /// the pursuer returns to its spawn point.
    pub fn next_level(&mut self)
        requires
            old(self).current_level < old(self).levels@.len(),
        ensures
            final(self).current_level == old(self).current_level + 1,
            final(self).levels == old(self).levels,
            final(self).gasoline_collected == 0,
            !final(self).car_reached,
            final(self).current_level < final(self).levels@.len() ==> {
                let lv = final(self).levels@[final(self).current_level as int];
                final(self).taylor_position == (Vec2 { x: lv.taylor_spawn_x,
                    y: lv.taylor_spawn_y })
                    && final(self).taylor_target == final(self).taylor_position
            },
            final(self).current_level >= final(self).levels@.len()
                ==> final(self).taylor_position == old(self).taylor_position,
            final(self).game_timer == old(self).game_timer,
            final(self).taylor_ai == old(self).taylor_ai,
    {
        let n: usize = self.levels.len();
        self.current_level = self.current_level + 1;
        self.gasoline_collected = 0;
        self.car_reached = false;
        if self.current_level < n {
            let spawn_x = self.levels[self.current_level].taylor_spawn_x;
            let spawn_y = self.levels[self.current_level].taylor_spawn_y;
            self.taylor_position = Vec2 { x: spawn_x, y: spawn_y };
            self.taylor_target = self.taylor_position;
        }
    }

    /// Restart the current level: counters reset, pursuer back at spawn.
    pub fn reset_level(&mut self)
        requires
            old(self).current_level < old(self).levels@.len(),
        ensures
            final(self).current_level == old(self).current_level,
            final(self).levels == old(self).levels,
            final(self).gasoline_collected == 0,
            !final(self).car_reached,
            ({
                let lv = final(self).levels@[final(self).current_level as int];
                final(self).taylor_position == (Vec2 { x: lv.taylor_spawn_x,
                    y: lv.taylor_spawn_y })
                    && final(self).taylor_target == final(self).taylor_position
            }),
            final(self).game_timer == old(self).game_timer,
            final(self).taylor_ai == old(self).taylor_ai,
    {
        self.gasoline_collected = 0;
        self.car_reached = false;
        let spawn_x = self.levels[self.current_level].taylor_spawn_x;
        let spawn_y = self.levels[self.current_level].taylor_spawn_y;
        self.taylor_position = Vec2 { x: spawn_x, y: spawn_y };
        self.taylor_target = self.taylor_position;
    }
}

/// Drive the pursuer one tick at the current level's speed scaled by the
/// per-level multiplier. The pursuer never ends up on a blocked position.
pub fn update_taylor_ai(game_data: &mut GameData, player: &Player, maze: &Maze,
    block_size: usize, delta_time: i64)
    requires
        old(game_data).current_level < old(game_data).levels@.len(),
        0 <= old(game_data).levels@[old(game_data).current_level as int].taylor_speed
            <= 0x20000,
        0 < block_size <= 0x10000,
        maze@.len() <= 0x1000,
        forall|j: int| 0 <= j < maze@.len() ==> #[trigger] maze@[j]@.len() <= 0x1000,
        maze@.len() * block_size <= 0x80000,
        forall|j: int| 0 <= j < maze@.len()
            ==> (#[trigger] maze@[j]@.len()) * block_size <= 0x80000,
        0 <= delta_time <= 4096,
        0 < old(game_data).taylor_ai.pathfind_frequency <= 0x40000000,
        0 <= old(game_data).taylor_ai.last_pathfind_time <= 0x40000000,
        0 <= old(game_data).taylor_ai.stuck_timer <= 0x40000000,
        -0x10000000 <= old(game_data).taylor_position.x <= 0x10000000,
        -0x10000000 <= old(game_data).taylor_position.y <= 0x10000000,
        -0x10000000 <= old(game_data).taylor_ai.last_position.x <= 0x10000000,
        -0x10000000 <= old(game_data).taylor_ai.last_position.y <= 0x10000000,
        -0x10000000 <= player.pos.x <= 0x10000000,
        -0x10000000 <= player.pos.y <= 0x10000000,
        walkable_path_cells(maze@, old(game_data).taylor_ai.current_path@),
    ensures
        final(game_data).current_level == old(game_data).current_level,
        final(game_data).levels == old(game_data).levels,
        final(game_data).gasoline_collected == old(game_data).gasoline_collected,
        final(game_data).taylor_position == old(game_data).taylor_position
            || spec_position_clear(maze@, final(game_data).taylor_position.x as int,
                final(game_data).taylor_position.y as int, block_size as int),
        // One tick moves the pursuer at most the level-scaled step.
        ({
            let eff = crate::fixed::spec_scale(
                old(game_data).levels@[old(game_data).current_level as int]
                    .taylor_speed as int,
                spec_speed_multiplier(old(game_data).current_level as int),
                FP_ONE as int);
            let mv = spec_move_dist(eff, delta_time as int);
            -mv <= final(game_data).taylor_position.x
                - old(game_data).taylor_position.x <= mv
                && -mv <= final(game_data).taylor_position.y
                    - old(game_data).taylor_position.y <= mv
        }),
        -0x14000000 <= final(game_data).taylor_position.x <= 0x14000000,
        -0x14000000 <= final(game_data).taylor_position.y <= 0x14000000,
        walkable_path_cells(maze@, final(game_data).taylor_ai.current_path@),
        final(game_data).taylor_ai.pathfind_frequency
            == old(game_data).taylor_ai.pathfind_frequency,
        // The replan triggers and their effect carry through from the tick.
        spec_replan_due(old(game_data).taylor_ai, old(game_data).taylor_position,
            delta_time as int)
            ==> final(game_data).taylor_ai.last_pathfind_time == 0
                && final(game_data).taylor_ai.stuck_timer == 0
                && replan_path_ok(maze@,
                    spec_cell_of(old(game_data).taylor_position, block_size as int),
                    spec_cell_of(player.pos, block_size as int),
                    final(game_data).taylor_ai.current_path@),
        !spec_replan_due(old(game_data).taylor_ai, old(game_data).taylor_position,
            delta_time as int)
            ==> final(game_data).taylor_ai.current_path@
                    == old(game_data).taylor_ai.current_path@
                && final(game_data).taylor_ai.last_pathfind_time
                    == old(game_data).taylor_ai.last_pathfind_time + delta_time
                && final(game_data).taylor_ai.stuck_timer
                    == spec_stuck_timer_after(old(game_data).taylor_ai,
                        old(game_data).taylor_position, delta_time as int),
        0 <= final(game_data).taylor_ai.last_pathfind_time
            <= old(game_data).taylor_ai.last_pathfind_time + delta_time,
        0 <= final(game_data).taylor_ai.stuck_timer
            <= old(game_data).taylor_ai.stuck_timer + 2 * delta_time,
{
    let taylor_speed = self_speed(game_data);
    let multiplier: i64 = if game_data.current_level == 0 {
        1126  // 1.1
    } else if game_data.current_level == 1 {
        1331  // 1.3
    } else if game_data.current_level == 2 {
        1638  // 1.6
    } else {
        1024
    };
    proof {
        assert(multiplier == spec_speed_multiplier(
            old(game_data).current_level as int));
    }
    let effective_speed: i64 = scale(taylor_speed, multiplier, FP_ONE);
    proof {
        crate::fixed::lemma_scale_le(taylor_speed as int, multiplier as int, 1024,
            0x20000);
    }
    let mut taylor_position = game_data.taylor_position;
    game_data.taylor_ai.update_ai(&mut taylor_position, player, maze, block_size,
        delta_time, effective_speed);
    game_data.taylor_position = taylor_position;
}

fn self_speed(game_data: &GameData) -> (r: i64)
    requires
        game_data.current_level < game_data.levels@.len(),
    ensures
        r == game_data.levels@[game_data.current_level as int].taylor_speed,
{
    game_data.levels[game_data.current_level].taylor_speed
}

/// The capture test: the pursuer has caught the player when their distance
/// falls below the capture radius of the current level.
pub fn check_taylor_collision(game_data: &GameData, player: &Player) -> (r: bool)
    requires
        -0x14000000 <= game_data.taylor_position.x <= 0x14000000,
        -0x14000000 <= game_data.taylor_position.y <= 0x14000000,
        -0x14000000 <= player.pos.x <= 0x14000000,
        -0x14000000 <= player.pos.y <= 0x14000000,
    ensures
        r == (displacement_sq(game_data.taylor_position, player.pos)
            < spec_collision_distance(game_data.current_level as int)
                * spec_collision_distance(game_data.current_level as int)),
{
    let extra: i64 = if game_data.current_level == 0 {
        10240
    } else if game_data.current_level == 1 {
        5120
    } else if game_data.current_level == 2 {
        0
    } else {
        10240
    };
    let collision_distance: i64 = 25600 + 15360 + extra;
    let dx: i64 = game_data.taylor_position.x - player.pos.x;
    let dy: i64 = game_data.taylor_position.y - player.pos.y;
    proof {
        assert(0 <= dx * dx <= 0x28000000 * 0x28000000) by (nonlinear_arith)
            requires -0x28000000 <= dx <= 0x28000000;
        assert(0 <= dy * dy <= 0x28000000 * 0x28000000) by (nonlinear_arith)
            requires -0x28000000 <= dy <= 0x28000000;
    }
    let dsq: i64 = dx * dx + dy * dy;
    proof {
        assert(0 <= collision_distance * collision_distance <= 51200 * 51200)
            by (nonlinear_arith)
            requires 0 <= collision_distance <= 51200;
    }
    dsq < collision_distance * collision_distance
}

/// Begin the current level on an already-loaded maze: extract the
/// collectible spawn points, strip their markers from the grid, hand them to
/// the sprite manager, and reset the player, the timers and the pursuer.
/// Loading the maze file and starting the soundtrack happen outside the
/// engine.
pub fn start_level(maze: &mut Maze, sprite_manager: &mut SpriteManager,
    game_data: &mut GameData, player: &mut Player, block_size: usize)
    requires
        0 < block_size <= 0x10000,
        old(maze)@.len() <= 0x10000,
        forall|j: int| 0 <= j < old(maze)@.len()
            ==> #[trigger] old(maze)@[j]@.len() <= 0x10000,
        old(game_data).current_level < old(game_data).levels@.len(),
    ensures
        // the maze keeps its shape, markers stripped
        final(maze)@.len() == old(maze)@.len(),
        forall|j: int| 0 <= j < final(maze)@.len()
            ==> #[trigger] final(maze)@[j]@.len() == old(maze)@[j]@.len(),
        forall|j: int, i: int| 0 <= j < final(maze)@.len()
            && 0 <= i < final(maze)@[j]@.len()
            ==> #[trigger] final(maze)@[j]@[i]
                == (if old(maze)@[j]@[i] == SPRITE_MARKER { EMPTY_TILE }
                    else { old(maze)@[j]@[i] }),
        // one uncollected can per marker of the loaded maze
        final(sprite_manager).sprites@.len()
            == grid_markers(old(maze)@, block_size as int, old(maze)@.len() as int)
                .len(),
        forall|i: int| 0 <= i < final(sprite_manager).sprites@.len() ==> {
            let s = #[trigger] final(sprite_manager).sprites@[i];
            let p = grid_markers(old(maze)@, block_size as int,
                old(maze)@.len() as int)[i];
            s.x == p.x && s.y == p.y && !s.collected && s.animation_frame == 0
                && s.animation_timer == 0
                && frames_view_eq(s.texture_frames@,
                    old(sprite_manager).gasoline_can_textures@)
        },
        // player, timers and pursuer reset
        final(player).pos == (Vec2 { x: 153600, y: 153600 }),
        final(player).a == old(player).a,
        final(player).fov == old(player).fov,
        final(game_data).game_timer == 0,
        final(game_data).gasoline_collected == 0,
        final(game_data).taylor_position == (Vec2 {
            x: final(game_data).levels@[final(game_data).current_level as int]
                .taylor_spawn_x,
            y: final(game_data).levels@[final(game_data).current_level as int]
                .taylor_spawn_y,
        }),
        final(game_data).taylor_ai.current_path@.len() == 0,
        final(game_data).taylor_ai.path_index == 0,
        final(game_data).taylor_ai.last_pathfind_time == 0,
        final(game_data).taylor_ai.stuck_timer == 0,
        final(game_data).taylor_ai.pathfind_frequency == FP_ONE,
        final(game_data).current_level == old(game_data).current_level,
        final(game_data).levels == old(game_data).levels,
{
    let sprite_positions: Vec<SpritePosition> = extract_sprite_positions(maze,
        block_size);
    clean_maze(maze);
    sprite_manager.initialize_gasoline_cans(&sprite_positions);

    player.pos = Vec2 { x: 153600, y: 153600 };  // 150 world units in
    game_data.game_timer = 0;
    game_data.gasoline_collected = 0;

    let spawn_x = game_data.levels[game_data.current_level].taylor_spawn_x;
    let spawn_y = game_data.levels[game_data.current_level].taylor_spawn_y;
    game_data.taylor_position = Vec2 { x: spawn_x, y: spawn_y };
    game_data.taylor_target = game_data.taylor_position;
    game_data.taylor_ai = TaylorAI::new();
}

} // verus!
