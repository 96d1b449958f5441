//! Grid maintenance, collectibles and session-state behavior.

use maze_chase::fixed::isqrt;
use maze_chase::fixed::sin_fp;
use maze_chase::fixed::atan_fp;
use maze_chase::fixed::Vec2;
use maze_chase::game::check_taylor_collision;
use maze_chase::game::start_level;
use maze_chase::game::update_taylor_ai;
use maze_chase::game::GameData;
use maze_chase::maze::clean_maze;
use maze_chase::maze::extract_sprite_positions;
use maze_chase::maze::Maze;
use maze_chase::player::try_move_player;
use maze_chase::player::Player;
use maze_chase::sprites::SpriteManager;
use maze_chase::taylor_sprite::TaylorSprite;
use maze_chase::texture::ImageTexture;
use maze_chase::texture::Rgb;

fn grid(rows: &[&str]) -> Maze {
    rows.iter().map(|r| r.chars().collect()).collect()
}

fn flat_texture(c: Rgb) -> ImageTexture {
    ImageTexture::new(2, 2, vec![c, c, c, c]).unwrap()
}

#[test]
fn clean_maze_strips_markers_only() {
    let mut maze = grid(&["+.+", ". E", "+ ."]);
    clean_maze(&mut maze);
    assert_eq!(maze[0], vec!['+', ' ', '+']);
    assert_eq!(maze[1], vec![' ', ' ', 'E']);
    assert_eq!(maze[2], vec!['+', ' ', ' ']);
}

#[test]
fn extract_finds_marker_centers_in_row_major_order() {
    let maze = grid(&["+++", "+.+", "+.+"]);
    let positions = extract_sprite_positions(&maze, 100);
    assert_eq!(positions.len(), 2);
    assert_eq!(positions[0].x, 102400 + 51200);
    assert_eq!(positions[0].y, 102400 + 51200);
    assert_eq!(positions[1].x, 102400 + 51200);
    assert_eq!(positions[1].y, 2 * 102400 + 51200);
}

#[test]
fn markerless_grid_yields_no_collectibles() {
    let maze = grid(&["+++", "+ +", "+++"]);
    assert!(extract_sprite_positions(&maze, 100).is_empty());
    let mut copy = maze.clone();
    clean_maze(&mut copy);
    assert_eq!(copy, maze);
}

#[test]
fn pickup_marks_first_sprite_in_range() {
    let mut sm = SpriteManager::new(vec![flat_texture(Rgb { r: 200, g: 50, b: 50 })]);
    let positions = vec![
        maze_chase::maze::SpritePosition { x: 102400, y: 102400 },
        maze_chase::maze::SpritePosition { x: 102800, y: 102400 },
        maze_chase::maze::SpritePosition { x: 900000, y: 900000 },
    ];
    sm.initialize_gasoline_cans(&positions);
    let player = Player { pos: Vec2 { x: 102500, y: 102400 }, a: 0, fov: 1072 };
    let got = sm.check_collision(&player, 30720);
    assert_eq!(got, Some(0));
    assert!(sm.sprites[0].collected);
    assert!(!sm.sprites[1].collected);
    // The same call again picks the second sprite; the collected flag is
    // monotonic.
    let again = sm.check_collision(&player, 30720);
    assert_eq!(again, Some(1));
    assert!(sm.sprites[0].collected && sm.sprites[1].collected);
    // The distant one stays out of range.
    assert_eq!(sm.check_collision(&player, 30720), None);
    assert!(!sm.sprites[2].collected);
}

#[test]
fn sprite_animation_cycles_frames() {
    let frames = vec![
        flat_texture(Rgb { r: 1, g: 0, b: 0 }),
        flat_texture(Rgb { r: 2, g: 0, b: 0 }),
    ];
    let mut sm = SpriteManager::new(frames);
    let positions = vec![maze_chase::maze::SpritePosition { x: 102400, y: 102400 }];
    sm.initialize_gasoline_cans(&positions);
    sm.update(500);
    assert_eq!(sm.sprites[0].animation_frame, 0);
    assert_eq!(sm.sprites[0].animation_timer, 500);
    sm.update(500);  // passes the 819 frame duration: advance and reset
    assert_eq!(sm.sprites[0].animation_frame, 1);
    assert_eq!(sm.sprites[0].animation_timer, 0);
    sm.update(900);  // wraps back to frame 0
    assert_eq!(sm.sprites[0].animation_frame, 0);
}

#[test]
fn capture_distance_tightens_per_level() {
    let mut gd = GameData::new();
    let player = Player { pos: Vec2 { x: 0, y: 0 }, a: 0, fov: 1072 };
    // Level 1: capture inside 50 world units (25 + 15 + 10).
    gd.taylor_position = Vec2 { x: 51100, y: 0 };
    assert!(check_taylor_collision(&gd, &player));
    gd.taylor_position = Vec2 { x: 51300, y: 0 };
    assert!(!check_taylor_collision(&gd, &player));
    // Level 3 drops the margin to 40 world units.
    gd.current_level = 2;
    gd.taylor_position = Vec2 { x: 41500, y: 0 };
    assert!(!check_taylor_collision(&gd, &player));
    gd.taylor_position = Vec2 { x: 40800, y: 0 };
    assert!(check_taylor_collision(&gd, &player));
}

#[test]
fn session_level_transitions_reset_counters() {
    let mut gd = GameData::new();
    gd.gasoline_collected = 3;
    gd.car_reached = true;
    gd.next_level();
    assert_eq!(gd.current_level, 1);
    assert_eq!(gd.gasoline_collected, 0);
    assert!(!gd.car_reached);
    assert_eq!(gd.taylor_position.x, 256000);
    assert_eq!(gd.taylor_position.y, 972800);
    gd.gasoline_collected = 2;
    gd.reset_level();
    assert_eq!(gd.current_level, 1);
    assert_eq!(gd.gasoline_collected, 0);
}

#[test]
fn start_level_prepares_grid_sprites_and_pursuer() {
    let mut maze = grid(&["+++++", "+. .+", "+++++"]);
    let mut sm = SpriteManager::new(vec![flat_texture(Rgb { r: 200, g: 50, b: 50 })]);
    let mut gd = GameData::new();
    gd.game_timer = 999;
    gd.gasoline_collected = 2;
    let mut player = Player { pos: Vec2 { x: 0, y: 0 }, a: 55, fov: 1072 };
    start_level(&mut maze, &mut sm, &mut gd, &mut player, 100);
    assert_eq!(maze[1], vec!['+', ' ', ' ', ' ', '+']);
    assert_eq!(sm.sprites.len(), 2);
    assert!(!sm.sprites[0].collected);
    assert_eq!(sm.sprites[0].x, 102400 + 51200);
    assert_eq!(player.pos.x, 153600);
    assert_eq!(player.a, 55);
    assert_eq!(gd.game_timer, 0);
    assert_eq!(gd.gasoline_collected, 0);
    assert_eq!(gd.taylor_position.x, 256000);
    assert!(gd.taylor_ai.current_path.is_empty());
}

#[test]
fn update_taylor_ai_scales_speed_and_keeps_position_walkable() {
    let maze = grid(&["+++++++", "+     +", "+++++++"]);
    let mut gd = GameData::new();
    let start = Vec2 { x: 102400 + 51200, y: 102400 + 51200 };
    gd.taylor_position = start;
    gd.taylor_ai.last_position = Vec2 { x: 0, y: 0 };
    let player = Player {
        pos: Vec2 { x: 5 * 102400 + 51200, y: 102400 + 51200 },
        a: 0,
        fov: 1072,
    };
    update_taylor_ai(&mut gd, &player, &maze, 100, 16);
    assert!(gd.taylor_position.x > start.x);
}

#[test]
fn player_slides_along_walls() {
    let maze = grid(&["+++", "+ +", "+++"]);
    let mut player = Player { pos: Vec2 { x: 153600, y: 153600 }, a: 0, fov: 1072 };
    // Into the wall on the x axis, free on the y axis: x is rejected, y kept
    // (both land in the same open cell).
    try_move_player(&mut player, 280000, 160000, &maze, 100);
    assert_eq!(player.pos.x, 153600);
    assert_eq!(player.pos.y, 160000);
}

#[test]
fn antagonist_menace_follows_distance_and_cycle() {
    let mut ts = TaylorSprite::new(flat_texture(Rgb { r: 250, g: 220, b: 180 }));
    ts.update(100, 100000);  // close: menacing regardless of the blink cycle
    assert!(ts.menacing_mode);
    let mut far = TaylorSprite::new(flat_texture(Rgb { r: 250, g: 220, b: 180 }));
    far.update(600, 500000);  // far, at 0.59 s of the blink cycle: off
    assert!(!far.menacing_mode);
    far.update(600, 500000);  // 1.17 s: cycle wrapped below half: on
    assert!(far.menacing_mode);
}

#[test]
fn fixed_point_helpers_match_reference_values() {
    assert_eq!(isqrt(0), 0);
    assert_eq!(isqrt(15), 3);
    assert_eq!(isqrt(16), 4);
    assert_eq!(isqrt(1000000), 1000);
    assert_eq!(sin_fp(0), 0);
    assert!(sin_fp(1608) > 1000);  // near one at a quarter turn
    assert!(sin_fp(4825) < -1000);  // near minus one at three quarters
    assert_eq!(atan_fp(0, 1000), 0);
    assert_eq!(atan_fp(1024, 1024), 804);  // pi/4 at a ratio of one
    assert_eq!(atan_fp(-1024, 1024), -804);
    assert!(atan_fp(1000000, 3).abs() <= 1608);
}
