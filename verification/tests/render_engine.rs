//! Ray casting, projection and compositing behavior on concrete scenes.

use maze_chase::caster::cast_ray;
use maze_chase::caster::MAX_RAY_DIST;
use maze_chase::caster::RAY_STEP;
use maze_chase::fixed::Vec2;
use maze_chase::framebuffer::Framebuffer;
use maze_chase::maze::Maze;
use maze_chase::player::Player;
use maze_chase::render::composite_rect;
use maze_chase::render::correct_distance;
use maze_chase::render::render_world_with_textures_sprites_and_taylor;
use maze_chase::render::ColumnRay;
use maze_chase::render::SpriteShading;
use maze_chase::render::DEPTH_INF;
use maze_chase::sprites::SpriteManager;
use maze_chase::taylor_sprite::TaylorSprite;
use maze_chase::texture::ImageTexture;
use maze_chase::texture::Rgb;
use maze_chase::texture::TextureManager;

fn grid(rows: &[&str]) -> Maze {
    rows.iter().map(|r| r.chars().collect()).collect()
}

fn flat_texture(c: Rgb) -> ImageTexture {
    ImageTexture::new(2, 2, vec![c, c, c, c]).unwrap()
}

#[test]
fn corridor_ray_hits_end_wall_within_one_step() {
    // A straight corridor of four empty cells ending in a wall at cell 5:
    // the reported distance is the corridor length give or take one step.
    let maze = grid(&["++++++", "+    +", "++++++"]);
    let origin_x = 102400 + 51200;  // center of cell (1,1)
    let origin_y = 102400 + 51200;
    let hit = cast_ray(&maze, origin_x, origin_y, RAY_STEP, 0, 100);
    let expected = 5 * 102400 - origin_x;  // distance to the wall's near face
    assert!((hit.distance - expected).abs() <= RAY_STEP);
    assert_eq!(hit.impact, '+');
}

#[test]
fn ray_terminates_at_boundary_of_open_grid() {
    // A grid with no wall in the ray's way: the cast degrades to the
    // boundary sentinel instead of overrunning, within the distance cap.
    let maze = grid(&["   ", "   ", "   "]);
    let hit = cast_ray(&maze, 51200, 51200, RAY_STEP, 0, 100);
    assert_eq!(hit.impact, '+');
    assert!(hit.distance >= 0 && hit.distance <= MAX_RAY_DIST + RAY_STEP);
}

#[test]
fn empty_maze_gives_immediate_sentinel() {
    let maze: Maze = Vec::new();
    let hit = cast_ray(&maze, 51200, 51200, 0, RAY_STEP, 100);
    assert_eq!(hit.impact, '+');
    assert_eq!(hit.distance, 0);
}

#[test]
fn side_flag_distinguishes_struck_faces() {
    let maze = grid(&["+++", "+ +", "+++"]);
    // Straight along +x from the cell center: the hit lands on a vertical
    // cell edge, so the flag is set and the texture runs along y.
    let hit_v = cast_ray(&maze, 153600, 153600, RAY_STEP, 0, 100);
    assert!(hit_v.side);
    // Straight down: the hit lands on a horizontal edge, flag clear.
    let hit_h = cast_ray(&maze, 153600, 153600, 0, RAY_STEP, 100);
    assert!(!hit_h.side);
}

#[test]
fn corrected_distance_never_exceeds_raw() {
    assert_eq!(correct_distance(1000, 1024), 1000);
    assert_eq!(correct_distance(1000, 512), 500);
    assert_eq!(correct_distance(0, 700), 0);
    let raw = 204800;
    for cos in [1, 100, 512, 887, 1024] {
        assert!(correct_distance(raw, cos) <= raw);
    }
}

#[test]
fn sprite_pixel_drawn_iff_nearer_than_wall() {
    // A 2x2 frame with a hand-built depth buffer: the sprite at distance 100
    // must appear exactly where the wall is farther than 100.
    let mut fb = Framebuffer::new(2, 2);
    let z = vec![50, 150, 100, DEPTH_INF];
    let tex = flat_texture(Rgb { r: 200, g: 200, b: 200 });
    let sh = SpriteShading { dim_floor: 1024, glow: 1024, menacing: false, threshold: 15 };
    composite_rect(&mut fb, &z, &tex, 100, 0, 2, 0, 2, sh);
    let black = Rgb { r: 0, g: 0, b: 0 };
    assert_eq!(fb.data[0], black);  // wall at 50 is nearer: occluded
    assert_ne!(fb.data[1], black);  // wall at 150 is farther: drawn
    assert_eq!(fb.data[2], black);  // equal depth is not strictly nearer
    assert_ne!(fb.data[3], black);  // no wall: drawn
}

#[test]
fn transparent_texels_are_skipped() {
    let mut fb = Framebuffer::new(2, 1);
    let z = vec![DEPTH_INF, DEPTH_INF];
    let dark = flat_texture(Rgb { r: 5, g: 5, b: 5 });
    let sh = SpriteShading { dim_floor: 1024, glow: 1024, menacing: false, threshold: 15 };
    composite_rect(&mut fb, &z, &dark, 100, 0, 2, 0, 1, sh);
    assert_eq!(fb.data[0], Rgb { r: 0, g: 0, b: 0 });
    assert_eq!(fb.data[1], Rgb { r: 0, g: 0, b: 0 });
}

#[test]
fn full_frame_depth_buffer_matches_wall_coverage() {
    // A corridor viewed down its axis: every column's ray hits the end
    // wall, so the rows its slab covers carry the finite corrected distance
    // while the rows above and below stay at the sentinel depth.
    let maze = grid(&["++++++", "+    +", "++++++"]);
    let mut fb = Framebuffer::new(8, 64);
    let player = Player { pos: Vec2 { x: 153600, y: 153600 }, a: 0, fov: 1072 };
    let mut rays: Vec<ColumnRay> = Vec::new();
    for _ in 0..8 {
        rays.push(ColumnRay { step_x: RAY_STEP, step_y: 0, cos_off: 1024 });
    }
    let wall = flat_texture(Rgb { r: 120, g: 60, b: 40 });
    let tm = TextureManager::new(
        wall.clone(),
        flat_texture(Rgb { r: 1, g: 1, b: 1 }),
        flat_texture(Rgb { r: 2, g: 2, b: 2 }),
        flat_texture(Rgb { r: 0, g: 150, b: 0 }),
    );
    let sm = SpriteManager::new(Vec::new());
    let ts = TaylorSprite::new(flat_texture(Rgb { r: 250, g: 220, b: 180 }));
    let z = render_world_with_textures_sprites_and_taylor(
        &mut fb, &maze, 100, &player, 0, 1024, &rays, &tm, &sm, &ts,
        Vec2 { x: 153600, y: 153600 },
    );
    assert_eq!(z.len(), 8 * 64);
    // Every column used the same ray straight down the corridor.
    for c in 0..8 {
        let mid = 32 * 8 + c;
        assert!(z[mid] < DEPTH_INF);
        assert!(z[mid] > 0);
        assert_eq!(z[0 * 8 + c], DEPTH_INF);
        assert_eq!(z[63 * 8 + c], DEPTH_INF);
    }
}

#[test]
fn texture_sampling_clamps_to_edges() {
    let tex = ImageTexture::new(2, 1, vec![
        Rgb { r: 10, g: 0, b: 0 },
        Rgb { r: 20, g: 0, b: 0 },
    ]).unwrap();
    assert_eq!(tex.get_color(-5000, 0).r, 10);
    assert_eq!(tex.get_color(0, 0).r, 10);
    assert_eq!(tex.get_color(1024, 9999).r, 20);
}

#[test]
fn texture_rejects_mismatched_dimensions() {
    assert!(ImageTexture::new(2, 2, vec![Rgb { r: 0, g: 0, b: 0 }]).is_none());
    assert!(ImageTexture::new(0, 2, Vec::new()).is_none());
}

#[test]
fn exit_tile_gets_its_own_texture() {
    let wall = flat_texture(Rgb { r: 1, g: 1, b: 1 });
    let exit = flat_texture(Rgb { r: 9, g: 9, b: 9 });
    let tm = TextureManager::new(wall.clone(), wall.clone(), wall.clone(), exit);
    assert_eq!(tm.get_texture('E').data[0].r, 9);
    assert_eq!(tm.get_texture('+').data[0].r, 1);
    assert_eq!(tm.get_texture('1').data[0].r, 1);
    assert_eq!(tm.get_texture('?').data[0].r, 1);
}

#[test]
fn framebuffer_ignores_out_of_bounds_writes() {
    let mut fb = Framebuffer::new(2, 2);
    fb.set_current_color(Rgb { r: 7, g: 8, b: 9 });
    fb.set_pixel(1, 1);
    fb.set_pixel(5, 0);
    fb.set_pixel(0, 9);
    assert_eq!(fb.data[3], Rgb { r: 7, g: 8, b: 9 });
    assert_eq!(fb.data[0], Rgb { r: 0, g: 0, b: 0 });
    fb.set_background_color(Rgb { r: 1, g: 2, b: 3 });
    fb.clear();
    for p in &fb.data {
        assert_eq!(*p, Rgb { r: 1, g: 2, b: 3 });
    }
}

#[test]
fn antagonist_hidden_behind_wall_is_not_drawn() {
    // Player and antagonist in two pockets separated by a wall: the
    // line-of-sight ray hits the wall first, so nothing is drawn.
    let maze = grid(&["+++++", "+ + +", "+++++"]);
    let player = Player { pos: Vec2 { x: 153600, y: 153600 }, a: 0, fov: 1072 };
    let ts = TaylorSprite::new(flat_texture(Rgb { r: 250, g: 220, b: 180 }));
    let taylor_pos = Vec2 { x: 3 * 102400 + 51200, y: 153600 };
    assert!(!ts.is_visible_from_player(taylor_pos, &player, &maze, 100));
    let mut fb = Framebuffer::new(4, 4);
    let z = vec![DEPTH_INF; 16];
    let before = fb.data.clone();
    ts.render_3d(&mut fb, taylor_pos, &player, 0, 1024, &z, &maze, 100);
    assert_eq!(fb.data, before);
}

#[test]
fn distance_dimming_darkens_far_sprites() {
    // At distance 300 world units the dim factor is 1 - 300/600 = one half.
    let mut fb = Framebuffer::new(1, 1);
    let z = vec![DEPTH_INF];
    let tex = flat_texture(Rgb { r: 200, g: 100, b: 60 });
    let sh = SpriteShading { dim_floor: 307, glow: 1024, menacing: false, threshold: 15 };
    composite_rect(&mut fb, &z, &tex, 300 * 1024, 0, 1, 0, 1, sh);
    assert_eq!(fb.data[0], Rgb { r: 100, g: 50, b: 30 });
    // Far beyond the falloff the floor of 0.3 holds.
    let mut fb2 = Framebuffer::new(1, 1);
    composite_rect(&mut fb2, &z, &tex, 700 * 1024, 0, 1, 0, 1, sh);
    assert_eq!(fb2.data[0].r as u32, 200 * 307 / 1024);
}

#[test]
fn menacing_tint_shifts_toward_red() {
    let mut fb = Framebuffer::new(1, 1);
    let z = vec![DEPTH_INF];
    let tex = flat_texture(Rgb { r: 100, g: 5, b: 200 });
    let sh = SpriteShading { dim_floor: 1024, glow: 1024, menacing: true, threshold: 2 };
    composite_rect(&mut fb, &z, &tex, 100, 0, 1, 0, 1, sh);
    // Red raised by 50, green lifted to the floor of 20, blue kept.
    assert_eq!(fb.data[0], Rgb { r: 150, g: 20, b: 200 });
}

#[test]
fn glow_brightens_and_saturates() {
    let mut fb = Framebuffer::new(1, 1);
    let z = vec![DEPTH_INF];
    let tex = flat_texture(Rgb { r: 240, g: 100, b: 0 });
    let sh = SpriteShading { dim_floor: 1024, glow: 1178, menacing: false, threshold: 15 };
    composite_rect(&mut fb, &z, &tex, 100, 0, 1, 0, 1, sh);
    assert_eq!(fb.data[0].r, 255);  // 240 * 1.15 saturates
    assert_eq!(fb.data[0].g as u32, 100 * 1178 / 1024);
}

#[test]
fn side_hits_are_shaded_darker() {
    // Same wall texture struck on a vertical and a horizontal face: the
    // vertical-face column is darkened by the fixed lighting factor.
    let maze = grid(&["+++", "+ +", "+++"]);
    let mut fb = Framebuffer::new(1, 16);
    let player = Player { pos: Vec2 { x: 153600, y: 153600 }, a: 0, fov: 1072 };
    let wall = flat_texture(Rgb { r: 200, g: 100, b: 50 });
    let tm = TextureManager::new(
        wall.clone(), wall.clone(), wall.clone(), wall.clone(),
    );
    let sm = SpriteManager::new(Vec::new());
    let ts = TaylorSprite::new(flat_texture(Rgb { r: 0, g: 0, b: 0 }));
    let rays_v = vec![ColumnRay { step_x: RAY_STEP, step_y: 0, cos_off: 1024 }];
    render_world_with_textures_sprites_and_taylor(
        &mut fb, &maze, 100, &player, 0, 1024, &rays_v, &tm, &sm, &ts,
        Vec2 { x: 153600, y: 153600 },
    );
    let mid_v = fb.data[8];
    assert_eq!(mid_v, Rgb { r: 140, g: 70, b: 35 });
    let mut fb_h = Framebuffer::new(1, 16);
    let rays_h = vec![ColumnRay { step_x: 0, step_y: RAY_STEP, cos_off: 1024 }];
    render_world_with_textures_sprites_and_taylor(
        &mut fb_h, &maze, 100, &player, 0, 1024, &rays_h, &tm, &sm, &ts,
        Vec2 { x: 153600, y: 153600 },
    );
    assert_eq!(fb_h.data[8], Rgb { r: 200, g: 100, b: 50 });
}

#[test]
fn ragged_rows_degrade_to_boundary() {
    // A short second row: marching past its end is out of grid, never an
    // index panic.
    let maze = grid(&["++++++", "+ ", "++++++"]);
    let hit = cast_ray(&maze, 153600, 153600, RAY_STEP, 0, 100);
    assert_eq!(hit.impact, '+');
    assert!(hit.distance > 0);
}

#[test]
fn antagonist_in_open_room_is_visible() {
    let maze = grid(&["++++++", "+    +", "++++++"]);
    let player = Player { pos: Vec2 { x: 153600, y: 153600 }, a: 0, fov: 1072 };
    let ts = TaylorSprite::new(flat_texture(Rgb { r: 250, g: 220, b: 180 }));
    let taylor_pos = Vec2 { x: 4 * 102400 + 51200, y: 153600 };
    assert!(ts.is_visible_from_player(taylor_pos, &player, &maze, 100));
}
