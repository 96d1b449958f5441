//! The antagonist's billboard: animation state, a line-of-sight check that
//! re-casts one ray toward the antagonist before drawing, the depth-tested
//! billboard itself with the menacing tint, and the proximity aura overlay.

use vstd::prelude::*;
use crate::caster::cast_ray;
use crate::caster::spec_cast;
use crate::fixed::FP_ONE;
use crate::fixed::Vec2;
use crate::fixed::atan_fp;
use crate::fixed::is_isqrt;
use crate::fixed::isqrt;
use crate::fixed::lemma_isqrt_unique;
use crate::fixed::spec_atan2_pos;
use crate::fixed::lemma_scale_le;
use crate::fixed::mul_fp;
use crate::fixed::scale;
use crate::fixed::spec_scale;
use crate::framebuffer::Framebuffer;
use crate::maze::Maze;
use crate::player::Player;
use crate::render::SpriteShading;
use crate::render::composite_rect;
use crate::render::spec_cam_forward;
use crate::render::spec_cam_lateral;
use crate::render::sprite_cell_done;
use crate::texture::ImageTexture;
use crate::texture::Rgb;

verus! {

/// The aura overlay color.
pub open spec fn aura_red() -> Rgb {
    Rgb { r: 255, g: 0, b: 0 }
}

/// The pursuing antagonist's visual state.
pub struct TaylorSprite {
    pub texture: ImageTexture,
    pub animation_timer: i64,
    pub menacing_mode: bool,
}

impl TaylorSprite {
    /// Wrap an already-loaded portrait texture.
    pub fn new(texture: ImageTexture) -> (r: Self)
        ensures
            r.texture == texture,
            r.animation_timer == 0,
            !r.menacing_mode,
    {
        Self { texture, animation_timer: 0, menacing_mode: false }
    }

    /// Advance the animation timer; menace flares up near the player and
    /// blinks on a one-second cycle otherwise.
    pub fn update(&mut self, delta_time: i64, distance_to_player: i64)
        requires
            0 <= delta_time <= 0x10000,
            0 <= old(self).animation_timer <= 0x40000000,
        ensures
            final(self).texture == old(self).texture,
            final(self).animation_timer == old(self).animation_timer + delta_time,
            final(self).menacing_mode == (distance_to_player < 204800
                || (old(self).animation_timer + delta_time) % (FP_ONE as int)
                    < FP_ONE / 2),
    {
        self.animation_timer = self.animation_timer + delta_time;
        let cycle: i64 = ((self.animation_timer as u64) % 1024) as i64;
        self.menacing_mode = distance_to_player < 204800 || cycle < 512;
    }

    /// Line of sight: cast one ray from the camera straight at the
    /// antagonist and compare the wall distance with the antagonist's
    /// distance (with a 20-unit tolerance). A wall strictly closer hides
    /// the antagonist entirely; a zero distance is trivially visible.
    pub fn is_visible_from_player(&self, taylor_pos: Vec2, player: &Player,
        maze: &Maze, block_size: usize) -> (r: bool)
        requires
            0 < block_size <= 0x10000,
            -0x10000000 <= taylor_pos.x <= 0x10000000,
            -0x10000000 <= taylor_pos.y <= 0x10000000,
            -0x10000000 <= player.pos.x <= 0x10000000,
            -0x10000000 <= player.pos.y <= 0x10000000,
        ensures
            ({
                let dx = taylor_pos.x - player.pos.x;
                let dy = taylor_pos.y - player.pos.y;
                let dsq = dx * dx + dy * dy;
                if dsq == 0 {
                    r == true
                } else {
                    exists|d: int| #[trigger] is_isqrt(d, dsq) && ({
                        let sx = spec_scale(dx, 512, d);
                        let sy = spec_scale(dy, 512, d);
                        r == (spec_cast(maze@, player.pos.x as int, player.pos.y as int,
                            sx, sy, block_size as int * (FP_ONE as int)).distance
                            >= d - 20480)
                    })
                }
            }),
    {
        let dx: i64 = taylor_pos.x - player.pos.x;
        let dy: i64 = taylor_pos.y - player.pos.y;
        proof {
            assert(0 <= dx * dx <= 0x20000000 * 0x20000000) by (nonlinear_arith)
                requires -0x20000000 <= dx <= 0x20000000;
            assert(0 <= dy * dy <= 0x20000000 * 0x20000000) by (nonlinear_arith)
                requires -0x20000000 <= dy <= 0x20000000;
        }
        let dsq: i64 = dx * dx + dy * dy;
        if dsq == 0 {
            return true;
        }
        let dist: i64 = isqrt(dsq as u64) as i64;
        proof {
            assert(dist >= 1) by (nonlinear_arith)
                requires
                    (dsq as int) < ((dist as int) + 1) * ((dist as int) + 1),
                    1 <= dsq as int,
                    0 <= dist as int;
            assert(dx * dx <= dsq) by (nonlinear_arith)
                requires dsq == dx * dx + dy * dy, 0 <= dy * dy;
            assert(dy * dy <= dsq) by (nonlinear_arith)
                requires dsq == dx * dx + dy * dy, 0 <= dx * dx;
            assert(-dist <= dx <= dist) by (nonlinear_arith)
                requires dx * dx <= dsq, dsq < (dist + 1) * (dist + 1), 0 <= dist;
            assert(-dist <= dy <= dist) by (nonlinear_arith)
                requires dy * dy <= dsq, dsq < (dist + 1) * (dist + 1), 0 <= dist;
            lemma_scale_le(dx as int, 512, dist as int, 1);
            lemma_scale_le(dy as int, 512, dist as int, 1);
            assert(is_isqrt(dist as int, dsq as int));
        }
        let sx: i64 = scale(dx, 512, dist);
        let sy: i64 = scale(dy, 512, dist);
        let intersect = cast_ray(maze, player.pos.x, player.pos.y, sx, sy, block_size);
        intersect.distance >= dist - 20480
    }

    /// Draw the antagonist as a depth-tested billboard, but only when it is
    /// within range, in front of the camera, on screen, and not hidden
    /// behind a wall by the line-of-sight ray; overlay the proximity aura
    /// when it is very close. Every pixel this call changes either lies strictly
    /// in front of the wall recorded in the depth buffer or carries the
    /// aura color.
    pub fn render_3d(&self, fb: &mut Framebuffer, taylor_pos: Vec2, player: &Player,
        facing_sin: i64, facing_cos: i64, z_buffer: &Vec<i64>, maze: &Maze,
        block_size: usize)
        requires
            old(fb).wf(),
            z_buffer@.len() == old(fb).width * old(fb).height,
            self.texture.wf(),
            0 < block_size <= 0x10000,
            -0x10000000 <= taylor_pos.x <= 0x10000000,
            -0x10000000 <= taylor_pos.y <= 0x10000000,
            -0x10000000 <= player.pos.x <= 0x10000000,
            -0x10000000 <= player.pos.y <= 0x10000000,
            -FP_ONE <= facing_sin <= FP_ONE,
            -FP_ONE <= facing_cos <= FP_ONE,
            64 <= player.fov <= 6434,
        ensures
            final(fb).wf(),
            final(fb).width == old(fb).width,
            final(fb).height == old(fb).height,
            final(fb).current_color == old(fb).current_color,
            final(fb).background_color == old(fb).background_color,
            final(fb).data@.len() == old(fb).data@.len(),
            forall|idx: int| 0 <= idx < final(fb).data@.len()
                && final(fb).data@[idx] != old(fb).data@[idx]
                ==> (exists|d: int| #[trigger] is_isqrt(d,
                        (taylor_pos.x - player.pos.x) * (taylor_pos.x - player.pos.x)
                        + (taylor_pos.y - player.pos.y)
                            * (taylor_pos.y - player.pos.y))
                    && d < z_buffer@[idx])
                    || final(fb).data@[idx] == aura_red(),
            spec_cam_forward(taylor_pos.x - player.pos.x, taylor_pos.y - player.pos.y,
                facing_sin as int, facing_cos as int) <= 10240
                ==> final(fb).data@ == old(fb).data@,
            (taylor_pos.x - player.pos.x) * (taylor_pos.x - player.pos.x)
                + (taylor_pos.y - player.pos.y) * (taylor_pos.y - player.pos.y) == 0
                ==> final(fb).data@ == old(fb).data@,
            (exists|d: int| #[trigger] is_isqrt(d,
                    (taylor_pos.x - player.pos.x) * (taylor_pos.x - player.pos.x)
                    + (taylor_pos.y - player.pos.y) * (taylor_pos.y - player.pos.y))
                && (d < 30720 || d > 1024000))
                ==> final(fb).data@ == old(fb).data@,
            (exists|d: int| #[trigger] is_isqrt(d,
                    (taylor_pos.x - player.pos.x) * (taylor_pos.x - player.pos.x)
                    + (taylor_pos.y - player.pos.y) * (taylor_pos.y - player.pos.y))
                && 30720 <= d <= 1024000
                && spec_cast(maze@, player.pos.x as int, player.pos.y as int,
                    spec_scale(taylor_pos.x - player.pos.x, 512, d),
                    spec_scale(taylor_pos.y - player.pos.y, 512, d),
                    block_size as int * (FP_ONE as int)).distance < d - 20480)
                ==> final(fb).data@ == old(fb).data@,
            ({
                let w = old(fb).width as int;
                let h = old(fb).height as int;
                let dx = taylor_pos.x - player.pos.x;
                let dy = taylor_pos.y - player.pos.y;
                let dsq = dx * dx + dy * dy;
                let txv = spec_cam_lateral(dx, dy, facing_sin as int, facing_cos as int);
                let tyv = spec_cam_forward(dx, dy, facing_sin as int, facing_cos as int);
                forall|d: int| #[trigger] is_isqrt(d, dsq) && ({
                    let hh = h / 2;
                    let adj = hh * 450 * (FP_ONE as int) / d;
                    let sxp = w / 2 + spec_scale(spec_atan2_pos(txv, tyv), w,
                        player.fov as int);
                    let sw = adj * 3 / 5;
                    let x0 = sxp - sw / 2;
                    let x1 = sxp + sw / 2;
                    let y0 = if hh - adj / 2 > 0 { hh - adj / 2 } else { 0int };
                    let y1 = if hh + adj / 2 < h { hh + adj / 2 } else { h };
                    d > 0 && tyv > 10240
                        && (x0 >= w || x1 < 0 || y0 >= h || y1 < 0)
                }) ==> final(fb).data@ == old(fb).data@
            }),
            ({
                let w = old(fb).width as int;
                let h = old(fb).height as int;
                let bfp = block_size as int * (FP_ONE as int);
                let dx = taylor_pos.x - player.pos.x;
                let dy = taylor_pos.y - player.pos.y;
                let dsq = dx * dx + dy * dy;
                let txv = spec_cam_lateral(dx, dy, facing_sin as int, facing_cos as int);
                let tyv = spec_cam_forward(dx, dy, facing_sin as int, facing_cos as int);
                dsq > 0 ==> exists|d: int| #[trigger] is_isqrt(d, dsq) && ({
                    let visible = spec_cast(maze@, player.pos.x as int,
                        player.pos.y as int, spec_scale(dx, 512, d),
                        spec_scale(dy, 512, d), bfp).distance >= d - 20480;
                    let hh = h / 2;
                    let adj = hh * 450 * (FP_ONE as int) / d;
                    let sxp = w / 2 + spec_scale(spec_atan2_pos(txv, tyv), w,
                        player.fov as int);
                    let sw = adj * 3 / 5;
                    let x0 = sxp - sw / 2;
                    let x1 = sxp + sw / 2;
                    let y0 = if hh - adj / 2 > 0 { hh - adj / 2 } else { 0int };
                    let y1 = if hh + adj / 2 < h { hh + adj / 2 } else { h };
                    (30720 <= d <= 1024000 && visible && tyv > 10240
                        && !(x0 >= w || x1 < 0 || y0 >= h || y1 < 0) && d >= 102400)
                        ==> forall|x: int, y: int| 0 <= x < w && 0 <= y < h
                            ==> #[trigger] sprite_cell_done(&self.texture, d, x0, x1,
                                y0, y1,
                                SpriteShading {
                                    dim_floor: 409,
                                    glow: FP_ONE,
                                    menacing: self.menacing_mode,
                                    threshold: 10,
                                },
                                w, h, x, y, z_buffer@, old(fb).data@, final(fb).data@)
                })
            }),
    {
        let dx: i64 = taylor_pos.x - player.pos.x;
        let dy: i64 = taylor_pos.y - player.pos.y;
        proof {
            assert(0 <= dx * dx <= 0x20000000 * 0x20000000) by (nonlinear_arith)
                requires -0x20000000 <= dx <= 0x20000000;
            assert(0 <= dy * dy <= 0x20000000 * 0x20000000) by (nonlinear_arith)
                requires -0x20000000 <= dy <= 0x20000000;
        }
        let dsq: i64 = dx * dx + dy * dy;
        if dsq == 0 {
            return;
        }
        let distance: i64 = isqrt(dsq as u64) as i64;
        proof {
            assert(distance <= 0x40000000) by (nonlinear_arith)
                requires
                    (distance as int) * (distance as int) <= dsq as int,
                    dsq <= 0x800000000000000,
                    0 <= distance as int;
            assert(is_isqrt(distance as int, dsq as int));
        }

        if distance < 30720 || distance > 1024000 {
            return;
        }
        let visible_now = self.is_visible_from_player(taylor_pos, player, maze,
            block_size);
        proof {
            let d0 = choose|d0: int| #[trigger] is_isqrt(d0, dx * dx + dy * dy)
                && ({
                    let sx = spec_scale(dx as int, 512, d0);
                    let sy = spec_scale(dy as int, 512, d0);
                    visible_now == (spec_cast(maze@, player.pos.x as int,
                        player.pos.y as int, sx, sy,
                        block_size as int * (FP_ONE as int)).distance >= d0 - 20480)
                });
            lemma_isqrt_unique(d0, distance as int, dx * dx + dy * dy);
        }
        if !visible_now {
            return;
        }

        let transformed_x: i64 = mul_fp(-dx, facing_sin) + mul_fp(dy, facing_cos);
        let transformed_y: i64 = mul_fp(dx, facing_cos) + mul_fp(dy, facing_sin);
        if transformed_y <= 10240 {
            return;
        }

        let w: i64 = fb.width as i64;
        let h: i64 = fb.height as i64;
        let hh: i64 = h / 2;
        let adj: i64 = ((((hh as u64) * 450) * 1024) / (distance as u64)) as i64;
        let angle: i64 = atan_fp(transformed_x, transformed_y);
        proof {
            assert(1664 <= 26 * player.fov);
            lemma_scale_le(angle as int, w as int, player.fov as int, 26);
        }
        let screen_x: i64 = w / 2 + scale(angle, w, player.fov);
        let sw: i64 = ((adj as u64) * 3 / 5) as i64;
        let x0: i64 = screen_x - sw / 2;
        let x1: i64 = screen_x + sw / 2;
        let y0: i64 = if hh - adj / 2 > 0 { hh - adj / 2 } else { 0 };
        let y1: i64 = if hh + adj / 2 < h { hh + adj / 2 } else { h };

        if x0 >= w || x1 < 0 || y0 >= h || y1 < 0 {
            return;
        }

        proof {
            // The square root of the squared distance is unique, so every
            // cull clause of the contract is settled by the one witness.
            assert forall|d: int| #[trigger] is_isqrt(d, dsq as int)
                implies d == distance as int by {
                lemma_isqrt_unique(d, distance as int, dsq as int);
            }
        }

        let sh = SpriteShading {
            dim_floor: 409,  // 0.4, fixed-point
            glow: FP_ONE,
            menacing: self.menacing_mode,
            threshold: 10,
        };
        let ghost fb0 = fb.data@;
        composite_rect(fb, z_buffer, &self.texture, distance, x0, x1, y0, y1, sh);
        proof {
            let wi = w as int;
            let hi = h as int;
            assert forall|idx: int| 0 <= idx < fb.data@.len()
                && fb.data@[idx] != fb0[idx]
                implies (distance as int) < z_buffer@[idx] by {
                let px = idx % wi;
                let py = idx / wi;
                assert(0 < wi) by (nonlinear_arith)
                    requires 0 <= idx < wi * hi, 0 <= wi;
                vstd::arithmetic::div_mod::lemma_fundamental_div_mod(idx, wi);
                assert(idx == py * wi + px && 0 <= px < wi && 0 <= py < hi)
                    by (nonlinear_arith)
                    requires
                        0 <= idx < wi * hi,
                        idx == wi * (idx / wi) + idx % wi,
                        0 <= idx % wi < wi,
                        px == idx % wi,
                        py == idx / wi,
                        0 < wi;
                assert(sprite_cell_done(&self.texture, distance as int, x0 as int,
                    x1 as int, y0 as int, y1 as int, sh, wi, hi, px, py, z_buffer@,
                    fb0, fb.data@));
            }
        }

        if distance < 102400 {
            self.render_menacing_aura(fb, x0, x1, y0, y1, distance);
        }
    }

    /// The proximity aura: a sparse red overlay around (but not inside) the
    /// antagonist's rectangle. Every pixel it touches becomes the aura
    /// color.
    fn render_menacing_aura(&self, fb: &mut Framebuffer, start_x: i64, end_x: i64,
        start_y: i64, end_y: i64, distance: i64)
        requires
            old(fb).wf(),
            -0x200000000 <= start_x <= 0x200000000,
            -0x200000000 <= end_x <= 0x200000000,
            -0x200000000 <= start_y <= 0x200000000,
            -0x200000000 <= end_y <= 0x200000000,
        ensures
            final(fb).wf(),
            final(fb).width == old(fb).width,
            final(fb).height == old(fb).height,
            final(fb).current_color == old(fb).current_color,
            final(fb).background_color == old(fb).background_color,
            final(fb).data@.len() == old(fb).data@.len(),
            forall|idx: int| 0 <= idx < final(fb).data@.len()
                && #[trigger] final(fb).data@[idx] != old(fb).data@[idx]
                ==> final(fb).data@[idx] == aura_red(),
    {
        let expand: i64 = 5;
        let w: i64 = fb.width as i64;
        let h: i64 = fb.height as i64;
        let mut y: i64 = start_y - expand;
        while y < end_y + expand
            invariant
                fb.wf(),
                fb.width == old(fb).width,
                fb.height == old(fb).height,
                fb.current_color == old(fb).current_color,
                fb.background_color == old(fb).background_color,
                fb.data@.len() == old(fb).data@.len(),
                w == fb.width as int,
                h == fb.height as int,
                expand == 5,
                -0x200000000 <= start_x <= 0x200000000,
                -0x200000000 <= end_x <= 0x200000000,
                -0x200000000 <= start_y <= 0x200000000,
                -0x200000000 <= end_y <= 0x200000000,
                start_y - 5 <= y <= end_y + 5 || y == start_y - 5,
                forall|idx: int| 0 <= idx < fb.data@.len()
                    && #[trigger] fb.data@[idx] != old(fb).data@[idx]
                    ==> fb.data@[idx] == aura_red(),
            decreases end_y + expand - y,
        {
            let mut x: i64 = start_x - expand;
            while x < end_x + expand
                invariant
                    fb.wf(),
                    fb.width == old(fb).width,
                    fb.height == old(fb).height,
                    fb.current_color == old(fb).current_color,
                    fb.background_color == old(fb).background_color,
                    fb.data@.len() == old(fb).data@.len(),
                    w == fb.width as int,
                    h == fb.height as int,
                    expand == 5,
                    -0x200000000 <= start_x <= 0x200000000,
                    -0x200000000 <= end_x <= 0x200000000,
                    -0x200000000 <= start_y <= 0x200000000,
                    -0x200000000 <= end_y <= 0x200000000,
                    start_x - 5 <= x <= end_x + 5 || x == start_x - 5,
                    start_y - 5 <= y < end_y + 5,
                    forall|idx: int| 0 <= idx < fb.data@.len()
                        && #[trigger] fb.data@[idx] != old(fb).data@[idx]
                        ==> fb.data@[idx] == aura_red(),
                decreases end_x + expand - x,
            {
                if x >= 0 && x < w && y >= 0 && y < h {
                    if (x < start_x || x >= end_x || y < start_y || y >= end_y)
                        && ((x + y) as u64) % 3 == 0 {
                        proof {
                            assert((y as int) * w + x < w * h
                                && 0 <= (y as int) * w + x
                                && w * h <= 0x8000 * 0x8000) by (nonlinear_arith)
                                requires
                                    0 <= x < w,
                                    0 <= y < h,
                                    w <= 0x8000,
                                    h <= 0x8000;
                        }
                        let idx: usize = (y as usize) * (w as usize) + (x as usize);
                        fb.data.set(idx, Rgb { r: 255, g: 0, b: 0 });
                    }
                }
                x = x + 1;
            }
            y = y + 1;
        }
    }
}

} // verus!
