//! The projection renderer: one ray per screen column, fisheye-corrected
//! perspective projection of the hit into a vertical wall slab, textured and
//! shaded, with every wall pixel's corrected distance recorded in the depth
//! buffer.
//!
//! Trigonometry happens outside the engine: a caller hands in, per column,
//! the ray's per-step displacement and the cosine of the ray's angular
//! offset from the view axis (see [`ColumnRay`]).

use vstd::prelude::*;
use crate::caster::Intersect;
use crate::caster::MAX_RAY_DIST;
use crate::caster::RAY_STEP;
use crate::caster::cast_ray;
use crate::caster::spec_cast;
use crate::fixed::FP_ONE;
use crate::fixed::scale;
use crate::fixed::spec_scale;
use crate::fixed::Vec2;
use crate::fixed::atan_fp;
use crate::fixed::is_isqrt;
use crate::fixed::isqrt;
use crate::fixed::mul_fp;
use crate::fixed::sin_fp;
use crate::fixed::spec_atan2_pos;
use crate::fixed::spec_mul_fp;
use crate::fixed::spec_sin;
use crate::framebuffer::Framebuffer;
use crate::maze::Maze;
use crate::player::Player;
use crate::sprites::Sprite;
use crate::sprites::SpriteManager;
use crate::taylor_sprite::TaylorSprite;
use crate::taylor_sprite::aura_red;
use crate::texture::ImageTexture;
use crate::texture::Rgb;
use crate::texture::TextureManager;
use crate::texture::spec_texture_for;

verus! {

/// The depth recorded where no wall was drawn: farther than any distance
/// the engine can produce.
pub const DEPTH_INF: i64 = 0x7fffffffffffffff;

/// One screen column's precomputed ray: the per-step displacement of the
/// march (the ray direction scaled by [`RAY_STEP`]) and the cosine of the
/// ray's angular offset from the view axis, fixed-point. The cosine is
/// positive because every column lies within the field of view's half-angle
/// of the view axis, itself under a quarter turn.
#[derive(Clone, Copy, Debug)]
pub struct ColumnRay {
    pub step_x: i64,
    pub step_y: i64,
    pub cos_off: i64,
}

/// A usable column ray: step within one march step, offset cosine in (0, 1].
pub open spec fn ray_wf(r: ColumnRay) -> bool {
    &&& -RAY_STEP <= r.step_x <= RAY_STEP
    &&& -RAY_STEP <= r.step_y <= RAY_STEP
    &&& 0 < r.cos_off <= FP_ONE
}

/// Remove the fisheye distortion: project the raw march distance onto the
/// view plane by the cosine of the ray's offset from the view axis. The
/// result never exceeds the raw distance, since the cosine factor lies in
/// (0, 1].
pub fn correct_distance(raw: i64, cos_off: i64) -> (r: i64)
    requires
        0 <= raw <= MAX_RAY_DIST + RAY_STEP,
        0 < cos_off <= FP_ONE,
    ensures
        r == spec_scale(raw as int, cos_off as int, FP_ONE as int),
        0 <= r <= raw,
{
    proof {
        assert(raw * cos_off <= raw * 1024) by (nonlinear_arith)
            requires 0 <= raw, cos_off <= 1024;
        crate::fixed::lemma_scale_le(raw as int, cos_off as int, FP_ONE as int,
            raw as int);
        assert((raw as int) * 1024 / 1024 == raw as int);
    }
    scale(raw, cos_off, FP_ONE)
}

/// The background color of a screen pixel: a sky gradient above the
/// midline, a dark checker below it.
pub open spec fn spec_background_pixel(x: int, y: int, h: int) -> Rgb {
    let hh = h / 2;
    if y < hh {
        Rgb {
            r: (20 + 30 * y / hh) as u8,
            g: (20 + 50 * y / hh) as u8,
            b: (40 + 80 * y / hh) as u8,
        }
    } else {
        if ((x / 4) + (y / 4)) % 2 == 0 {
            Rgb { r: 40, g: 20, b: 20 }
        } else {
            Rgb { r: 35, g: 18, b: 18 }
        }
    }
}

/// The wall hit of one column's ray.
pub open spec fn col_hit(m: Seq<Vec<char>>, ox: int, oy: int, ray: ColumnRay,
    block_fp: int) -> Intersect
{
    spec_cast(m, ox, oy, ray.step_x as int, ray.step_y as int, block_fp)
}

/// The fisheye-corrected wall distance of one column.
pub open spec fn col_corrected(m: Seq<Vec<char>>, ox: int, oy: int, ray: ColumnRay,
    block_fp: int) -> int
{
    spec_scale(col_hit(m, ox, oy, ray, block_fp).distance as int, ray.cos_off as int,
        FP_ONE as int)
}

/// The vertical pixel extent [top, bottom) of a wall slab at corrected
/// distance `corr` on a screen of height `h`: height inversely proportional
/// to the distance, centered on the midline, clamped to the screen; a
/// corrected distance of zero fills the whole column.
pub open spec fn spec_slab_top(corr: int, h: int) -> int {
    let hh = h / 2;
    if corr <= 0 {
        0
    } else {
        let adj = hh * 325 * (FP_ONE as int) / (2 * corr);
        if hh - adj / 2 > 0 { hh - adj / 2 } else { 0 }
    }
}

/// See [`spec_slab_top`].
pub open spec fn spec_slab_bottom(corr: int, h: int) -> int {
    let hh = h / 2;
    if corr <= 0 {
        h
    } else {
        let adj = hh * 325 * (FP_ONE as int) / (2 * corr);
        if hh + adj / 2 < h { hh + adj / 2 } else { h }
    }
}

/// The horizontal texture coordinate of a wall hit: the fractional position
/// of the hit within its cell, along the axis picked by the struck face.
pub open spec fn spec_wall_tex_x(hit: Intersect, block_fp: int) -> int {
    let hcoord = if hit.side { hit.hit_y as int } else { hit.hit_x as int };
    if hcoord < 0 {
        0
    } else {
        (hcoord % block_fp) * (FP_ONE as int) / block_fp
    }
}

/// The vertical texture coordinate of pixel row `y` within a slab.
pub open spec fn spec_tex_y(y: int, top: int, bottom: int) -> int {
    if bottom > top { (y - top) * (FP_ONE as int) / (bottom - top) } else { 0 }
}

/// Darken one face orientation to fake directional lighting.
pub open spec fn spec_shade(c: Rgb, side: bool) -> Rgb {
    if side {
        Rgb {
            r: (c.r * 7 / 10) as u8,
            g: (c.g * 7 / 10) as u8,
            b: (c.b * 7 / 10) as u8,
        }
    } else {
        c
    }
}

/// The color the wall pass writes at row `y` of one column.
pub open spec fn spec_wall_pixel(m: Seq<Vec<char>>, tm: &TextureManager, ox: int,
    oy: int, ray: ColumnRay, block_fp: int, y: int, h: int) -> Rgb
{
    let hit = col_hit(m, ox, oy, ray, block_fp);
    let corr = col_corrected(m, ox, oy, ray, block_fp);
    let top = spec_slab_top(corr, h);
    let bottom = spec_slab_bottom(corr, h);
    let tex = spec_texture_for(tm, hit.impact);
    let tx = spec_wall_tex_x(hit, block_fp);
    let ty = spec_tex_y(y, top, bottom);
    spec_shade(tex.spec_color_at(tx, ty), hit.side)
}

/// Row `y` of this column is covered by its wall slab.
pub open spec fn col_covers(m: Seq<Vec<char>>, ox: int, oy: int, ray: ColumnRay,
    block_fp: int, h: int, y: int) -> bool
{
    let corr = col_corrected(m, ox, oy, ray, block_fp);
    spec_slab_top(corr, h) <= y < spec_slab_bottom(corr, h)
}

/// Row-major pixel indices are injective and in range.
proof fn lemma_pixel_index(w: int, h: int, c1: int, y1: int, c2: int, y2: int)
    requires
        0 <= c1 < w,
        0 <= c2 < w,
        0 <= y1 < h,
        0 <= y2 < h,
    ensures
        (y1 * w + c1 == y2 * w + c2) <==> (c1 == c2 && y1 == y2),
        0 <= y1 * w + c1 < w * h,
        0 <= y2 * w + c2 < w * h,
{
    assert(((y1 * w + c1 == y2 * w + c2) <==> (c1 == c2 && y1 == y2))
        && 0 <= y1 * w + c1 < w * h && 0 <= y2 * w + c2 < w * h)
        by (nonlinear_arith)
        requires 0 <= c1 < w, 0 <= c2 < w, 0 <= y1 < h, 0 <= y2 < h;
}

/// Fill the whole frame with the background: sky gradient over the upper
/// half, checkered floor over the lower.
pub fn fill_background(fb: &mut Framebuffer)
    requires
        old(fb).wf(),
        old(fb).height >= 2,
    ensures
        final(fb).wf(),
        final(fb).width == old(fb).width,
        final(fb).height == old(fb).height,
        final(fb).current_color == old(fb).current_color,
        final(fb).background_color == old(fb).background_color,
        final(fb).data@.len() == old(fb).data@.len(),
        forall|x: int, y: int| 0 <= x < old(fb).width && 0 <= y < old(fb).height
            ==> final(fb).data@[y * old(fb).width + x]
                == spec_background_pixel(x, y, old(fb).height as int),
{
    let w: usize = fb.width as usize;
    let h: usize = fb.height as usize;
    let hh: usize = h / 2;
    let mut y: usize = 0;
    while y < h
        invariant
            fb.wf(),
            fb.width == old(fb).width,
            fb.height == old(fb).height,
            fb.current_color == old(fb).current_color,
            fb.background_color == old(fb).background_color,
            fb.data@.len() == old(fb).data@.len(),
            w == fb.width as int,
            h == fb.height as int,
            h >= 2,
            hh == h / 2,
            y <= h,
            forall|xx: int, yy: int| 0 <= xx < w && 0 <= yy < y
                ==> fb.data@[yy * w + xx]
                    == spec_background_pixel(xx, yy, h as int),
        decreases h - y,
    {
        let color: Rgb = if y < hh {
            Rgb {
                r: (20 + 30 * (y as u64) / (hh as u64)) as u8,
                g: (20 + 50 * (y as u64) / (hh as u64)) as u8,
                b: (40 + 80 * (y as u64) / (hh as u64)) as u8,
            }
        } else {
            Rgb { r: 0, g: 0, b: 0 }
        };
        proof {
            if y < hh {
                vstd::arithmetic::div_mod::lemma_fundamental_div_mod(
                    30 * (y as int), hh as int);
                vstd::arithmetic::div_mod::lemma_fundamental_div_mod(
                    50 * (y as int), hh as int);
                vstd::arithmetic::div_mod::lemma_fundamental_div_mod(
                    80 * (y as int), hh as int);
                assert(30 * (y as int) / (hh as int) <= 30 && 50 * (y as int) / (
                hh as int) <= 50 && 80 * (y as int) / (hh as int) <= 80)
                    by (nonlinear_arith)
                    requires
                        0 <= y < hh,
                        30 * (y as int) == (hh as int) * (30 * (y as int) / (hh as int))
                            + (30 * (y as int)) % (hh as int),
                        0 <= (30 * (y as int)) % (hh as int) < hh as int,
                        50 * (y as int) == (hh as int) * (50 * (y as int) / (hh as int))
                            + (50 * (y as int)) % (hh as int),
                        0 <= (50 * (y as int)) % (hh as int) < hh as int,
                        80 * (y as int) == (hh as int) * (80 * (y as int) / (hh as int))
                            + (80 * (y as int)) % (hh as int),
                        0 <= (80 * (y as int)) % (hh as int) < hh as int;
            }
        }
        let mut x: usize = 0;
        while x < w
            invariant
                fb.wf(),
                fb.width == old(fb).width,
                fb.height == old(fb).height,
                fb.current_color == old(fb).current_color,
                fb.background_color == old(fb).background_color,
                fb.data@.len() == old(fb).data@.len(),
                w == fb.width as int,
                h == fb.height as int,
                h >= 2,
                hh == h / 2,
                y < h,
                x <= w,
                y < hh ==> color == spec_background_pixel(0, y as int, h as int),
                forall|xx: int, yy: int| 0 <= xx < w && 0 <= yy < y
                    ==> fb.data@[yy * w + xx]
                        == spec_background_pixel(xx, yy, h as int),
                forall|xx: int| 0 <= xx < x
                    ==> fb.data@[y as int * w + xx]
                        == spec_background_pixel(xx, y as int, h as int),
            decreases w - x,
        {
            let px: Rgb = if y < hh {
                color
            } else {
                if ((x / 4) + (y / 4)) % 2 == 0 {
                    Rgb { r: 40, g: 20, b: 20 }
                } else {
                    Rgb { r: 35, g: 18, b: 18 }
                }
            };
            proof {
                assert(y as int * w + x < w * h && w * h <= 0x8000 * 0x8000)
                    by (nonlinear_arith)
                    requires 0 <= x < w, 0 <= y < h, w <= 0x8000, h <= 0x8000;
                assert(px == spec_background_pixel(x as int, y as int, h as int));
            }
            let ghost pre = fb.data@;
            let idx: usize = y * w + x;
            fb.data.set(idx, px);
            proof {
                assert forall|xx: int, yy: int| 0 <= xx < w && 0 <= yy < y
                    implies fb.data@[yy * w + xx]
                        == spec_background_pixel(xx, yy, h as int) by {
                    lemma_pixel_index(w as int, h as int, xx, yy, x as int, y as int);
                    assert(fb.data@[yy * w + xx] == pre[yy * w + xx]);
                    assert(pre[yy * w + xx] == spec_background_pixel(xx, yy, h as int));
                }
                assert forall|xx: int| 0 <= xx < x + 1
                    implies fb.data@[y as int * w + xx]
                        == spec_background_pixel(xx, y as int, h as int) by {
                    lemma_pixel_index(w as int, h as int, xx, y as int, x as int,
                        y as int);
                    if xx < x {
                        assert(fb.data@[y as int * w + xx] == pre[y as int * w + xx]);
                    }
                }
            }
            x = x + 1;
        }
        y = y + 1;
    }
}


/// What the wall pass guarantees for one pixel: where a column's slab
/// covers the pixel, the corrected distance stands in the depth buffer and
/// the shaded texture sample stands in the frame; everywhere else both
/// buffers keep their previous contents.
pub open spec fn wall_cell_done(m: Seq<Vec<char>>, tm: &TextureManager, ox: int,
    oy: int, ray: ColumnRay, block_fp: int, h: int, w: int, y: int, c: int,
    z0: Seq<i64>, fb0: Seq<Rgb>, z1: Seq<i64>, fb1: Seq<Rgb>) -> bool
{
    let idx = y * w + c;
    &&& (col_covers(m, ox, oy, ray, block_fp, h, y)
        ==> z1[idx] == col_corrected(m, ox, oy, ray, block_fp)
            && fb1[idx] == spec_wall_pixel(m, tm, ox, oy, ray, block_fp, y, h))
    &&& (!col_covers(m, ox, oy, ray, block_fp, h, y)
        ==> z1[idx] == z0[idx] && fb1[idx] == fb0[idx])
}

/// The wall pass: cast one ray per screen column, correct its distance,
/// project the hit into a vertical slab, draw the shaded texture sample into
/// every covered pixel and record the corrected distance in the depth
/// buffer. Pixels no slab covers are left alone, in both buffers.
#[verifier::rlimit(100)]
pub fn render_walls(fb: &mut Framebuffer, z_buffer: &mut Vec<i64>, maze: &Maze,
    block_size: usize, pos_x: i64, pos_y: i64, rays: &Vec<ColumnRay>,
    textures: &TextureManager)
    requires
        old(fb).wf(),
        old(z_buffer)@.len() == old(fb).width * old(fb).height,
        rays@.len() == old(fb).width,
        forall|c: int| 0 <= c < rays@.len() ==> ray_wf(#[trigger] rays@[c]),
        0 < block_size <= 0x10000,
        -0x20000000 <= pos_x <= 0x20000000,
        -0x20000000 <= pos_y <= 0x20000000,
        textures.wf(),
    ensures
        final(fb).wf(),
        final(fb).width == old(fb).width,
        final(fb).height == old(fb).height,
        final(fb).current_color == old(fb).current_color,
        final(fb).background_color == old(fb).background_color,
        final(fb).data@.len() == old(fb).data@.len(),
        final(z_buffer)@.len() == old(z_buffer)@.len(),
        forall|c: int, y: int| 0 <= c < old(fb).width && 0 <= y < old(fb).height
            ==> #[trigger] wall_cell_done(maze@, textures, pos_x as int, pos_y as int,
                rays@[c], block_size as int * (FP_ONE as int),
                old(fb).height as int, old(fb).width as int, y, c,
                old(z_buffer)@, old(fb).data@, final(z_buffer)@, final(fb).data@),
{
    let ghost m = maze@;
    let ghost oxi = pos_x as int;
    let ghost oyi = pos_y as int;
    let ghost bfp = block_size as int * (FP_ONE as int);
    let w: usize = fb.width as usize;
    let h: usize = fb.height as usize;
    let mut c: usize = 0;
    while c < w
        invariant
            fb.wf(),
            fb.width == old(fb).width,
            fb.height == old(fb).height,
            fb.current_color == old(fb).current_color,
            fb.background_color == old(fb).background_color,
            fb.data@.len() == old(fb).data@.len(),
            z_buffer@.len() == old(z_buffer)@.len(),
            old(z_buffer)@.len() == old(fb).width * old(fb).height,
            rays@.len() == old(fb).width,
            forall|cc: int| 0 <= cc < rays@.len() ==> ray_wf(#[trigger] rays@[cc]),
            0 < block_size <= 0x10000,
            -0x20000000 <= pos_x <= 0x20000000,
            -0x20000000 <= pos_y <= 0x20000000,
            textures.wf(),
            m == maze@,
            oxi == pos_x as int,
            oyi == pos_y as int,
            bfp == block_size as int * (FP_ONE as int),
            w == fb.width as int,
            h == fb.height as int,
            c <= w,
            forall|cc: int, y: int| 0 <= cc < c && 0 <= y < h
                ==> #[trigger] wall_cell_done(m, textures, oxi, oyi, rays@[cc], bfp,
                    h as int, w as int, y, cc, old(z_buffer)@, old(fb).data@,
                    z_buffer@, fb.data@),
            forall|cc: int, y: int| c <= cc < w && 0 <= y < h
                ==> z_buffer@[y * w + cc] == old(z_buffer)@[#[trigger] (y * w + cc)]
                    && fb.data@[y * w + cc] == old(fb).data@[y * w + cc],
        decreases w - c,
    {
        let ray: ColumnRay = rays[c];
        let hit = cast_ray(maze, pos_x, pos_y, ray.step_x, ray.step_y, block_size);
        let corrected = correct_distance(hit.distance, ray.cos_off);
        proof {
            assert(hit == col_hit(m, oxi, oyi, ray, bfp));
            assert(corrected as int == col_corrected(m, oxi, oyi, ray, bfp));
        }
        let hh: u64 = (h as u64) / 2;
        let mut top: usize = 0;
        let mut bottom: usize = h;
        if corrected > 0 {
            let adj: u64 = (hh * 325 * 1024) / (2 * (corrected as u64));
            let tt: u64 = if hh > adj / 2 { hh - adj / 2 } else { 0 };
            let bb: u64 = if hh + adj / 2 < h as u64 { hh + adj / 2 } else { h as u64 };
            top = tt as usize;
            bottom = bb as usize;
        }
        proof {
            assert(top as int == spec_slab_top(corrected as int, h as int));
            assert(bottom as int == spec_slab_bottom(corrected as int, h as int));
            assert(top <= bottom <= h);
        }
        let hcoord: i64 = if hit.side { hit.hit_y } else { hit.hit_x };
        let tx: i64 = if hcoord < 0 {
            0
        } else {
            let bfpu: u64 = (block_size as u64) * 1024;
            ((((hcoord as u64) % bfpu) * 1024) / bfpu) as i64
        };
        proof {
            assert(tx as int == spec_wall_tex_x(hit, bfp));
        }
        let tex: &ImageTexture = textures.get_texture(hit.impact);

        let mut y: usize = top;
        while y < bottom
            invariant
                fb.wf(),
                fb.width == old(fb).width,
                fb.height == old(fb).height,
                fb.current_color == old(fb).current_color,
                fb.background_color == old(fb).background_color,
                fb.data@.len() == old(fb).data@.len(),
                z_buffer@.len() == old(z_buffer)@.len(),
                old(z_buffer)@.len() == old(fb).width * old(fb).height,
                rays@.len() == old(fb).width,
                forall|cc: int| 0 <= cc < rays@.len() ==> ray_wf(#[trigger] rays@[cc]),
                textures.wf(),
                tex.wf(),
                m == maze@,
                bfp == block_size as int * (FP_ONE as int),
                w == fb.width as int,
                h == fb.height as int,
                c < w,
                ray == rays@[c as int],
                hit == col_hit(m, oxi, oyi, ray, bfp),
                corrected as int == col_corrected(m, oxi, oyi, ray, bfp),
                top as int == spec_slab_top(corrected as int, h as int),
                bottom as int == spec_slab_bottom(corrected as int, h as int),
                top <= y <= bottom,
                bottom <= h,
                tx as int == spec_wall_tex_x(hit, bfp),
                *tex == spec_texture_for(textures, hit.impact),
                forall|cc: int, yy: int| 0 <= cc < c && 0 <= yy < h
                    ==> #[trigger] wall_cell_done(m, textures, oxi, oyi, rays@[cc],
                        bfp, h as int, w as int, yy, cc, old(z_buffer)@,
                        old(fb).data@, z_buffer@, fb.data@),
                forall|yy: int| top <= yy < y
                    ==> z_buffer@[#[trigger] (yy * w + c)]
                            == col_corrected(m, oxi, oyi, ray, bfp)
                        && fb.data@[yy * w + c]
                            == spec_wall_pixel(m, textures, oxi, oyi, ray, bfp, yy,
                                h as int),
                forall|yy: int| 0 <= yy < h && !(top <= yy < y)
                    ==> z_buffer@[#[trigger] (yy * w + c)]
                            == old(z_buffer)@[yy * w + c]
                        && fb.data@[yy * w + c] == old(fb).data@[yy * w + c],
                forall|cc: int, yy: int| c < cc < w && 0 <= yy < h
                    ==> z_buffer@[yy * w + cc]
                            == old(z_buffer)@[#[trigger] (yy * w + cc)]
                        && fb.data@[yy * w + cc] == old(fb).data@[yy * w + cc],
            decreases bottom - y,
        {
            let denom: usize = bottom - top;
            let ty: i64 = ((((y - top) as u64) * 1024) / (denom as u64)) as i64;
            proof {
                assert(ty as int == spec_tex_y(y as int, top as int, bottom as int));
            }
            let color = tex.get_color(tx, ty);
            let shaded: Rgb = if hit.side {
                Rgb {
                    r: ((color.r as u32) * 7 / 10) as u8,
                    g: ((color.g as u32) * 7 / 10) as u8,
                    b: ((color.b as u32) * 7 / 10) as u8,
                }
            } else {
                color
            };
            proof {
                assert(shaded == spec_wall_pixel(m, textures, oxi, oyi, ray, bfp,
                    y as int, h as int));
                lemma_pixel_index(w as int, h as int, c as int, y as int, c as int,
                    y as int);
                assert(w * h <= 0x8000 * 0x8000) by (nonlinear_arith)
                    requires 0 <= w <= 0x8000, 0 <= h <= 0x8000;
            }
            let idx: usize = y * w + c;
            let ghost fb_pre = fb.data@;
            let ghost z_pre = z_buffer@;
            fb.data.set(idx, shaded);
            z_buffer.set(idx, corrected);
            proof {
                assert forall|cc: int, yy: int| 0 <= cc < c && 0 <= yy < h
                    implies #[trigger] wall_cell_done(m, textures, oxi, oyi, rays@[cc],
                        bfp, h as int, w as int, yy, cc, old(z_buffer)@,
                        old(fb).data@, z_buffer@, fb.data@) by {
                    assert(wall_cell_done(m, textures, oxi, oyi, rays@[cc], bfp,
                        h as int, w as int, yy, cc, old(z_buffer)@, old(fb).data@,
                        z_pre, fb_pre));
                    lemma_pixel_index(w as int, h as int, cc, yy, c as int, y as int);
                    assert(fb.data@[yy * w + cc] == fb_pre[yy * w + cc]);
                    assert(z_buffer@[yy * w + cc] == z_pre[yy * w + cc]);
                }
                assert forall|yy: int| 0 <= yy < h && yy != y as int
                    implies fb.data@[#[trigger] (yy * w + c)] == fb_pre[yy * w + c]
                        && z_buffer@[yy * w + c] == z_pre[yy * w + c] by {
                    lemma_pixel_index(w as int, h as int, c as int, yy, c as int,
                        y as int);
                }
                assert forall|cc: int, yy: int| c < cc < w && 0 <= yy < h
                    implies fb.data@[#[trigger] (yy * w + cc)] == fb_pre[yy * w + cc]
                        && z_buffer@[yy * w + cc] == z_pre[yy * w + cc] by {
                    lemma_pixel_index(w as int, h as int, cc, yy, c as int, y as int);
                }
            }
            y = y + 1;
        }
        proof {
            assert forall|yy: int| 0 <= yy < h
                implies wall_cell_done(m, textures, oxi, oyi, rays@[c as int], bfp,
                    h as int, w as int, yy, c as int, old(z_buffer)@, old(fb).data@,
                    z_buffer@, fb.data@) by {
                assert(col_covers(m, oxi, oyi, rays@[c as int], bfp, h as int, yy)
                    <==> top <= yy < bottom);
            }
        }
        c = c + 1;
    }
}


/// How a billboard's texels are post-processed: the floor of the
/// distance-dimming factor, a brightness multiplier, the red-shift tint,
/// and the transparency threshold below which texels are skipped. Both
/// entity kinds are dimmed with distance; the pulsing brightness is the
/// collectibles' effect, while the antagonist gets the tint and the
/// proximity aura instead — its threat is conveyed by color, not by pulse.
#[derive(Clone, Copy, Debug)]
pub struct SpriteShading {
    pub dim_floor: i64,
    pub glow: i64,
    pub menacing: bool,
    pub threshold: u8,
}

/// A usable shading: factors non-negative and small.
pub open spec fn shading_wf(sh: SpriteShading) -> bool {
    0 <= sh.dim_floor <= FP_ONE && 0 <= sh.glow <= 2 * FP_ONE
}

/// The distance-dimming factor: linear falloff with a floor.
pub open spec fn spec_dim_factor(adist: int, floor_f: int) -> int {
    let f = (FP_ONE as int) - adist / 600;
    if f > floor_f { f } else { floor_f }
}

/// The antagonist tint: shift toward red, keep the other channels visible.
pub open spec fn spec_tint(c: Rgb, menacing: bool) -> Rgb {
    if menacing {
        Rgb {
            r: if c.r + 50 < 255 { (c.r + 50) as u8 } else { 255 },
            g: if c.g > 20 { c.g } else { 20 },
            b: if c.b > 20 { c.b } else { 20 },
        }
    } else {
        c
    }
}

/// One color channel after dimming and glow, saturating at full brightness.
pub open spec fn spec_channel(v: int, f: int, glow: int) -> int {
    let dimmed = v * f / (FP_ONE as int);
    let glowed = dimmed * glow / (FP_ONE as int);
    if glowed < 255 { glowed } else { 255 }
}

/// The color a billboard texel is drawn with at distance `adist`.
pub open spec fn spec_sprite_color(c: Rgb, adist: int, sh: SpriteShading) -> Rgb {
    let base = spec_tint(c, sh.menacing);
    let f = spec_dim_factor(adist, sh.dim_floor as int);
    Rgb {
        r: spec_channel(base.r as int, f, sh.glow as int) as u8,
        g: spec_channel(base.g as int, f, sh.glow as int) as u8,
        b: spec_channel(base.b as int, f, sh.glow as int) as u8,
    }
}

/// A texel is visible (not treated as transparent) iff some channel exceeds
/// the threshold.
pub open spec fn spec_bright(c: Rgb, threshold: u8) -> bool {
    c.r > threshold || c.g > threshold || c.b > threshold
}

/// The texture coordinate of position `v` across the billboard span
/// [lo, hi); the center when the span is degenerate.
pub open spec fn spec_rect_tex(v: int, lo: int, hi: int) -> int {
    if hi > lo { (v - lo) * (FP_ONE as int) / (hi - lo) } else { FP_ONE as int / 2 }
}

/// The texel of screen pixel (x, y) within the billboard rectangle
/// [x0, x1) x [y0, y1).
pub open spec fn spec_sprite_texel(tex: &ImageTexture, x: int, y: int, x0: int,
    x1: int, y0: int, y1: int) -> Rgb
{
    tex.spec_color_at(spec_rect_tex(x, x0, x1), spec_rect_tex(y, y0, y1))
}

/// What compositing one billboard guarantees for one screen pixel: drawn
/// with the shaded texel iff the rectangle covers it, the sprite is strictly
/// nearer than the wall recorded in the depth buffer, and the texel is
/// bright enough; untouched otherwise.
pub open spec fn sprite_cell_done(tex: &ImageTexture, adist: int, x0: int, x1: int,
    y0: int, y1: int, sh: SpriteShading, w: int, h: int, x: int, y: int,
    z: Seq<i64>, fb0: Seq<Rgb>, fb1: Seq<Rgb>) -> bool
{
    let idx = y * w + x;
    let texel = spec_sprite_texel(tex, x, y, x0, x1, y0, y1);
    if x0 <= x < x1 && y0 <= y < y1 && adist < z[idx]
        && spec_bright(texel, sh.threshold) {
        fb1[idx] == spec_sprite_color(texel, adist, sh)
    } else {
        fb1[idx] == fb0[idx]
    }
}

/// Composite one billboard rectangle into the frame: every covered pixel is
/// depth-tested against the wall pass's buffer and drawn iff the sprite is
/// strictly nearer and its texel is bright enough — the per-pixel depth test
/// is the occlusion mechanism.
#[verifier::rlimit(100)]
pub fn composite_rect(fb: &mut Framebuffer, z_buffer: &Vec<i64>, tex: &ImageTexture,
    adist: i64, x0: i64, x1: i64, y0: i64, y1: i64, sh: SpriteShading)
    requires
        old(fb).wf(),
        z_buffer@.len() == old(fb).width * old(fb).height,
        tex.wf(),
        shading_wf(sh),
        0 <= adist <= 0x40000000,
        -0x200000000 <= x0 <= 0x200000000,
        -0x200000000 <= x1 <= 0x200000000,
        -0x200000000 <= y0 <= 0x200000000,
        -0x200000000 <= y1 <= 0x200000000,
    ensures
        final(fb).wf(),
        final(fb).width == old(fb).width,
        final(fb).height == old(fb).height,
        final(fb).current_color == old(fb).current_color,
        final(fb).background_color == old(fb).background_color,
        final(fb).data@.len() == old(fb).data@.len(),
        forall|x: int, y: int| 0 <= x < old(fb).width && 0 <= y < old(fb).height
            ==> #[trigger] sprite_cell_done(tex, adist as int, x0 as int, x1 as int,
                y0 as int, y1 as int, sh, old(fb).width as int, old(fb).height as int,
                x, y, z_buffer@, old(fb).data@, final(fb).data@),
{
    let w: usize = fb.width as usize;
    let h: usize = fb.height as usize;
    // Clip the rectangle to the screen.
    let cx0: usize = if x0 > 0 { if x0 < w as i64 { x0 as usize } else { w } } else { 0 };
    let cx1: usize = if x1 > 0 { if x1 < w as i64 { x1 as usize } else { w } } else { 0 };
    let cy0: usize = if y0 > 0 { if y0 < h as i64 { y0 as usize } else { h } } else { 0 };
    let cy1: usize = if y1 > 0 { if y1 < h as i64 { y1 as usize } else { h } } else { 0 };

    let mut y: usize = cy0;
    while y < cy1
        invariant
            fb.wf(),
            fb.width == old(fb).width,
            fb.height == old(fb).height,
            fb.current_color == old(fb).current_color,
            fb.background_color == old(fb).background_color,
            fb.data@.len() == old(fb).data@.len(),
            z_buffer@.len() == old(fb).width * old(fb).height,
            tex.wf(),
            shading_wf(sh),
            0 <= adist <= 0x40000000,
            -0x200000000 <= x0 <= 0x200000000,
            -0x200000000 <= x1 <= 0x200000000,
            -0x200000000 <= y0 <= 0x200000000,
            -0x200000000 <= y1 <= 0x200000000,
            w == fb.width as int,
            h == fb.height as int,
            cx0 as int == (if x0 > 0 { if x0 < w as int { x0 as int } else { w as int } } else { 0int }),
            cx1 as int == (if x1 > 0 { if x1 < w as int { x1 as int } else { w as int } } else { 0int }),
            cy0 as int == (if y0 > 0 { if y0 < h as int { y0 as int } else { h as int } } else { 0int }),
            cy1 as int == (if y1 > 0 { if y1 < h as int { y1 as int } else { h as int } } else { 0int }),
            cy0 <= y,
            y <= cy1 || y == cy0,
            cx1 <= w,
            cy1 <= h,
            forall|xx: int, yy: int| 0 <= xx < w && 0 <= yy < h
                && (cy0 <= yy < y && cx0 <= xx < cx1)
                ==> #[trigger] sprite_cell_done(tex, adist as int, x0 as int,
                    x1 as int, y0 as int, y1 as int, sh, w as int, h as int, xx, yy,
                    z_buffer@, old(fb).data@, fb.data@),
            forall|xx: int, yy: int| 0 <= xx < w && 0 <= yy < h
                && !(cy0 <= yy < y && cx0 <= xx < cx1)
                ==> fb.data@[#[trigger] (yy * w + xx)] == old(fb).data@[yy * w + xx],
        decreases cy1 - y,
    {
        let mut x: usize = cx0;
        while x < cx1
            invariant
                fb.wf(),
                fb.width == old(fb).width,
                fb.height == old(fb).height,
                fb.current_color == old(fb).current_color,
                fb.background_color == old(fb).background_color,
                fb.data@.len() == old(fb).data@.len(),
                z_buffer@.len() == old(fb).width * old(fb).height,
                tex.wf(),
                shading_wf(sh),
                0 <= adist <= 0x40000000,
                -0x200000000 <= x0 <= 0x200000000,
                -0x200000000 <= x1 <= 0x200000000,
                -0x200000000 <= y0 <= 0x200000000,
                -0x200000000 <= y1 <= 0x200000000,
                w == fb.width as int,
                h == fb.height as int,
                cx0 as int == (if x0 > 0 { if x0 < w as int { x0 as int } else { w as int } } else { 0int }),
                cx1 as int == (if x1 > 0 { if x1 < w as int { x1 as int } else { w as int } } else { 0int }),
                cy0 as int == (if y0 > 0 { if y0 < h as int { y0 as int } else { h as int } } else { 0int }),
                cy1 as int == (if y1 > 0 { if y1 < h as int { y1 as int } else { h as int } } else { 0int }),
                cy0 <= y < cy1,
                cx0 <= x,
                x <= cx1 || x == cx0,
                cx1 <= w,
                cy1 <= h,
                forall|xx: int, yy: int| 0 <= xx < w && 0 <= yy < h
                    && ((cy0 <= yy < y && cx0 <= xx < cx1)
                        || (yy == y && cx0 <= xx < x))
                    ==> #[trigger] sprite_cell_done(tex, adist as int, x0 as int,
                        x1 as int, y0 as int, y1 as int, sh, w as int, h as int, xx,
                        yy, z_buffer@, old(fb).data@, fb.data@),
                forall|xx: int, yy: int| 0 <= xx < w && 0 <= yy < h
                    && !((cy0 <= yy < y && cx0 <= xx < cx1)
                        || (yy == y && cx0 <= xx < x))
                    ==> fb.data@[#[trigger] (yy * w + xx)]
                        == old(fb).data@[yy * w + xx],
            decreases cx1 - x,
        {
            proof {
                lemma_pixel_index(w as int, h as int, x as int, y as int, x as int,
                    y as int);
                assert(w * h <= 0x8000 * 0x8000) by (nonlinear_arith)
                    requires 0 <= w <= 0x8000, 0 <= h <= 0x8000;
            }
            let idx: usize = y * w + x;
            // Per-pixel occlusion: draw only strictly in front of the wall.
            if adist < z_buffer[idx] {
                let tx: i64 = if x1 > x0 {
                    (((x as i64) - x0) * 1024) / (x1 - x0)
                } else {
                    512
                };
                let ty: i64 = if y1 > y0 {
                    (((y as i64) - y0) * 1024) / (y1 - y0)
                } else {
                    512
                };
                proof {
                    if x1 > x0 {
                        assert(0 <= ((x as int) - x0) * 1024) by (nonlinear_arith)
                            requires x0 <= x as int;
                        vstd::arithmetic::div_mod::lemma_fundamental_div_mod(
                            ((x as int) - x0) * 1024, x1 - x0 as int);
                        assert(tx as int == spec_rect_tex(x as int, x0 as int,
                            x1 as int));
                    }
                    if y1 > y0 {
                        assert(ty as int == spec_rect_tex(y as int, y0 as int,
                            y1 as int));
                    }
                }
                let texel = tex.get_color(tx, ty);
                if texel.r > sh.threshold || texel.g > sh.threshold
                    || texel.b > sh.threshold {
                    let base: Rgb = if sh.menacing {
                        Rgb {
                            r: if (texel.r as u16) + 50 < 255 { texel.r + 50 } else {
                                255
                            },
                            g: if texel.g > 20 { texel.g } else { 20 },
                            b: if texel.b > 20 { texel.b } else { 20 },
                        }
                    } else {
                        texel
                    };
                    let dim: i64 = FP_ONE - ((adist as u64) / 600) as i64;
                    let f: i64 = if dim > sh.dim_floor { dim } else { sh.dim_floor };
                    proof {
                        assert(f as int == spec_dim_factor(adist as int,
                            sh.dim_floor as int));
                        assert(0 <= f <= 1024);
                    }
                    let cr = channel_value(base.r, f, sh.glow);
                    let cg = channel_value(base.g, f, sh.glow);
                    let cb = channel_value(base.b, f, sh.glow);
                    let color = Rgb { r: cr, g: cg, b: cb };
                    proof {
                        assert(color == spec_sprite_color(texel, adist as int, sh));
                    }
                    let ghost fb_pre = fb.data@;
                    fb.data.set(idx, color);
                    proof {
                        assert forall|xx: int, yy: int| 0 <= xx < w && 0 <= yy < h
                            && ((cy0 <= yy < y && cx0 <= xx < cx1)
                                || (yy == y && cx0 <= xx < x))
                            implies #[trigger] sprite_cell_done(tex, adist as int,
                                x0 as int, x1 as int, y0 as int, y1 as int, sh,
                                w as int, h as int, xx, yy, z_buffer@,
                                old(fb).data@, fb.data@) by {
                            assert(sprite_cell_done(tex, adist as int, x0 as int,
                                x1 as int, y0 as int, y1 as int, sh, w as int,
                                h as int, xx, yy, z_buffer@, old(fb).data@, fb_pre));
                            lemma_pixel_index(w as int, h as int, xx, yy, x as int,
                                y as int);
                        }
                        assert forall|xx: int, yy: int| 0 <= xx < w && 0 <= yy < h
                            && !((cy0 <= yy < y && cx0 <= xx < cx1)
                                || (yy == y && cx0 <= xx <= x))
                            implies fb.data@[#[trigger] (yy * w + xx)]
                                == old(fb).data@[yy * w + xx] by {
                            lemma_pixel_index(w as int, h as int, xx, yy, x as int,
                                y as int);
                            assert(fb.data@[yy * w + xx] == fb_pre[yy * w + xx]);
                        }
                    }
                }
            }
            x = x + 1;
        }
        y = y + 1;
    }
    proof {
        assert forall|xx: int, yy: int| 0 <= xx < w && 0 <= yy < h
            implies #[trigger] sprite_cell_done(tex, adist as int, x0 as int,
                x1 as int, y0 as int, y1 as int, sh, w as int, h as int, xx, yy,
                z_buffer@, old(fb).data@, fb.data@) by {
            if !(cy0 <= yy < cy1 && cx0 <= xx < cx1) {
                assert(fb.data@[yy * w + xx] == old(fb).data@[yy * w + xx]);
                assert(!(x0 <= xx < x1 && y0 <= yy < y1));
            }
        }
    }
}

/// The occlusion law of the sprite pass: on a pixel its rectangle covers
/// with a visible texel, a billboard is drawn if and only if its distance is
/// strictly less than the wall distance recorded there by the wall pass.
pub proof fn lemma_sprite_occlusion(tex: &ImageTexture, adist: int, x0: int, x1: int,
    y0: int, y1: int, sh: SpriteShading, w: int, h: int, x: int, y: int,
    z: Seq<i64>, fb0: Seq<Rgb>, fb1: Seq<Rgb>)
    requires
        sprite_cell_done(tex, adist, x0, x1, y0, y1, sh, w, h, x, y, z, fb0, fb1),
        x0 <= x < x1,
        y0 <= y < y1,
        spec_bright(spec_sprite_texel(tex, x, y, x0, x1, y0, y1), sh.threshold),
    ensures
        fb1[y * w + x] != fb0[y * w + x] ==> adist < z[y * w + x],
        adist < z[y * w + x] ==> fb1[y * w + x]
            == spec_sprite_color(spec_sprite_texel(tex, x, y, x0, x1, y0, y1),
                adist, sh),
        adist >= z[y * w + x] ==> fb1[y * w + x] == fb0[y * w + x],
{
}

/// One color channel of a drawn billboard texel: dim by `f`, multiply by
/// the glow, saturate.
fn channel_value(v: u8, f: i64, glow: i64) -> (r: u8)
    requires
        0 <= f <= FP_ONE,
        0 <= glow <= 2 * FP_ONE,
    ensures
        r as int == spec_channel(v as int, f as int, glow as int),
{
    proof {
        assert(0 <= (v as int) * (f as int) <= 255 * 1024) by (nonlinear_arith)
            requires 0 <= v <= 255, 0 <= f <= 1024;
        vstd::arithmetic::div_mod::lemma_fundamental_div_mod((v as int) * (f as int),
            1024);
        assert(0 <= (v as int) * (f as int) / 1024 <= 255) by (nonlinear_arith)
            requires
                (v as int) * (f as int) == 1024 * ((v as int) * (f as int) / 1024)
                    + ((v as int) * (f as int)) % 1024,
                0 <= ((v as int) * (f as int)) % 1024 < 1024,
                0 <= (v as int) * (f as int) <= 255 * 1024;
    }
    let dimmed: u64 = ((v as u64) * (f as u64)) / 1024;
    proof {
        assert(0 <= (dimmed as int) * (glow as int) <= 255 * 2048) by (nonlinear_arith)
            requires 0 <= dimmed <= 255, 0 <= glow <= 2048;
    }
    let glowed: u64 = (dimmed * (glow as u64)) / 1024;
    if glowed < 255 {
        glowed as u8
    } else {
        255
    }
}


/// A sprite is usable by the renderer: its current frame exists and is a
/// well-formed texture, and its position and timer are in engine range.
pub open spec fn sprite_wf(s: Sprite) -> bool {
    &&& s.animation_frame < s.texture_frames@.len()
    &&& s.texture_frames@[s.animation_frame as int].wf()
    &&& -0x10000000 <= s.x <= 0x10000000
    &&& -0x10000000 <= s.y <= 0x10000000
    &&& 0 <= s.animation_timer <= 0x40000000
}

/// The pulsing brightness of a collectible: one plus a small sine of the
/// animation timer.
pub open spec fn spec_glow(timer: int) -> int {
    (FP_ONE as int) + spec_scale(spec_sin(spec_mul_fp(timer, 6431)), 154,
        FP_ONE as int)
}

/// The camera-space forward coordinate of a point: positive in front of the
/// camera.
pub open spec fn spec_cam_forward(dx: int, dy: int, facing_sin: int, facing_cos: int)
    -> int
{
    spec_mul_fp(dx, facing_cos) + spec_mul_fp(dy, facing_sin)
}

/// The camera-space lateral coordinate of a point: positive to the right.
pub open spec fn spec_cam_lateral(dx: int, dy: int, facing_sin: int, facing_cos: int)
    -> int
{
    spec_mul_fp(-dx, facing_sin) + spec_mul_fp(dy, facing_cos)
}

/// Draw one collectible as a depth-tested billboard. The sprite is dropped
/// when too close or too far, when behind the camera, or when its projected
/// rectangle misses the screen; otherwise every covered pixel is drawn iff
/// the sprite is strictly nearer than the wall at that pixel and its texel
/// is bright enough, dimmed with distance and pulsing with the animation
/// timer (see [`sprite_cell_done`]).
pub fn render_single_sprite_with_zbuffer_textured(fb: &mut Framebuffer,
    sprite: &Sprite, player: &Player, facing_sin: i64, facing_cos: i64,
    z_buffer: &Vec<i64>, distance: i64)
    requires
        old(fb).wf(),
        z_buffer@.len() == old(fb).width * old(fb).height,
        sprite_wf(*sprite),
        -0x10000000 <= player.pos.x <= 0x10000000,
        -0x10000000 <= player.pos.y <= 0x10000000,
        -FP_ONE <= facing_sin <= FP_ONE,
        -FP_ONE <= facing_cos <= FP_ONE,
        64 <= player.fov <= 6434,
    ensures
        final(fb).wf(),
        final(fb).width == old(fb).width,
        final(fb).height == old(fb).height,
        final(fb).current_color == old(fb).current_color,
        final(fb).background_color == old(fb).background_color,
        final(fb).data@.len() == old(fb).data@.len(),
        forall|idx: int| 0 <= idx < final(fb).data@.len()
            && final(fb).data@[idx] != old(fb).data@[idx]
            ==> exists|d: int| #[trigger] is_isqrt(d,
                    (sprite.x - player.pos.x) * (sprite.x - player.pos.x)
                    + (sprite.y - player.pos.y) * (sprite.y - player.pos.y))
                && d < z_buffer@[idx],
        ({
            let w = old(fb).width as int;
            let h = old(fb).height as int;
            let dx = sprite.x - player.pos.x;
            let dy = sprite.y - player.pos.y;
            let txv = spec_cam_lateral(dx, dy, facing_sin as int, facing_cos as int);
            let tyv = spec_cam_forward(dx, dy, facing_sin as int, facing_cos as int);
            if distance < 20480 || distance > 819200 || tyv <= 10240 {
                final(fb).data@ == old(fb).data@
            } else {
                exists|d: int| #[trigger] is_isqrt(d, dx * dx + dy * dy) && ({
                    let hh = h / 2;
                    let adj = hh * 100 * (FP_ONE as int) / d;
                    let sxp = w / 2 + spec_scale(spec_atan2_pos(txv, tyv), w,
                        player.fov as int);
                    let sw = adj * 4 / 5;
                    let x0 = sxp - sw / 2;
                    let x1 = sxp + sw / 2;
                    let y0 = if hh - adj / 2 > 0 { hh - adj / 2 } else { 0int };
                    let y1 = if hh + adj / 2 < h { hh + adj / 2 } else { h };
                    if x0 >= w || x1 < 0 || y0 >= h || y1 < 0 {
                        final(fb).data@ == old(fb).data@
                    } else {
                        forall|x: int, y: int| 0 <= x < w && 0 <= y < h
                            ==> #[trigger] sprite_cell_done(
                                &sprite.texture_frames@[sprite.animation_frame as int],
                                d, x0, x1, y0, y1,
                                SpriteShading {
                                    dim_floor: 307,
                                    glow: spec_glow(sprite.animation_timer as int) as i64,
                                    menacing: false,
                                    threshold: 15,
                                },
                                w, h, x, y, z_buffer@, old(fb).data@, final(fb).data@)
                    }
                })
            }
        }),
{
    let dx: i64 = sprite.x - player.pos.x;
    let dy: i64 = sprite.y - player.pos.y;
    let transformed_x: i64 = mul_fp(-dx, facing_sin) + mul_fp(dy, facing_cos);
    let transformed_y: i64 = mul_fp(dx, facing_cos) + mul_fp(dy, facing_sin);

    if distance < 20480 || distance > 819200 {
        return;
    }
    if transformed_y <= 10240 {
        return;
    }

    proof {
        assert(0 <= dx * dx <= 0x20000000 * 0x20000000) by (nonlinear_arith)
            requires -0x20000000 <= dx <= 0x20000000;
        assert(0 <= dy * dy <= 0x20000000 * 0x20000000) by (nonlinear_arith)
            requires -0x20000000 <= dy <= 0x20000000;
        if dx == 0 && dy == 0 {
            assert(transformed_y == 0);
            assert(false);
        }
    }
    let dsq: i64 = dx * dx + dy * dy;
    proof {
        assert(dsq >= 1) by (nonlinear_arith)
            requires dsq == dx * dx + dy * dy, !(dx == 0 && dy == 0);
    }
    let adist: i64 = isqrt(dsq as u64) as i64;
    proof {
        assert(adist >= 1) by (nonlinear_arith)
            requires
                (dsq as int) < ((adist as int) + 1) * ((adist as int) + 1),
                1 <= dsq as int,
                0 <= adist as int;
        assert(adist <= 0x40000000) by (nonlinear_arith)
            requires
                (adist as int) * (adist as int) <= dsq as int,
                dsq <= 0x800000000000000,
                0 <= adist as int;
        assert(is_isqrt(adist as int, dx * dx + dy * dy));
    }

    let w: i64 = fb.width as i64;
    let h: i64 = fb.height as i64;
    let hh: i64 = h / 2;
    let adj: i64 = ((((hh as u64) * 100) * 1024) / (adist as u64)) as i64;
    let angle: i64 = atan_fp(transformed_x, transformed_y);
    proof {
        assert(1664 <= 26 * player.fov);
        crate::fixed::lemma_scale_le(angle as int, w as int, player.fov as int, 26);
    }
    let screen_x: i64 = w / 2 + scale(angle, w, player.fov);
    let sw: i64 = ((adj as u64) * 4 / 5) as i64;
    let x0: i64 = screen_x - sw / 2;
    let x1: i64 = screen_x + sw / 2;
    let y0: i64 = if hh - adj / 2 > 0 { hh - adj / 2 } else { 0 };
    let y1: i64 = if hh + adj / 2 < h { hh + adj / 2 } else { h };

    if x0 >= w || x1 < 0 || y0 >= h || y1 < 0 {
        return;
    }

    let timer_angle: i64 = mul_fp(sprite.animation_timer, 6431);
    proof {
        assert(sprite.animation_timer * 6431 >= 0) by (nonlinear_arith)
            requires sprite.animation_timer >= 0;
    }
    let glow: i64 = FP_ONE + scale(sin_fp(timer_angle), 154, FP_ONE);
    let sh = SpriteShading { dim_floor: 307, glow, menacing: false, threshold: 15 };
    proof {
        crate::fixed::lemma_scale_le(spec_sin(timer_angle as int), 154, 1024, 1024);
        assert(shading_wf(sh));
        assert(glow == spec_glow(sprite.animation_timer as int));
    }
    let tex: &ImageTexture = &sprite.texture_frames[sprite.animation_frame];
    composite_rect(fb, z_buffer, tex, adist, x0, x1, y0, y1, sh);
    proof {
        let wi = w as int;
        let hi = h as int;
        assert forall|idx: int| 0 <= idx < fb.data@.len()
            && fb.data@[idx] != old(fb).data@[idx]
            implies exists|d: int| #[trigger] is_isqrt(d, dx * dx + dy * dy)
                && d < z_buffer@[idx] by {
            let px = idx % wi;
            let py = idx / wi;
            assert(0 < wi) by (nonlinear_arith)
                requires 0 <= idx < wi * hi, 0 <= wi;
            vstd::arithmetic::div_mod::lemma_fundamental_div_mod(idx, wi);
            assert(idx == py * wi + px && 0 <= px < wi && 0 <= py < hi)
                by (nonlinear_arith)
                requires
                    0 <= idx < wi * hi,
                    idx == wi * (idx / wi) + idx % wi,
                    0 <= idx % wi < wi,
                    px == idx % wi,
                    py == idx / wi,
                    0 < wi;
            assert(sprite_cell_done(tex, adist as int, x0 as int, x1 as int,
                y0 as int, y1 as int, sh, wi, hi, px, py, z_buffer@, old(fb).data@,
                fb.data@));
            assert(adist < z_buffer@[idx]);
            assert(is_isqrt(adist as int, dx * dx + dy * dy)
                && (adist as int) < z_buffer@[idx]);
        }
    }
}

/// Draw every uncollected collectible, farthest first (the painter order is
/// a tie-break aid; the per-pixel depth test in [`composite_rect`] is the
/// occlusion mechanism). Any pixel this pass changes lies strictly in front
/// of the wall recorded in the depth buffer for some visible sprite.
#[verifier::rlimit(100)]
pub fn render_sprites_with_zbuffer_textured(fb: &mut Framebuffer, player: &Player,
    facing_sin: i64, facing_cos: i64, sprite_manager: &SpriteManager,
    z_buffer: &Vec<i64>)
    requires
        old(fb).wf(),
        z_buffer@.len() == old(fb).width * old(fb).height,
        forall|i: int| 0 <= i < sprite_manager.sprites@.len()
            ==> sprite_wf(#[trigger] sprite_manager.sprites@[i]),
        -0x10000000 <= player.pos.x <= 0x10000000,
        -0x10000000 <= player.pos.y <= 0x10000000,
        -FP_ONE <= facing_sin <= FP_ONE,
        -FP_ONE <= facing_cos <= FP_ONE,
        64 <= player.fov <= 6434,
    ensures
        final(fb).wf(),
        final(fb).width == old(fb).width,
        final(fb).height == old(fb).height,
        final(fb).current_color == old(fb).current_color,
        final(fb).background_color == old(fb).background_color,
        final(fb).data@.len() == old(fb).data@.len(),
        forall|idx: int| 0 <= idx < final(fb).data@.len()
            && final(fb).data@[idx] != old(fb).data@[idx]
            ==> exists|k: int, d: int| 0 <= k < sprite_manager.sprites@.len()
                && !(#[trigger] sprite_manager.sprites@[k]).collected
                && #[trigger] is_isqrt(d,
                    (sprite_manager.sprites@[k].x - player.pos.x)
                        * (sprite_manager.sprites@[k].x - player.pos.x)
                    + (sprite_manager.sprites@[k].y - player.pos.y)
                        * (sprite_manager.sprites@[k].y - player.pos.y))
                && d < z_buffer@[idx],
{
    // Collect the uncollected sprites with their distances to the camera.
    let n: usize = sprite_manager.sprites.len();
    let mut order: Vec<(usize, i64)> = Vec::new();
    let mut i: usize = 0;
    while i < n
        invariant
            i <= n,
            n == sprite_manager.sprites@.len(),
            -0x10000000 <= player.pos.x <= 0x10000000,
            -0x10000000 <= player.pos.y <= 0x10000000,
            forall|k: int| 0 <= k < n
                ==> sprite_wf(#[trigger] sprite_manager.sprites@[k]),
            forall|k: int| 0 <= k < order@.len() ==> {
                let e = #[trigger] order@[k];
                &&& 0 <= e.0 < n
                &&& !sprite_manager.sprites@[e.0 as int].collected
            },
        decreases n - i,
    {
        if !sprite_manager.sprites[i].collected {
            let dx: i64 = sprite_manager.sprites[i].x - player.pos.x;
            let dy: i64 = sprite_manager.sprites[i].y - player.pos.y;
            proof {
                assert(0 <= dx * dx <= 0x20000000 * 0x20000000) by (nonlinear_arith)
                    requires -0x20000000 <= dx <= 0x20000000;
                assert(0 <= dy * dy <= 0x20000000 * 0x20000000) by (nonlinear_arith)
                    requires -0x20000000 <= dy <= 0x20000000;
            }
            let dist: i64 = isqrt((dx * dx + dy * dy) as u64) as i64;
            order.push((i, dist));
        }
        i = i + 1;
    }

    // Sort farthest first (selection sort keeps entries intact).
    let m: usize = order.len();
    let mut a: usize = 0;
    while a < m
        invariant
            a <= m,
            m == order@.len(),
            n == sprite_manager.sprites@.len(),
            forall|k: int| 0 <= k < order@.len() ==> {
                let e = #[trigger] order@[k];
                &&& 0 <= e.0 < n
                &&& !sprite_manager.sprites@[e.0 as int].collected
            },
        decreases m - a,
    {
        let mut best: usize = a;
        let mut b: usize = a + 1;
        while b < m
            invariant
                a <= best < m,
                a < b <= m || b == a + 1,
                b <= m,
                m == order@.len(),
                n == sprite_manager.sprites@.len(),
                forall|k: int| 0 <= k < order@.len() ==> {
                    let e = #[trigger] order@[k];
                    &&& 0 <= e.0 < n
                    &&& !sprite_manager.sprites@[e.0 as int].collected
                },
            decreases m - b,
        {
            if order[b].1 > order[best].1 {
                best = b;
            }
            b = b + 1;
        }
        let ea = order[a];
        let eb = order[best];
        order.set(a, eb);
        order.set(best, ea);
        a = a + 1;
    }

    // Draw back to front.
    let mut t: usize = 0;
    while t < m
        invariant
            t <= m,
            m == order@.len(),
            n == sprite_manager.sprites@.len(),
            fb.wf(),
            fb.width == old(fb).width,
            fb.height == old(fb).height,
            fb.current_color == old(fb).current_color,
            fb.background_color == old(fb).background_color,
            fb.data@.len() == old(fb).data@.len(),
            z_buffer@.len() == old(fb).width * old(fb).height,
            forall|k: int| 0 <= k < n
                ==> sprite_wf(#[trigger] sprite_manager.sprites@[k]),
            -0x10000000 <= player.pos.x <= 0x10000000,
            -0x10000000 <= player.pos.y <= 0x10000000,
            -FP_ONE <= facing_sin <= FP_ONE,
            -FP_ONE <= facing_cos <= FP_ONE,
            64 <= player.fov <= 6434,
            forall|k: int| 0 <= k < order@.len() ==> {
                let e = #[trigger] order@[k];
                &&& 0 <= e.0 < n
                &&& !sprite_manager.sprites@[e.0 as int].collected
            },
            forall|idx: int| 0 <= idx < fb.data@.len()
                && fb.data@[idx] != old(fb).data@[idx]
                ==> exists|k: int, d: int| 0 <= k < sprite_manager.sprites@.len()
                    && !(#[trigger] sprite_manager.sprites@[k]).collected
                    && #[trigger] is_isqrt(d,
                        (sprite_manager.sprites@[k].x - player.pos.x)
                            * (sprite_manager.sprites@[k].x - player.pos.x)
                        + (sprite_manager.sprites@[k].y - player.pos.y)
                            * (sprite_manager.sprites@[k].y - player.pos.y))
                    && d < z_buffer@[idx],
        decreases m - t,
    {
        let entry = order[t];
        let ghost fb_mid = fb.data@;
        let sprite = &sprite_manager.sprites[entry.0];
        render_single_sprite_with_zbuffer_textured(fb, sprite, player, facing_sin,
            facing_cos, z_buffer, entry.1);
        proof {
            let k0 = entry.0 as int;
            let sp = sprite_manager.sprites@[k0];
            let dx = sp.x - player.pos.x;
            let dy = sp.y - player.pos.y;
            assert forall|idx: int| 0 <= idx < fb.data@.len()
                && fb.data@[idx] != old(fb).data@[idx]
                implies exists|k: int, d: int| 0 <= k < sprite_manager.sprites@.len()
                    && !(#[trigger] sprite_manager.sprites@[k]).collected
                    && #[trigger] is_isqrt(d,
                        (sprite_manager.sprites@[k].x - player.pos.x)
                            * (sprite_manager.sprites@[k].x - player.pos.x)
                        + (sprite_manager.sprites@[k].y - player.pos.y)
                            * (sprite_manager.sprites@[k].y - player.pos.y))
                    && d < z_buffer@[idx] by {
                if fb.data@[idx] != fb_mid[idx] {
                    let d = choose|d: int| #[trigger] is_isqrt(d, dx * dx + dy * dy)
                        && d < z_buffer@[idx];
                    assert(0 <= k0 < sprite_manager.sprites@.len()
                        && !sprite_manager.sprites@[k0].collected
                        && is_isqrt(d, dx * dx + dy * dy) && d < z_buffer@[idx]);
                }
            }
        }
        t = t + 1;
    }
}


/// Render one full frame: background, then the wall pass that fills the
/// depth buffer, then the collectibles and the antagonist composited with
/// per-pixel depth tests against it. Returns the frame's depth buffer:
/// exactly the corrected wall distance wherever a wall slab was drawn, and
/// [`DEPTH_INF`] everywhere else.
pub fn render_world_with_textures_sprites_and_taylor_textured(fb: &mut Framebuffer,
    maze: &Maze, block_size: usize, player: &Player, facing_sin: i64,
    facing_cos: i64, rays: &Vec<ColumnRay>, texture_manager: &TextureManager,
    sprite_manager: &SpriteManager, taylor_sprite: &TaylorSprite,
    taylor_position: Vec2) -> (z_buffer: Vec<i64>)
    requires
        old(fb).wf(),
        old(fb).height >= 2,
        rays@.len() == old(fb).width,
        forall|c: int| 0 <= c < rays@.len() ==> ray_wf(#[trigger] rays@[c]),
        0 < block_size <= 0x10000,
        -0x10000000 <= player.pos.x <= 0x10000000,
        -0x10000000 <= player.pos.y <= 0x10000000,
        -FP_ONE <= facing_sin <= FP_ONE,
        -FP_ONE <= facing_cos <= FP_ONE,
        64 <= player.fov <= 6434,
        texture_manager.wf(),
        forall|i: int| 0 <= i < sprite_manager.sprites@.len()
            ==> sprite_wf(#[trigger] sprite_manager.sprites@[i]),
        taylor_sprite.texture.wf(),
        -0x10000000 <= taylor_position.x <= 0x10000000,
        -0x10000000 <= taylor_position.y <= 0x10000000,
    ensures
        final(fb).wf(),
        final(fb).width == old(fb).width,
        final(fb).height == old(fb).height,
        z_buffer@.len() == old(fb).width * old(fb).height,
        forall|c: int, y: int|
            #![trigger z_buffer@[y * old(fb).width + c], rays@[c]]
            0 <= c < old(fb).width && 0 <= y < old(fb).height ==> {
            let idx = y * old(fb).width + c;
            let bfp = block_size as int * (FP_ONE as int);
            &&& (col_covers(maze@, player.pos.x as int, player.pos.y as int,
                rays@[c], bfp, old(fb).height as int, y)
                ==> z_buffer@[idx] == col_corrected(maze@, player.pos.x as int,
                    player.pos.y as int, rays@[c], bfp))
            &&& (!col_covers(maze@, player.pos.x as int, player.pos.y as int,
                rays@[c], bfp, old(fb).height as int, y)
                ==> z_buffer@[idx] == DEPTH_INF)
        },
        forall|c: int, y: int|
            #![trigger final(fb).data@[y * old(fb).width + c], rays@[c]]
            0 <= c < old(fb).width && 0 <= y < old(fb).height ==> {
            let m = maze@;
            let w = old(fb).width as int;
            let h = old(fb).height as int;
            let bfp = block_size as int * (FP_ONE as int);
            let idx = y * w + c;
            // Every pixel is accounted for: the background or wall color of
            // its column, a depth-tested billboard write, or the aura.
            ||| final(fb).data@[idx] == (if col_covers(m, player.pos.x as int,
                    player.pos.y as int, rays@[c], bfp, h, y) {
                    spec_wall_pixel(m, texture_manager, player.pos.x as int,
                        player.pos.y as int, rays@[c], bfp, y, h)
                } else {
                    spec_background_pixel(c, y, h)
                })
            ||| (exists|k: int, d: int| 0 <= k < sprite_manager.sprites@.len()
                    && !(#[trigger] sprite_manager.sprites@[k]).collected
                    && #[trigger] is_isqrt(d,
                        (sprite_manager.sprites@[k].x - player.pos.x)
                            * (sprite_manager.sprites@[k].x - player.pos.x)
                        + (sprite_manager.sprites@[k].y - player.pos.y)
                            * (sprite_manager.sprites@[k].y - player.pos.y))
                    && d < z_buffer@[idx])
            ||| (exists|d: int| #[trigger] is_isqrt(d,
                    (taylor_position.x - player.pos.x)
                        * (taylor_position.x - player.pos.x)
                    + (taylor_position.y - player.pos.y)
                        * (taylor_position.y - player.pos.y))
                && d < z_buffer@[idx])
            ||| final(fb).data@[idx] == aura_red()
        },
{
    let ghost bfp = block_size as int * (FP_ONE as int);
    let w: usize = fb.width as usize;
    let h: usize = fb.height as usize;
    proof {
        assert(w * h <= 0x8000 * 0x8000) by (nonlinear_arith)
            requires w <= 0x8000, h <= 0x8000;
    }
    let total: usize = w * h;
    let mut z_buffer: Vec<i64> = Vec::new();
    let mut i: usize = 0;
    while i < total
        invariant
            i <= total,
            z_buffer@.len() == i,
            forall|k: int| 0 <= k < i ==> #[trigger] z_buffer@[k] == DEPTH_INF,
        decreases total - i,
    {
        z_buffer.push(DEPTH_INF);
        i = i + 1;
    }

    fill_background(fb);
    let ghost z0 = z_buffer@;
    let ghost fb1 = fb.data@;
    render_walls(fb, &mut z_buffer, maze, block_size, player.pos.x, player.pos.y,
        rays, texture_manager);
    proof {
        assert forall|c: int, y: int|
            #![trigger z_buffer@[y * old(fb).width + c], rays@[c]]
            0 <= c < old(fb).width && 0 <= y < old(fb).height
            implies ({
            let idx = y * old(fb).width + c;
            &&& (col_covers(maze@, player.pos.x as int, player.pos.y as int,
                rays@[c], bfp, old(fb).height as int, y)
                ==> z_buffer@[idx] == col_corrected(maze@, player.pos.x as int,
                    player.pos.y as int, rays@[c], bfp))
            &&& (!col_covers(maze@, player.pos.x as int, player.pos.y as int,
                rays@[c], bfp, old(fb).height as int, y)
                ==> z_buffer@[idx] == DEPTH_INF)
        }) by {
            lemma_pixel_index(old(fb).width as int, old(fb).height as int, c, y, c, y);
            assert(wall_cell_done(maze@, texture_manager, player.pos.x as int,
                player.pos.y as int, rays@[c], bfp, old(fb).height as int,
                old(fb).width as int, y, c, z0, fb1, z_buffer@, fb.data@));
            assert(z0[y * old(fb).width + c] == DEPTH_INF);
        }
    }
    let ghost fb_walls = fb.data@;
    render_sprites_with_zbuffer_textured(fb, player, facing_sin, facing_cos,
        sprite_manager, &z_buffer);
    let ghost fb_sprites = fb.data@;
    taylor_sprite.render_3d(fb, taylor_position, player, facing_sin, facing_cos,
        &z_buffer, maze, block_size);
    proof {
        let m = maze@;
        let w = old(fb).width as int;
        let h = old(fb).height as int;
        let oxi = player.pos.x as int;
        let oyi = player.pos.y as int;
        assert forall|c: int, y: int|
            #![trigger fb.data@[y * old(fb).width + c], rays@[c]]
            0 <= c < old(fb).width && 0 <= y < old(fb).height implies ({
            let idx = y * w + c;
            ||| fb.data@[idx] == (if col_covers(m, oxi, oyi, rays@[c], bfp, h, y) {
                    spec_wall_pixel(m, texture_manager, oxi, oyi, rays@[c], bfp, y, h)
                } else {
                    spec_background_pixel(c, y, h)
                })
            ||| (exists|k: int, d: int| 0 <= k < sprite_manager.sprites@.len()
                    && !(#[trigger] sprite_manager.sprites@[k]).collected
                    && #[trigger] is_isqrt(d,
                        (sprite_manager.sprites@[k].x - player.pos.x)
                            * (sprite_manager.sprites@[k].x - player.pos.x)
                        + (sprite_manager.sprites@[k].y - player.pos.y)
                            * (sprite_manager.sprites@[k].y - player.pos.y))
                    && d < z_buffer@[idx])
            ||| (exists|d: int| #[trigger] is_isqrt(d,
                    (taylor_position.x - player.pos.x)
                        * (taylor_position.x - player.pos.x)
                    + (taylor_position.y - player.pos.y)
                        * (taylor_position.y - player.pos.y))
                && d < z_buffer@[idx])
            ||| fb.data@[idx] == aura_red()
        }) by {
            lemma_pixel_index(w, h, c, y, c, y);
            let idx = y * w + c;
            assert(wall_cell_done(m, texture_manager, oxi, oyi, rays@[c], bfp, h, w,
                y, c, z0, fb1, z_buffer@, fb_walls));
            assert(fb1[idx] == spec_background_pixel(c, y, h));
            if fb.data@[idx] != fb_sprites[idx] {
                // changed by the antagonist pass: depth-tested or aura
            } else if fb_sprites[idx] != fb_walls[idx] {
                // changed by the collectible pass: depth-tested
            } else {
                // untouched since the wall pass: wall or background color
            }
        }
    }
    z_buffer
}

/// See [`render_world_with_textures_sprites_and_taylor_textured`]: this
/// entry point delegates to the textured frame renderer and promises the
/// same depth buffer and the same per-pixel accounting.
pub fn render_world_with_textures_sprites_and_taylor(fb: &mut Framebuffer,
    maze: &Maze, block_size: usize, player: &Player, facing_sin: i64,
    facing_cos: i64, rays: &Vec<ColumnRay>, texture_manager: &TextureManager,
    sprite_manager: &SpriteManager, taylor_sprite: &TaylorSprite,
    taylor_position: Vec2) -> (z_buffer: Vec<i64>)
    requires
        old(fb).wf(),
        old(fb).height >= 2,
        rays@.len() == old(fb).width,
        forall|c: int| 0 <= c < rays@.len() ==> ray_wf(#[trigger] rays@[c]),
        0 < block_size <= 0x10000,
        -0x10000000 <= player.pos.x <= 0x10000000,
        -0x10000000 <= player.pos.y <= 0x10000000,
        -FP_ONE <= facing_sin <= FP_ONE,
        -FP_ONE <= facing_cos <= FP_ONE,
        64 <= player.fov <= 6434,
        texture_manager.wf(),
        forall|i: int| 0 <= i < sprite_manager.sprites@.len()
            ==> sprite_wf(#[trigger] sprite_manager.sprites@[i]),
        taylor_sprite.texture.wf(),
        -0x10000000 <= taylor_position.x <= 0x10000000,
        -0x10000000 <= taylor_position.y <= 0x10000000,
    ensures
        final(fb).wf(),
        final(fb).width == old(fb).width,
        final(fb).height == old(fb).height,
        z_buffer@.len() == old(fb).width * old(fb).height,
        forall|c: int, y: int|
            #![trigger z_buffer@[y * old(fb).width + c], rays@[c]]
            0 <= c < old(fb).width && 0 <= y < old(fb).height ==> {
            let idx = y * old(fb).width + c;
            let bfp = block_size as int * (FP_ONE as int);
            &&& (col_covers(maze@, player.pos.x as int, player.pos.y as int,
                rays@[c], bfp, old(fb).height as int, y)
                ==> z_buffer@[idx] == col_corrected(maze@, player.pos.x as int,
                    player.pos.y as int, rays@[c], bfp))
            &&& (!col_covers(maze@, player.pos.x as int, player.pos.y as int,
                rays@[c], bfp, old(fb).height as int, y)
                ==> z_buffer@[idx] == DEPTH_INF)
        },
        forall|c: int, y: int|
            #![trigger final(fb).data@[y * old(fb).width + c], rays@[c]]
            0 <= c < old(fb).width && 0 <= y < old(fb).height ==> {
            let m = maze@;
            let w = old(fb).width as int;
            let h = old(fb).height as int;
            let bfp = block_size as int * (FP_ONE as int);
            let idx = y * w + c;
            ||| final(fb).data@[idx] == (if col_covers(m, player.pos.x as int,
                    player.pos.y as int, rays@[c], bfp, h, y) {
                    spec_wall_pixel(m, texture_manager, player.pos.x as int,
                        player.pos.y as int, rays@[c], bfp, y, h)
                } else {
                    spec_background_pixel(c, y, h)
                })
            ||| (exists|k: int, d: int| 0 <= k < sprite_manager.sprites@.len()
                    && !(#[trigger] sprite_manager.sprites@[k]).collected
                    && #[trigger] is_isqrt(d,
                        (sprite_manager.sprites@[k].x - player.pos.x)
                            * (sprite_manager.sprites@[k].x - player.pos.x)
                        + (sprite_manager.sprites@[k].y - player.pos.y)
                            * (sprite_manager.sprites@[k].y - player.pos.y))
                    && d < z_buffer@[idx])
            ||| (exists|d: int| #[trigger] is_isqrt(d,
                    (taylor_position.x - player.pos.x)
                        * (taylor_position.x - player.pos.x)
                    + (taylor_position.y - player.pos.y)
                        * (taylor_position.y - player.pos.y))
                && d < z_buffer@[idx])
            ||| final(fb).data@[idx] == aura_red()
        },
{
    render_world_with_textures_sprites_and_taylor_textured(fb, maze, block_size,
        player, facing_sin, facing_cos, rays, texture_manager, sprite_manager,
        taylor_sprite, taylor_position)
}

} // verus!
