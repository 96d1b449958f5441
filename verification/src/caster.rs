//! The ray caster: marches a point along a ray in fixed half-unit steps
//! until it strikes a non-empty tile or leaves the grid, and reports the
//! first impact.
//!
//! The march is a fixed-step sampling, not an exact grid traversal: the
//! step of half a world unit must stay at or below half the smallest wall
//! feature, or a grazing ray could tunnel through a thin wall. That step
//! size is the engine's precision/performance trade-off; with the usual
//! cell size of 100 world units it oversamples each cell two hundredfold.

use vstd::prelude::*;
use crate::fixed::FP_ONE;
use crate::maze::Maze;
use crate::maze::BOUNDARY_TILE;
use crate::maze::EMPTY_TILE;

verus! {

/// Length of one march step: half a world unit, fixed-point.
pub const RAY_STEP: i64 = 512;

/// The hard distance cap: 2000 world units, fixed-point. A ray that has
/// sampled nothing but empty cells for this long reports the boundary
/// sentinel just past the cap.
pub const MAX_RAY_DIST: i64 = 2048000;

/// The number of whole steps that fit under the distance cap.
pub const MAX_RAY_STEPS: i64 = 4000;

/// A ray's first impact: the distance marched, the tile tag struck (the
/// boundary sentinel for off-grid or capped rays), the exact hit point, and
/// whether the hit point lies nearer a vertical than a horizontal cell edge
/// (true selects the y axis for the wall texture and the darker shading).
pub struct Intersect {
    pub distance: i64,
    pub impact: char,
    pub hit_x: i64,
    pub hit_y: i64,
    pub side: bool,
}

/// The tile under a world point, or `None` off the grid (negative
/// coordinates, beyond the rows, or beyond a possibly short row).
pub open spec fn tile_of_point(m: Seq<Vec<char>>, px: int, py: int, block_fp: int)
    -> Option<char>
{
    if px < 0 || py < 0 {
        None
    } else if py / block_fp >= m.len() {
        None
    } else if px / block_fp >= m[py / block_fp]@.len() {
        None
    } else {
        Some(m[py / block_fp]@[px / block_fp])
    }
}

/// The sample point `k` steps along the ray lies on an empty tile.
pub open spec fn sample_empty(m: Seq<Vec<char>>, ox: int, oy: int, sx: int, sy: int,
    block_fp: int, k: int) -> bool
{
    tile_of_point(m, ox + k * sx, oy + k * sy, block_fp) == Some(EMPTY_TILE)
}

/// The step count at which the march starting at step `k` ends: the first
/// sample that is not an empty in-grid tile, or one step past the distance
/// cap, whichever comes first.
pub open spec fn march_end(m: Seq<Vec<char>>, ox: int, oy: int, sx: int, sy: int,
    block_fp: int, k: int) -> int
    decreases MAX_RAY_STEPS as int + 1 - k,
{
    if k > MAX_RAY_STEPS {
        k
    } else if !sample_empty(m, ox, oy, sx, sy, block_fp, k) {
        k
    } else if (k + 1) * (RAY_STEP as int) > MAX_RAY_DIST {
        k + 1
    } else {
        march_end(m, ox, oy, sx, sy, block_fp, k + 1)
    }
}

/// Which cell edge the hit point is nearest: true when the fractional x
/// within the cell is closer to an edge than the fractional y (a hit on an
/// east/west face), used for shading and texture-axis selection.
pub open spec fn spec_side(px: int, py: int, block_fp: int) -> bool {
    let rx = px % block_fp;
    let ry = py % block_fp;
    let mx = if rx < block_fp - rx { rx } else { block_fp - rx };
    let my = if ry < block_fp - ry { ry } else { block_fp - ry };
    mx < my
}

/// The impact a ray cast must report: the march ends at step `k`; past the
/// cap the boundary sentinel comes back, otherwise the tile sampled there
/// (off-grid samples degrade to the sentinel, never to an index error).
pub open spec fn spec_cast(m: Seq<Vec<char>>, ox: int, oy: int, sx: int, sy: int,
    block_fp: int) -> Intersect
{
    let k = march_end(m, ox, oy, sx, sy, block_fp, 0);
    let px = ox + k * sx;
    let py = oy + k * sy;
    let d = k * (RAY_STEP as int);
    if d > MAX_RAY_DIST {
        Intersect {
            distance: d as i64,
            impact: BOUNDARY_TILE,
            hit_x: px as i64,
            hit_y: py as i64,
            side: false,
        }
    } else {
        match tile_of_point(m, px, py, block_fp) {
            Some(c) => Intersect {
                distance: d as i64,
                impact: c,
                hit_x: px as i64,
                hit_y: py as i64,
                side: spec_side(px, py, block_fp),
            },
            None => Intersect {
                distance: d as i64,
                impact: BOUNDARY_TILE,
                hit_x: px as i64,
                hit_y: py as i64,
                side: false,
            },
        }
    }
}

/// Cast one ray from `(origin_x, origin_y)` with per-step displacement
/// `(step_x, step_y)` (the ray direction scaled by [`RAY_STEP`]). Marches
/// until a non-empty tile is struck, the grid is left, or the distance cap
/// is passed, and returns the first impact; it never runs past the cap by
/// more than one step.
pub fn cast_ray(maze: &Maze, origin_x: i64, origin_y: i64, step_x: i64, step_y: i64,
    block_size: usize) -> (r: Intersect)
    requires
        0 < block_size <= 0x10000,
        -0x20000000 <= origin_x <= 0x20000000,
        -0x20000000 <= origin_y <= 0x20000000,
        -RAY_STEP <= step_x <= RAY_STEP,
        -RAY_STEP <= step_y <= RAY_STEP,
    ensures
        r == spec_cast(maze@, origin_x as int, origin_y as int, step_x as int,
            step_y as int, block_size as int * (FP_ONE as int)),
        0 <= r.distance <= MAX_RAY_DIST + RAY_STEP,
        r.impact != EMPTY_TILE,
{
    let ghost m = maze@;
    let ghost oxi = origin_x as int;
    let ghost oyi = origin_y as int;
    let ghost sxi = step_x as int;
    let ghost syi = step_y as int;
    let block_fp: i64 = (block_size as i64) * FP_ONE;
    let ghost bfp = block_fp as int;
    let mut k: i64 = 0;
    loop
        invariant
            0 < block_size <= 0x10000,
            -0x20000000 <= origin_x <= 0x20000000,
            -0x20000000 <= origin_y <= 0x20000000,
            -RAY_STEP <= step_x <= RAY_STEP,
            -RAY_STEP <= step_y <= RAY_STEP,
            block_fp == block_size as i64 * FP_ONE,
            bfp == block_fp as int,
            m == maze@,
            oxi == origin_x as int,
            oyi == origin_y as int,
            sxi == step_x as int,
            syi == step_y as int,
            0 <= k <= MAX_RAY_STEPS,
            march_end(m, oxi, oyi, sxi, syi, bfp, 0) == march_end(m, oxi, oyi, sxi,
                syi, bfp, k as int),
        decreases MAX_RAY_STEPS - k,
    {
        proof {
            assert(-2048000 <= k * step_x <= 2048000 && -2048000 <= k * step_y
                <= 2048000) by (nonlinear_arith)
                requires 0 <= k <= 4000, -512 <= step_x <= 512, -512 <= step_y <= 512;
        }
        let px: i64 = origin_x + k * step_x;
        let py: i64 = origin_y + k * step_y;
        let dist: i64 = k * RAY_STEP;

        if px < 0 || py < 0 {
            proof {
                assert(march_end(m, oxi, oyi, sxi, syi, bfp, k as int) == k as int);
            }
            return Intersect {
                distance: dist,
                impact: BOUNDARY_TILE,
                hit_x: px,
                hit_y: py,
                side: false,
            };
        }
        let gy: usize = ((py as u64) / (block_fp as u64)) as usize;
        if gy >= maze.len() {
            proof {
                assert(march_end(m, oxi, oyi, sxi, syi, bfp, k as int) == k as int);
            }
            return Intersect {
                distance: dist,
                impact: BOUNDARY_TILE,
                hit_x: px,
                hit_y: py,
                side: false,
            };
        }
        let row = &maze[gy];
        let gx: usize = ((px as u64) / (block_fp as u64)) as usize;
        if gx >= row.len() {
            proof {
                assert(march_end(m, oxi, oyi, sxi, syi, bfp, k as int) == k as int);
            }
            return Intersect {
                distance: dist,
                impact: BOUNDARY_TILE,
                hit_x: px,
                hit_y: py,
                side: false,
            };
        }
        let cell: char = row[gx];
        if cell != EMPTY_TILE {
            let bu: u64 = block_fp as u64;
            let rx: u64 = (px as u64) % bu;
            let ry: u64 = (py as u64) % bu;
            let mx: u64 = if rx < bu - rx { rx } else { bu - rx };
            let my: u64 = if ry < bu - ry { ry } else { bu - ry };
            let side = mx < my;
            proof {
                assert(march_end(m, oxi, oyi, sxi, syi, bfp, k as int) == k as int);
                assert(side == spec_side(px as int, py as int, bfp));
            }
            return Intersect {
                distance: dist,
                impact: cell,
                hit_x: px,
                hit_y: py,
                side,
            };
        }

        proof {
            assert(sample_empty(m, oxi, oyi, sxi, syi, bfp, k as int));
        }
        k = k + 1;
        if k * RAY_STEP > MAX_RAY_DIST {
            proof {
                assert(march_end(m, oxi, oyi, sxi, syi, bfp, k as int - 1) == k as int);
                assert(-2048512 <= k * step_x <= 2048512 && -2048512 <= k * step_y
                    <= 2048512) by (nonlinear_arith)
                    requires 0 <= k <= 4001, -512 <= step_x <= 512, -512 <= step_y <= 512;
            }
            return Intersect {
                distance: k * RAY_STEP,
                impact: BOUNDARY_TILE,
                hit_x: origin_x + k * step_x,
                hit_y: origin_y + k * step_y,
                side: false,
            };
        }
        proof {
            assert(march_end(m, oxi, oyi, sxi, syi, bfp, k as int - 1)
                == march_end(m, oxi, oyi, sxi, syi, bfp, k as int));
        }
    }
}

} // verus!
