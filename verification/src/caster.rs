//! The ray marcher: advances a sample point from the camera position in
//! fixed-size increments along a direction until the sampled cell is
//! solid or the sample leaves the grid. Pass-through trigger cells are
//! skipped. On a hit it also classifies which edge pair of the cell is
//! nearest to the impact point, which later selects the texture axis.

use vstd::prelude::*;

verus! {

use crate::geometry::{cos_milli, cos_milli_spec, scaled_toward, sin_milli, sin_milli_spec, PI_URAD};
use crate::maze::{block_ok, Cell, Maze};
use crate::player::Player;

/// Which edge pair of the hit cell the impact point is nearest to:
/// `Vertical` means the left or right edge (texture sampled along y),
/// `Horizontal` the top or bottom edge (texture sampled along x).
#[derive(Clone, Copy, PartialEq, Eq, Structural, Debug)]
pub enum WallSide {
    /// Nearest to the left or right cell edge; ties classify here.
    Vertical,
    /// Nearest to the top or bottom cell edge.
    Horizontal,
}

/// The result of one ray march: the marched distance, the cell that was
/// hit (`Cell::Empty` is the sentinel for leaving the grid: no wall, do
/// not render), the exact impact point and the edge classification.
#[derive(Clone, Copy, PartialEq, Eq, Structural, Debug)]
pub struct Intersect {
    /// World units marched from the camera position.
    pub distance: u64,
    /// The solid cell that stopped the ray, or `Cell::Empty` if the ray
    /// left the grid.
    pub impact: Cell,
    /// X coordinate of the impact point in world units.
    pub hit_x: i64,
    /// Y coordinate of the impact point in world units.
    pub hit_y: i64,
    /// Which edge pair of the cell was crossed.
    pub wall_side: WallSide,
}

/// One coordinate of the sample point at marched distance `d`: the
/// start coordinate plus `d` scaled by the direction component `dc`
/// (a per-mille fraction of a unit vector).
pub open spec fn sample_coord(c0: int, dc: int, d: int) -> int {
    c0 + scaled_toward(dc, d, 1000)
}

/// Whether the camera position lies inside the grid.
pub open spec fn pose_in_grid(m: Maze, px: int, py: int, block: int) -> bool {
    0 <= px < m.cols() * block && 0 <= py < m.rows() * block
}

/// A valid ray direction: per-mille components of a vector of length at
/// most one, not both zero.
pub open spec fn dir_ok(dx: int, dy: int) -> bool {
    -1000 <= dx <= 1000 && -1000 <= dy <= 1000 && !(dx == 0 && dy == 0)
}

/// Whether the sample at index `k` has left the grid.
pub open spec fn ray_oob_at(
    m: Maze,
    px: int,
    py: int,
    dx: int,
    dy: int,
    step: int,
    block: int,
    k: int,
) -> bool {
    let x = sample_coord(px, dx, k * step);
    let y = sample_coord(py, dy, k * step);
    x < 0 || y < 0 || x / block >= m.cols() || y / block >= m.rows()
}

/// Whether the sample at index `k` lands in a solid cell.
pub open spec fn ray_hit_at(
    m: Maze,
    px: int,
    py: int,
    dx: int,
    dy: int,
    step: int,
    block: int,
    k: int,
) -> bool {
    let x = sample_coord(px, dx, k * step);
    let y = sample_coord(py, dy, k * step);
    &&& !ray_oob_at(m, px, py, dx, dy, step, block, k)
    &&& m.cell(x / block, y / block).is_solid_spec()
}

/// Whether the march stops at sample `k`: a solid cell or out of bounds.
pub open spec fn ray_stops_at(
    m: Maze,
    px: int,
    py: int,
    dx: int,
    dy: int,
    step: int,
    block: int,
    k: int,
) -> bool {
    ray_oob_at(m, px, py, dx, dy, step, block, k) || ray_hit_at(m, px, py, dx, dy, step, block, k)
}

/// Whether `k` is the first sample index at which the march stops.
pub open spec fn ray_first_stop(
    m: Maze,
    px: int,
    py: int,
    dx: int,
    dy: int,
    step: int,
    block: int,
    k: int,
) -> bool {
    &&& 0 <= k
    &&& ray_stops_at(m, px, py, dx, dy, step, block, k)
    &&& forall|k2: int| 0 <= k2 < k ==> !ray_stops_at(m, px, py, dx, dy, step, block, k2)
}

/// The first sample index at which the march stops.
pub open spec fn ray_stop_index(
    m: Maze,
    px: int,
    py: int,
    dx: int,
    dy: int,
    step: int,
    block: int,
) -> int {
    choose|k: int| ray_first_stop(m, px, py, dx, dy, step, block, k)
}

/// There is at most one first stop.
pub proof fn lemma_first_stop_unique(
    m: Maze,
    px: int,
    py: int,
    dx: int,
    dy: int,
    step: int,
    block: int,
    k1: int,
    k2: int,
)
    requires
        ray_first_stop(m, px, py, dx, dy, step, block, k1),
        ray_first_stop(m, px, py, dx, dy, step, block, k2),
    ensures
        k1 == k2,
{
    if k1 < k2 {
        assert(!ray_stops_at(m, px, py, dx, dy, step, block, k1));
    }
    if k2 < k1 {
        assert(!ray_stops_at(m, px, py, dx, dy, step, block, k2));
    }
}

/// The nearest-edge classification of an in-cell impact point: the
/// distances from the point to the cell's four edges are `x % block`,
/// `block - x % block`, `y % block` and `block - y % block`; the side
/// with the smaller minimum wins and ties classify as vertical.
pub open spec fn side_of_spec(x: int, y: int, block: int) -> WallSide {
    let l = x % block;
    let r = block - l;
    let t = y % block;
    let b = block - t;
    let lr = if l <= r {
        l
    } else {
        r
    };
    let tb = if t <= b {
        t
    } else {
        b
    };
    if lr <= tb {
        WallSide::Vertical
    } else {
        WallSide::Horizontal
    }
}

/// The largest marched distance that an in-bounds sample can have, over
/// every well-formed maze: beyond it the sample has left the grid.
pub open spec fn ray_escape_bound() -> int {
    (1000 * 4096 * 100_000 + 1000) as int
}

/// An in-bounds sample bounds the marched distance: while the sample has
/// not left the grid, `k * step` stays below the escape bound.
pub proof fn lemma_inbounds_sample_bound(
    m: Maze,
    px: int,
    py: int,
    dx: int,
    dy: int,
    step: int,
    block: int,
    k: int,
)
    requires
        m.wf(),
        block_ok(block),
        pose_in_grid(m, px, py, block),
        dir_ok(dx, dy),
        step >= 1,
        k >= 0,
        !ray_oob_at(m, px, py, dx, dy, step, block, k),
    ensures
        k * step <= ray_escape_bound(),
{
    let d = k * step;
    let x = sample_coord(px, dx, d);
    let y = sample_coord(py, dy, d);
    assert(d >= 0) by (nonlinear_arith)
        requires
            d == k * step,
            k >= 0,
            step >= 1,
    ;
    assert(m.cols() * block <= 4096 * 100_000 && m.rows() * block <= 4096 * 100_000)
        by (nonlinear_arith)
        requires
            1 <= m.cols() <= 4096,
            1 <= m.rows() <= 4096,
            1 <= block <= 100_000,
    ;
    if dx != 0 {
        let ax = if dx >= 0 {
            dx
        } else {
            -dx
        };
        let off = (ax * d) / 1000;
        if dx >= 0 {
            // x = px + off and x / block < cols, so off < cols * block.
            assert(x / block < m.cols() && x >= 0);
            assert(x < m.cols() * block) by (nonlinear_arith)
                requires
                    x >= 0,
                    block >= 1,
                    x / block < m.cols(),
            ;
            assert(d <= ray_escape_bound()) by (nonlinear_arith)
                requires
                    off == (ax * d) / 1000,
                    1 <= ax <= 1000,
                    d >= 0,
                    off <= 4096 * 100_000,
                    x == px + off,
                    x < m.cols() * block,
                    px >= 0,
                    m.cols() * block <= 4096 * 100_000,
            ;
        } else {
            // x = px - off and x >= 0, so off <= px < cols * block.
            assert(x >= 0);
            assert(d <= ray_escape_bound()) by (nonlinear_arith)
                requires
                    off == (ax * d) / 1000,
                    1 <= ax <= 1000,
                    d >= 0,
                    x == px - off,
                    x >= 0,
                    px < m.cols() * block,
                    m.cols() * block <= 4096 * 100_000,
            ;
        }
    } else {
        let ay = if dy >= 0 {
            dy
        } else {
            -dy
        };
        let off = (ay * d) / 1000;
        if dy >= 0 {
            assert(y / block < m.rows() && y >= 0);
            assert(y < m.rows() * block) by (nonlinear_arith)
                requires
                    y >= 0,
                    block >= 1,
                    y / block < m.rows(),
            ;
            assert(d <= ray_escape_bound()) by (nonlinear_arith)
                requires
                    off == (ay * d) / 1000,
                    1 <= ay <= 1000,
                    d >= 0,
                    off <= 4096 * 100_000,
                    y == py + off,
                    y < m.rows() * block,
                    py >= 0,
                    m.rows() * block <= 4096 * 100_000,
            ;
        } else {
            assert(y >= 0);
            assert(d <= ray_escape_bound()) by (nonlinear_arith)
                requires
                    off == (ay * d) / 1000,
                    1 <= ay <= 1000,
                    d >= 0,
                    y == py - off,
                    y >= 0,
                    py < m.rows() * block,
                    m.rows() * block <= 4096 * 100_000,
            ;
        }
    }
}

/// Marches one ray by fixed steps from `(px, py)` along the per-mille
/// direction `(dx, dy)` until it stops, and returns the stop described
/// exactly: the distance is `step` times the first stopping sample
/// index, the impact point is the sample there, and on a hit the cell
/// and its nearest-edge classification are reported. When the ray
/// leaves the grid instead, the impact is the `Cell::Empty` sentinel:
/// no wall, nothing to render.
pub fn march_ray(maze: &Maze, px: i64, py: i64, dx: i64, dy: i64, step: u64, block_size: usize) -> (
    r: Intersect)
    requires
        maze.wf(),
        block_ok(block_size as int),
        pose_in_grid(*maze, px as int, py as int, block_size as int),
        dir_ok(dx as int, dy as int),
        1 <= step <= 0x10_0000,
    ensures
        ray_first_stop(
            *maze,
            px as int,
            py as int,
            dx as int,
            dy as int,
            step as int,
            block_size as int,
            ray_stop_index(
                *maze,
                px as int,
                py as int,
                dx as int,
                dy as int,
                step as int,
                block_size as int,
            ),
        ),
        r.distance == ray_stop_index(
            *maze,
            px as int,
            py as int,
            dx as int,
            dy as int,
            step as int,
            block_size as int,
        ) * step,
        r.hit_x == sample_coord(px as int, dx as int, r.distance as int),
        r.hit_y == sample_coord(py as int, dy as int, r.distance as int),
        if ray_hit_at(
            *maze,
            px as int,
            py as int,
            dx as int,
            dy as int,
            step as int,
            block_size as int,
            ray_stop_index(
                *maze,
                px as int,
                py as int,
                dx as int,
                dy as int,
                step as int,
                block_size as int,
            ),
        ) {
            &&& r.impact == maze.cell(
                r.hit_x as int / (block_size as int),
                r.hit_y as int / (block_size as int),
            )
            &&& r.impact.is_solid_spec()
            &&& r.wall_side == side_of_spec(r.hit_x as int, r.hit_y as int, block_size as int)
        } else {
            r.impact == Cell::Empty && r.wall_side == WallSide::Vertical
        },
{
    let ghost gpx: int = px as int;
    let ghost gpy: int = py as int;
    let ghost gdx: int = dx as int;
    let ghost gdy: int = dy as int;
    let ghost gstep: int = step as int;
    let ghost gblock: int = block_size as int;
    let bu: u64 = block_size as u64;
    let w: usize = maze.width();
    let h: usize = maze.height();
    let adx: u64 = if dx >= 0 { dx as u64 } else { (-dx) as u64 };
    let ady: u64 = if dy >= 0 { dy as u64 } else { (-dy) as u64 };
    let mut k: u64 = 0;
    let mut d: u64 = 0;
    proof {
        assert(maze.cols() * gblock <= 4096 * 100_000 && maze.rows() * gblock <= 4096 * 100_000)
            by (nonlinear_arith)
            requires
                1 <= maze.cols() <= 4096,
                1 <= maze.rows() <= 4096,
                1 <= gblock <= 100_000,
        ;
    }
    loop
        invariant
            0 <= gpx < 4096 * 100_000,
            0 <= gpy < 4096 * 100_000,
            k <= d,
            maze.wf(),
            block_ok(gblock),
            pose_in_grid(*maze, gpx, gpy, gblock),
            dir_ok(gdx, gdy),
            1 <= gstep <= 0x10_0000,
            gpx == px as int,
            gpy == py as int,
            gdx == dx as int,
            gdy == dy as int,
            gstep == step as int,
            gblock == block_size as int,
            bu == block_size as u64,
            w == maze.cols(),
            h == maze.rows(),
            adx == if gdx >= 0 {
                gdx
            } else {
                -gdx
            },
            ady == if gdy >= 0 {
                gdy
            } else {
                -gdy
            },
            d == k * gstep,
            d <= ray_escape_bound() + gstep,
            forall|k2: int| 0 <= k2 < k ==> !ray_stops_at(*maze, gpx, gpy, gdx, gdy, gstep, gblock, k2),
        decreases ray_escape_bound() + gstep - d,
    {
        assert((adx as int) * (d as int) <= 1000 * (ray_escape_bound() + 0x10_0000) && (ady as int)
            * (d as int) <= 1000 * (ray_escape_bound() + 0x10_0000)) by (nonlinear_arith)
            requires
                adx <= 1000,
                ady <= 1000,
                0 <= d <= ray_escape_bound() + 0x10_0000,
        ;
        let offx: u64 = adx * d / 1000;
        let offy: u64 = ady * d / 1000;
        assert(offx <= d && offy <= d) by (nonlinear_arith)
            requires
                offx == (adx as int) * (d as int) / 1000,
                offy == (ady as int) * (d as int) / 1000,
                adx <= 1000,
                ady <= 1000,
                d >= 0,
        ;
        let x: i64 = if dx >= 0 { px + offx as i64 } else { px - offx as i64 };
        let y: i64 = if dy >= 0 { py + offy as i64 } else { py - offy as i64 };
        proof {
            assert(x == sample_coord(gpx, gdx, k * gstep) && y == sample_coord(gpy, gdy, k * gstep));
        }
        if x < 0 || y < 0 {
            proof {
                assert(ray_oob_at(*maze, gpx, gpy, gdx, gdy, gstep, gblock, k as int));
                assert(ray_first_stop(*maze, gpx, gpy, gdx, gdy, gstep, gblock, k as int));
                lemma_first_stop_unique(
                    *maze,
                    gpx,
                    gpy,
                    gdx,
                    gdy,
                    gstep,
                    gblock,
                    k as int,
                    ray_stop_index(*maze, gpx, gpy, gdx, gdy, gstep, gblock),
                );
            }
            return Intersect {
                distance: d,
                impact: Cell::Empty,
                hit_x: x,
                hit_y: y,
                wall_side: WallSide::Vertical,
            };
        }
        let i: u64 = (x as u64) / bu;
        let j: u64 = (y as u64) / bu;
        if i >= w as u64 || j >= h as u64 {
            proof {
                assert(ray_oob_at(*maze, gpx, gpy, gdx, gdy, gstep, gblock, k as int));
                assert(ray_first_stop(*maze, gpx, gpy, gdx, gdy, gstep, gblock, k as int));
                lemma_first_stop_unique(
                    *maze,
                    gpx,
                    gpy,
                    gdx,
                    gdy,
                    gstep,
                    gblock,
                    k as int,
                    ray_stop_index(*maze, gpx, gpy, gdx, gdy, gstep, gblock),
                );
            }
            return Intersect {
                distance: d,
                impact: Cell::Empty,
                hit_x: x,
                hit_y: y,
                wall_side: WallSide::Vertical,
            };
        }
        let cell = maze.at(i as usize, j as usize);
        if cell.is_solid() {
            let l: u64 = (x as u64) % bu;
            let t: u64 = (y as u64) % bu;
            let rr: u64 = bu - l;
            let bb: u64 = bu - t;
            let lr: u64 = if l <= rr {
                l
            } else {
                rr
            };
            let tb: u64 = if t <= bb {
                t
            } else {
                bb
            };
            let side: WallSide = if lr <= tb {
                WallSide::Vertical
            } else {
                WallSide::Horizontal
            };
            proof {
                assert(ray_hit_at(*maze, gpx, gpy, gdx, gdy, gstep, gblock, k as int));
                assert(ray_first_stop(*maze, gpx, gpy, gdx, gdy, gstep, gblock, k as int));
                lemma_first_stop_unique(
                    *maze,
                    gpx,
                    gpy,
                    gdx,
                    gdy,
                    gstep,
                    gblock,
                    k as int,
                    ray_stop_index(*maze, gpx, gpy, gdx, gdy, gstep, gblock),
                );
                assert(side == side_of_spec(x as int, y as int, gblock));
            }
            return Intersect { distance: d, impact: cell, hit_x: x, hit_y: y, wall_side: side };
        }
        proof {
            assert(!ray_stops_at(*maze, gpx, gpy, gdx, gdy, gstep, gblock, k as int));
            lemma_inbounds_sample_bound(*maze, gpx, gpy, gdx, gdy, gstep, gblock, k as int);
            assert((k + 1) * gstep == k * gstep + gstep) by (nonlinear_arith);
        }
        k = k + 1;
        d = d + step;
    }
}

/// Casts one ray at the angle `a` (microradians) from the player's
/// position: the direction is the unit vector of `a` in per-mille
/// fixed point, and the march proceeds as in `march_ray`.
pub fn cast_ray(maze: &Maze, player: &Player, a: i64, block_size: usize, step: u64) -> (r:
    Intersect)
    requires
        maze.wf(),
        block_ok(block_size as int),
        pose_in_grid(*maze, player.pos.x as int, player.pos.y as int, block_size as int),
        -PI_URAD <= a <= PI_URAD,
        1 <= step <= 0x10_0000,
    ensures
        ({
            let dx = cos_milli_spec(a as int);
            let dy = sin_milli_spec(a as int);
            &&& ray_first_stop(
                *maze,
                player.pos.x as int,
                player.pos.y as int,
                dx,
                dy,
                step as int,
                block_size as int,
                ray_stop_index(
                    *maze,
                    player.pos.x as int,
                    player.pos.y as int,
                    dx,
                    dy,
                    step as int,
                    block_size as int,
                ),
            )
            &&& r.distance == ray_stop_index(
                *maze,
                player.pos.x as int,
                player.pos.y as int,
                dx,
                dy,
                step as int,
                block_size as int,
            ) * step
            &&& r.hit_x == sample_coord(player.pos.x as int, dx, r.distance as int)
            &&& r.hit_y == sample_coord(player.pos.y as int, dy, r.distance as int)
            &&& if ray_hit_at(
                *maze,
                player.pos.x as int,
                player.pos.y as int,
                dx,
                dy,
                step as int,
                block_size as int,
                ray_stop_index(
                    *maze,
                    player.pos.x as int,
                    player.pos.y as int,
                    dx,
                    dy,
                    step as int,
                    block_size as int,
                ),
            ) {
                &&& r.impact == maze.cell(
                    r.hit_x as int / (block_size as int),
                    r.hit_y as int / (block_size as int),
                )
                &&& r.impact.is_solid_spec()
                &&& r.wall_side == side_of_spec(r.hit_x as int, r.hit_y as int, block_size as int)
            } else {
                r.impact == Cell::Empty && r.wall_side == WallSide::Vertical
            }
        }),
{
    let dx: i64 = cos_milli(a);
    let dy: i64 = sin_milli(a);
    proof {
        lemma_trig_nonzero(a as int);
    }
    march_ray(maze, player.pos.x, player.pos.y, dx, dy, step, block_size)
}

/// On `[982, PI_URAD - 982]` microradians the rational sine is at least
/// one per-mille unit.
pub proof fn lemma_sin_half_pos(x: int)
    requires
        982 <= x <= PI_URAD - 982,
    ensures
        crate::geometry::sin_half_spec(x) >= 1,
{
    let p = crate::geometry::sin_prod(x);
    assert(p >= 982 * (PI_URAD - 982)) by (nonlinear_arith)
        requires
            982 <= x <= PI_URAD - 982,
            p == x * ((PI_URAD as int) - x),
    ;
    assert(p <= (PI_URAD as int) * (PI_URAD as int)) by (nonlinear_arith)
        requires
            0 <= x <= PI_URAD,
            p == x * ((PI_URAD as int) - x),
    ;
    assert(16000 * p >= 5 * (PI_URAD as int) * (PI_URAD as int) - 4 * p && 5 * (PI_URAD as int) * (
    PI_URAD as int) - 4 * p >= 1) by (nonlinear_arith)
        requires
            p >= 982 * (PI_URAD - 982),
            p <= (PI_URAD as int) * (PI_URAD as int),
    ;
    assert((16000 * p) / (5 * (PI_URAD as int) * (PI_URAD as int) - 4 * p) >= 1)
        by (nonlinear_arith)
        requires
            16000 * p >= 5 * (PI_URAD as int) * (PI_URAD as int) - 4 * p,
            5 * (PI_URAD as int) * (PI_URAD as int) - 4 * p >= 1,
    ;
}

/// The fixed-point sine and cosine of one angle are never both zero, so
/// every angle yields a usable ray direction.
pub proof fn lemma_trig_nonzero(a: int)
    requires
        -PI_URAD <= a <= PI_URAD,
    ensures
        !(cos_milli_spec(a) == 0 && sin_milli_spec(a) == 0),
{
    let pi = PI_URAD as int;
    if -982 < a < 982 {
        let y = pi / 2 - a;
        lemma_sin_half_pos(y);
        assert(cos_milli_spec(a) >= 1);
    } else if a >= pi - 982 {
        let y = pi / 2 - a;
        lemma_sin_half_pos(-y);
        assert(cos_milli_spec(a) <= -1);
    } else if a <= -(pi - 982) {
        let y = pi / 2 - a - (crate::geometry::TWO_PI_URAD as int);
        lemma_sin_half_pos(-y);
        assert(cos_milli_spec(a) <= -1);
    } else if a >= 982 {
        lemma_sin_half_pos(a);
        assert(sin_milli_spec(a) >= 1);
    } else {
        lemma_sin_half_pos(-a);
        assert(sin_milli_spec(a) <= -1);
    }
}

} // verus!

verus! {

use vstd::arithmetic::div_mod::lemma_mod_division_less_than_divisor;

/// At marched distance zero the sample is the camera position itself.
pub proof fn lemma_sample_at_zero(c0: int, dc: int)
    ensures
        sample_coord(c0, dc, 0) == c0,
{
    assert(scaled_toward(dc, 0, 1000) == 0);
}

/// Consecutive samples move by at most `step + 1` world units per axis.
pub proof fn lemma_sample_jump(c0: int, dc: int, d: int, step: int)
    requires
        -1000 <= dc <= 1000,
        d >= 0,
        step >= 1,
    ensures
        sample_coord(c0, dc, d + step) - sample_coord(c0, dc, d) <= step + 1,
        sample_coord(c0, dc, d) - sample_coord(c0, dc, d + step) <= step + 1,
{
    if dc >= 0 {
        assert((dc * (d + step)) / 1000 - (dc * d) / 1000 <= step + 1 && (dc * d) / 1000 - (dc * (d
            + step)) / 1000 <= 0) by (nonlinear_arith)
            requires
                0 <= dc <= 1000,
                d >= 0,
                step >= 1,
        ;
    } else {
        let e = -dc;
        assert((e * (d + step)) / 1000 - (e * d) / 1000 <= step + 1 && (e * d) / 1000 - (e * (d
            + step)) / 1000 <= 0) by (nonlinear_arith)
            requires
                0 <= e <= 1000,
                d >= 0,
                step >= 1,
        ;
    }
}

/// An in-range coordinate divides to an in-range cell column, and back.
proof fn lemma_div_range(v: int, block: int, n: int)
    by (nonlinear_arith)
    requires
        block >= 1,
        n >= 0,
        0 <= v < n * block,
    ensures
        0 <= v / block < n,
{
}

/// Some sample stops the march: the grid bounds check alone guarantees
/// that a fixed-step ray march cannot run forever.
pub proof fn lemma_stop_exists(m: Maze, px: int, py: int, dx: int, dy: int, step: int, block: int)
    requires
        m.wf(),
        block_ok(block),
        pose_in_grid(m, px, py, block),
        dir_ok(dx, dy),
        step >= 1,
    ensures
        exists|k: int| #[trigger] ray_stops_at(m, px, py, dx, dy, step, block, k) && k >= 0,
{
    let kb = ray_escape_bound() + 1;
    assert(kb * step > ray_escape_bound()) by (nonlinear_arith)
        requires
            kb == ray_escape_bound() + 1,
            step >= 1,
    ;
    if !ray_oob_at(m, px, py, dx, dy, step, block, kb) {
        lemma_inbounds_sample_bound(m, px, py, dx, dy, step, block, kb);
    }
    assert(ray_stops_at(m, px, py, dx, dy, step, block, kb) && kb >= 0);
}

/// Among the stopping samples there is a first one.
pub proof fn lemma_first_stop_exists(
    m: Maze,
    px: int,
    py: int,
    dx: int,
    dy: int,
    step: int,
    block: int,
    k: int,
)
    requires
        k >= 0,
        ray_stops_at(m, px, py, dx, dy, step, block, k),
    ensures
        exists|k0: int| #[trigger] ray_first_stop(m, px, py, dx, dy, step, block, k0),
    decreases k,
{
    if forall|k2: int| 0 <= k2 < k ==> !ray_stops_at(m, px, py, dx, dy, step, block, k2) {
        assert(ray_first_stop(m, px, py, dx, dy, step, block, k));
    } else {
        let k2 = choose|k2: int|
            0 <= k2 < k && ray_stops_at(m, px, py, dx, dy, step, block, k2);
        lemma_first_stop_exists(m, px, py, dx, dy, step, block, k2);
    }
}

/// A map whose entire outer boundary is solid.
pub open spec fn fully_enclosed(m: Maze) -> bool {
    forall|i: int, j: int|
        m.cell_in_bounds(i, j) && (i == 0 || j == 0 || i == m.cols() - 1 || j == m.rows() - 1)
            ==> (#[trigger] m.cell(i, j)).is_solid_spec()
}

/// In a fully-enclosed grid, a march from any pose inside the grid
/// terminates in a hit on a solid cell at a finite distance: it cannot
/// leave the grid, because a step of less than one cell cannot jump the
/// solid boundary ring. The step bound is what rules out tunneling.
pub proof fn lemma_enclosed_ray_hits(
    m: Maze,
    px: int,
    py: int,
    dx: int,
    dy: int,
    step: int,
    block: int,
)
    requires
        m.wf(),
        block_ok(block),
        pose_in_grid(m, px, py, block),
        dir_ok(dx, dy),
        fully_enclosed(m),
        1 <= step,
        step < block,
    ensures
        ray_first_stop(
            m,
            px,
            py,
            dx,
            dy,
            step,
            block,
            ray_stop_index(m, px, py, dx, dy, step, block),
        ),
        ray_hit_at(m, px, py, dx, dy, step, block, ray_stop_index(m, px, py, dx, dy, step, block)),
        ray_stop_index(m, px, py, dx, dy, step, block) * step <= ray_escape_bound(),
{
    lemma_stop_exists(m, px, py, dx, dy, step, block);
    let ks = choose|k: int| #[trigger] ray_stops_at(m, px, py, dx, dy, step, block, k) && k >= 0;
    lemma_first_stop_exists(m, px, py, dx, dy, step, block, ks);
    let k0 = choose|k0: int| #[trigger] ray_first_stop(m, px, py, dx, dy, step, block, k0);
    assert(ray_first_stop(m, px, py, dx, dy, step, block, k0));
    lemma_first_stop_unique(
        m,
        px,
        py,
        dx,
        dy,
        step,
        block,
        k0,
        ray_stop_index(m, px, py, dx, dy, step, block),
    );
    // The first stop cannot be out of bounds.
    if ray_oob_at(m, px, py, dx, dy, step, block, k0) {
        lemma_sample_at_zero(px, dx);
        lemma_sample_at_zero(py, dy);
        lemma_div_range(px, block, m.cols());
        lemma_div_range(py, block, m.rows());
        assert(!ray_oob_at(m, px, py, dx, dy, step, block, 0));
        assert(k0 >= 1);
        let kp = k0 - 1;
        assert(!ray_stops_at(m, px, py, dx, dy, step, block, kp));
        let dprev = kp * step;
        let xp = sample_coord(px, dx, dprev);
        let yp = sample_coord(py, dy, dprev);
        let i = xp / block;
        let j = yp / block;
        assert(0 <= i < m.cols() && 0 <= j < m.rows() && xp >= 0 && yp >= 0);
        assert(!m.cell(i, j).is_solid_spec());
        // A walkable cell is never on the boundary ring.
        assert(1 <= i <= m.cols() - 2 && 1 <= j <= m.rows() - 2);
        // Coordinate bounds of the previous sample from its cell.
        assert(i * block <= xp < (i + 1) * block && j * block <= yp < (j + 1) * block)
            by (nonlinear_arith)
            requires
                block >= 1,
                xp >= 0,
                yp >= 0,
                i == xp / block,
                j == yp / block,
        ;
        assert(block <= xp && xp < (m.cols() - 1) * block) by (nonlinear_arith)
            requires
                i * block <= xp < (i + 1) * block,
                1 <= i <= m.cols() - 2,
                block >= 1,
        ;
        assert(block <= yp && yp < (m.rows() - 1) * block) by (nonlinear_arith)
            requires
                j * block <= yp < (j + 1) * block,
                1 <= j <= m.rows() - 2,
                block >= 1,
        ;
        assert(dprev >= 0) by (nonlinear_arith)
            requires
                dprev == kp * step,
                kp >= 0,
                step >= 1,
        ;
        lemma_sample_jump(px, dx, dprev, step);
        lemma_sample_jump(py, dy, dprev, step);
        let xn = sample_coord(px, dx, dprev + step);
        let yn = sample_coord(py, dy, dprev + step);
        assert(k0 * step == dprev + step) by (nonlinear_arith)
            requires
                dprev == (k0 - 1) * step,
        ;
        assert(xn >= 0 && yn >= 0);
        assert(xn < m.cols() * block && yn < m.rows() * block) by (nonlinear_arith)
            requires
                xn <= xp + step + 1,
                yn <= yp + step + 1,
                xp < (m.cols() - 1) * block,
                yp < (m.rows() - 1) * block,
                step + 1 <= block,
        ;
        lemma_div_range(xn, block, m.cols());
        lemma_div_range(yn, block, m.rows());
        assert(!ray_oob_at(m, px, py, dx, dy, step, block, k0));
        assert(false);
    }
    lemma_inbounds_sample_bound(m, px, py, dx, dy, step, block, k0);
}

/// A ray aimed perpendicular at a wall face: along the positive x axis,
/// with only walkable cells between the pose and the wall column, the
/// march reports the first sampled distance at or past the face. The
/// reported distance overshoots the exact face distance by less than
/// one step, and equals it exactly whenever the step divides it.
pub proof fn lemma_perpendicular_distance(
    m: Maze,
    px: int,
    py: int,
    step: int,
    block: int,
    iw: int,
)
    requires
        m.wf(),
        block_ok(block),
        pose_in_grid(m, px, py, block),
        1 <= step <= block,
        px / block < iw < m.cols(),
        m.cell(iw, py / block).is_solid_spec(),
        forall|i: int|
            px / block <= i < iw ==> !(#[trigger] m.cell(i, py / block)).is_solid_spec(),
    ensures
        ({
            let dist = iw * block - px;
            let k0 = ray_stop_index(m, px, py, 1000, 0, step, block);
            &&& ray_first_stop(m, px, py, 1000, 0, step, block, k0)
            &&& ray_hit_at(m, px, py, 1000, 0, step, block, k0)
            &&& dist <= k0 * step < dist + step
            &&& (dist % step == 0 ==> k0 * step == dist)
        }),
{
    let dist = iw * block - px;
    assert(px < iw * block && dist <= m.cols() * block) by (nonlinear_arith)
        requires
            px >= 0,
            block >= 1,
            px / block < iw <= m.cols(),
            dist == iw * block - px,
    ;
    let k0 = (dist + step - 1) / step;
    assert(k0 >= 1 && dist <= k0 * step < dist + step && (dist % step == 0 ==> k0 * step == dist))
        by (nonlinear_arith)
        requires
            k0 == (dist + step - 1) / step,
            dist >= 1,
            step >= 1,
    ;
    // Sampling along +x moves exactly the marched distance.
    assert forall|k: int| k >= 0 implies #[trigger] sample_coord(px, 1000, k * step) == px + k
        * step && sample_coord(py, 0, k * step) == py by {
        assert((1000 * (k * step)) / 1000 == k * step && (0 * (k * step)) / 1000 == 0)
            by (nonlinear_arith)
            requires
                k >= 0,
                step >= 1,
        ;
    }
    lemma_div_range(py, block, m.rows());
    // Before the face: in a walkable cell, so no stop.
    assert forall|k: int| 0 <= k < k0 implies !ray_stops_at(m, px, py, 1000, 0, step, block, k) by {
        let x = sample_coord(px, 1000, k * step);
        assert(px <= x < iw * block) by (nonlinear_arith)
            requires
                x == px + k * step,
                0 <= k < k0,
                step >= 1,
                k0 * step < dist + step,
                k0 >= 1,
                dist == iw * block - px,
        ;
        assert(px / block <= x / block < iw) by (nonlinear_arith)
            requires
                block >= 1,
                px >= 0,
                px <= x,
                x < iw * block,
        ;
        assert(x / block < m.cols() && x >= 0);
        assert(!m.cell(x / block, py / block).is_solid_spec());
    }
    // At k0 the sample lands inside the wall cell.
    let xh = sample_coord(px, 1000, k0 * step);
    assert(iw * block <= xh < (iw + 1) * block) by (nonlinear_arith)
        requires
            xh == px + k0 * step,
            dist <= k0 * step < dist + step,
            dist == iw * block - px,
            step <= block,
    ;
    assert(xh / block == iw) by (nonlinear_arith)
        requires
            iw * block <= xh < (iw + 1) * block,
            block >= 1,
            iw >= 0,
    ;
    assert(ray_hit_at(m, px, py, 1000, 0, step, block, k0));
    assert(ray_first_stop(m, px, py, 1000, 0, step, block, k0));
    lemma_first_stop_unique(
        m,
        px,
        py,
        1000,
        0,
        step,
        block,
        k0,
        ray_stop_index(m, px, py, 1000, 0, step, block),
    );
}

/// Wall-side classification at cell edges: an impact exactly on a
/// cell's left edge classifies vertical; one exactly on the top edge
/// but not on a vertical edge classifies horizontal; and whenever the
/// two minima tie, the vertical side wins.
pub proof fn lemma_side_classification(x: int, y: int, block: int)
    requires
        block >= 1,
        x >= 0,
        y >= 0,
    ensures
        x % block == 0 ==> side_of_spec(x, y, block) == WallSide::Vertical,
        y % block == 0 && x % block != 0 ==> side_of_spec(x, y, block) == WallSide::Horizontal,
        ({
            let l = x % block;
            let t = y % block;
            let lr = if l <= block - l {
                l
            } else {
                block - l
            };
            let tb = if t <= block - t {
                t
            } else {
                block - t
            };
            lr == tb ==> side_of_spec(x, y, block) == WallSide::Vertical
        }),
{
    lemma_mod_division_less_than_divisor(x, block);
    lemma_mod_division_less_than_divisor(y, block);
}

} // verus!

verus! {

use crate::color::{scale_channel, scale_channel_spec, Color};
use crate::framebuffer::{lemma_pix_idx_bounds, lemma_pix_idx_injective, pix_idx, Framebuffer};
use crate::geometry::{norm_angle, norm_angle_spec};
use crate::textures::TextureManager;

/// Screen columns covered by each cast ray: every other column is
/// sampled and its result replicated to the next one.
pub const RAY_SCALE: usize = 2;

/// Fixed march step of the renderer, in world units.
pub const RAY_STEP: u64 = 3;

/// Distance to the projection plane that scales wall heights.
pub const PROJ_PLANE_DIST: u64 = 100;

/// Distance at which the linear shading falloff reaches black.
pub const SHADE_MAX_DIST: u64 = 1000;

/// Depth buffer sentinel: nothing to occlude against in this column.
pub const DEPTH_FAR: u64 = u64::MAX;

/// The ray angle of column-group `i` out of `num`: the left edge of the
/// field of view plus `i / num` of its width.
pub open spec fn column_angle(heading: int, fov: int, i: int, num: int) -> int {
    heading - fov / 2 + (fov * i) / num
}

/// X direction component of ray `i`.
pub open spec fn col_dir_x(heading: int, fov: int, i: int, num: int) -> int {
    cos_milli_spec(norm_angle_spec(column_angle(heading, fov, i, num)))
}

/// Y direction component of ray `i`.
pub open spec fn col_dir_y(heading: int, fov: int, i: int, num: int) -> int {
    sin_milli_spec(norm_angle_spec(column_angle(heading, fov, i, num)))
}

/// First stopping sample index of ray `i`.
pub open spec fn col_stop(m: Maze, p: Player, i: int, num: int, block: int) -> int {
    ray_stop_index(
        m,
        p.pos.x as int,
        p.pos.y as int,
        col_dir_x(p.a as int, p.fov as int, i, num),
        col_dir_y(p.a as int, p.fov as int, i, num),
        RAY_STEP as int,
        block,
    )
}

/// Marched distance of ray `i`.
pub open spec fn col_dist(m: Maze, p: Player, i: int, num: int, block: int) -> int {
    col_stop(m, p, i, num, block) * (RAY_STEP as int)
}

/// Whether ray `i` hit a wall (rather than leaving the grid).
pub open spec fn col_hits(m: Maze, p: Player, i: int, num: int, block: int) -> bool {
    ray_hit_at(
        m,
        p.pos.x as int,
        p.pos.y as int,
        col_dir_x(p.a as int, p.fov as int, i, num),
        col_dir_y(p.a as int, p.fov as int, i, num),
        RAY_STEP as int,
        block,
        col_stop(m, p, i, num, block),
    )
}

/// X coordinate of the impact point of ray `i`.
pub open spec fn col_hit_x(m: Maze, p: Player, i: int, num: int, block: int) -> int {
    sample_coord(
        p.pos.x as int,
        col_dir_x(p.a as int, p.fov as int, i, num),
        col_dist(m, p, i, num, block),
    )
}

/// Y coordinate of the impact point of ray `i`.
pub open spec fn col_hit_y(m: Maze, p: Player, i: int, num: int, block: int) -> int {
    sample_coord(
        p.pos.y as int,
        col_dir_y(p.a as int, p.fov as int, i, num),
        col_dist(m, p, i, num, block),
    )
}

/// The cell that ray `i` hit.
pub open spec fn col_cell(m: Maze, p: Player, i: int, num: int, block: int) -> Cell {
    m.cell(col_hit_x(m, p, i, num, block) / block, col_hit_y(m, p, i, num, block) / block)
}

/// The edge classification of the hit of ray `i`.
pub open spec fn col_side(m: Maze, p: Player, i: int, num: int, block: int) -> WallSide {
    side_of_spec(col_hit_x(m, p, i, num, block), col_hit_y(m, p, i, num, block), block)
}

/// The sub-cell coordinate driving the horizontal texture coordinate:
/// the impact's fractional y for vertical walls, fractional x for
/// horizontal walls.
pub open spec fn col_wall_x(m: Maze, p: Player, i: int, num: int, block: int) -> int {
    (if col_side(m, p, i, num, block) == WallSide::Vertical {
        col_hit_y(m, p, i, num, block)
    } else {
        col_hit_x(m, p, i, num, block)
    }) % block
}

/// The horizontal texture coordinate of ray `i`: the sub-cell
/// coordinate scaled to the texture width and clamped; zero for an
/// unmapped tag.
pub open spec fn col_tex_x(
    m: Maze,
    p: Player,
    tm: TextureManager,
    i: int,
    num: int,
    block: int,
) -> int {
    if tm.has_tag(col_cell(m, p, i, num, block).tag_spec()) {
        let tw = tm.texture_for(col_cell(m, p, i, num, block).tag_spec()).width as int;
        let v = (col_wall_x(m, p, i, num, block) * tw) / block;
        if v >= tw {
            tw - 1
        } else {
            v
        }
    } else {
        0
    }
}

/// The texture height used for the vertical texture coordinate; 64 for
/// an unmapped tag (whose sample is white regardless).
pub open spec fn col_tex_h(m: Maze, p: Player, tm: TextureManager, i: int, num: int, block: int) -> int {
    if tm.has_tag(col_cell(m, p, i, num, block).tag_spec()) {
        tm.texture_for(col_cell(m, p, i, num, block).tag_spec()).height as int
    } else {
        64
    }
}

/// Shading intensity of ray `i` in per-mille: linear falloff from 1000
/// at distance zero to 0 at `SHADE_MAX_DIST`.
pub open spec fn col_shade(m: Maze, p: Player, i: int, num: int, block: int) -> int {
    if col_dist(m, p, i, num, block) >= SHADE_MAX_DIST {
        0
    } else {
        (SHADE_MAX_DIST as int) - col_dist(m, p, i, num, block)
    }
}

/// Top screen row of the wall strip of ray `i`: the projected wall
/// height is `(h/2) * PROJ_PLANE_DIST / distance`, centered vertically
/// and clamped to the screen.
pub open spec fn col_top(m: Maze, p: Player, i: int, num: int, block: int, h: int) -> int {
    let hh = h / 2;
    let sh = (hh * (PROJ_PLANE_DIST as int)) / col_dist(m, p, i, num, block);
    if sh / 2 > hh {
        0
    } else {
        hh - sh / 2
    }
}

/// One-past-bottom screen row of the wall strip of ray `i`.
pub open spec fn col_bottom(m: Maze, p: Player, i: int, num: int, block: int, h: int) -> int {
    let hh = h / 2;
    let sh = (hh * (PROJ_PLANE_DIST as int)) / col_dist(m, p, i, num, block);
    if hh + sh / 2 > h {
        h
    } else {
        hh + sh / 2
    }
}

/// A color with its RGB channels scaled by a per-mille intensity and
/// full opacity.
pub open spec fn shaded_spec(c: Color, f: int) -> Color {
    Color {
        r: scale_channel_spec(c.r as int, f) as u8,
        g: scale_channel_spec(c.g as int, f) as u8,
        b: scale_channel_spec(c.b as int, f) as u8,
        a: 255,
    }
}

/// The color the wall strip of ray `i` paints at screen row `y`.
pub open spec fn col_strip_color(
    m: Maze,
    p: Player,
    tm: TextureManager,
    i: int,
    num: int,
    block: int,
    h: int,
    y: int,
) -> Color {
    let top = col_top(m, p, i, num, block, h);
    let bottom = col_bottom(m, p, i, num, block, h);
    let ty = ((y - top) * col_tex_h(m, p, tm, i, num, block)) / (bottom - top);
    shaded_spec(
        tm.sample_spec(col_cell(m, p, i, num, block).tag_spec(), col_tex_x(m, p, tm, i, num, block), ty),
        col_shade(m, p, i, num, block),
    )
}

/// What one render pass leaves in the pixel at `(x, y)`: the shaded
/// wall texel when the column's ray hit a wall and the row lies in its
/// strip, the prior contents otherwise (rays that leave the grid draw
/// nothing).
pub open spec fn rendered_pixel(
    m: Maze,
    p: Player,
    tm: TextureManager,
    w: int,
    h: int,
    block: int,
    x: int,
    y: int,
    old_pix: Color,
) -> Color {
    let num = w / (RAY_SCALE as int);
    let i = x / (RAY_SCALE as int);
    if 0 <= x < num * (RAY_SCALE as int) && col_hits(m, p, i, num, block) && col_top(
        m,
        p,
        i,
        num,
        block,
        h,
    ) <= y < col_bottom(m, p, i, num, block, h) {
        col_strip_color(m, p, tm, i, num, block, h, y)
    } else {
        old_pix
    }
}

/// What one render pass leaves in the depth buffer at column `x`: the
/// wall distance of the column's ray, or the far sentinel when the ray
/// left the grid or the column is past the covered range.
pub open spec fn depth_at(m: Maze, p: Player, w: int, block: int, x: int) -> int {
    let num = w / (RAY_SCALE as int);
    let i = x / (RAY_SCALE as int);
    if 0 <= x < num * (RAY_SCALE as int) && col_hits(m, p, i, num, block) {
        col_dist(m, p, i, num, block)
    } else {
        DEPTH_FAR as int
    }
}

/// Paints one vertical wall strip: column `x`, rows `top` up to
/// `bottom`, sampling the texture for `tag` at the fixed horizontal
/// coordinate `tex_x` and a vertical coordinate interpolated over the
/// strip, shaded by the per-mille intensity `shade`.
fn draw_wall_strip(
    fb: &mut Framebuffer,
    tm: &TextureManager,
    x: u32,
    top: u32,
    bottom: u32,
    tag: char,
    tex_x: u32,
    tex_h: u32,
    shade: u32,
)
    requires
        old(fb).wf(),
        tm.wf(),
        bottom <= old(fb).height,
        shade <= 1000,
        1 <= tex_h <= 4096,
    ensures
        final(fb).wf(),
        final(fb).width == old(fb).width,
        final(fb).height == old(fb).height,
        final(fb).background_color == old(fb).background_color,
        final(fb).current_color == old(fb).current_color,
        forall|qx: int, qy: int|
            final(fb).in_bounds(qx, qy) ==> #[trigger] final(fb).pix(qx, qy) == if qx == x && top
                <= qy < bottom {
                shaded_spec(
                    tm.sample_spec(tag, tex_x as int, ((qy - top) * tex_h) / (bottom - top)),
                    shade as int,
                )
            } else {
                old(fb).pix(qx, qy)
            },
{
    let mut y: u32 = top;
    while y < bottom
        invariant
            fb.wf(),
            tm.wf(),
            fb.width == old(fb).width,
            fb.height == old(fb).height,
            fb.background_color == old(fb).background_color,
            fb.current_color == old(fb).current_color,
            bottom <= fb.height,
            shade <= 1000,
            1 <= tex_h <= 4096,
            top <= y <= bottom || y == top,
            forall|qx: int, qy: int|
                fb.in_bounds(qx, qy) ==> #[trigger] fb.pix(qx, qy) == if qx == x && top <= qy < y {
                    shaded_spec(
                        tm.sample_spec(tag, tex_x as int, ((qy - top) * tex_h) / (bottom - top)),
                        shade as int,
                    )
                } else {
                    old(fb).pix(qx, qy)
                },
        decreases bottom - y,
    {
        assert(((y - top) as int) * (tex_h as int) <= 32768 * 4096) by (nonlinear_arith)
            requires
                y - top <= 32768,
                tex_h <= 4096,
        ;
        let ty: u32 = ((y - top) * tex_h) / (bottom - top);
        let c = tm.get_pixel_color(tag, tex_x, ty);
        let shaded = Color {
            r: scale_channel(c.r, shade),
            g: scale_channel(c.g, shade),
            b: scale_channel(c.b, shade),
            a: 255,
        };
        let ghost pre = *fb;
        fb.set_pixel_color(x, y, shaded);
        proof {
            assert forall|qx: int, qy: int| fb.in_bounds(qx, qy) implies #[trigger] fb.pix(qx, qy)
                == if qx == x && top <= qy < y + 1 {
                shaded_spec(
                    tm.sample_spec(tag, tex_x as int, ((qy - top) * tex_h) / (bottom - top)),
                    shade as int,
                )
            } else {
                old(fb).pix(qx, qy)
            } by {
                lemma_pix_idx_bounds(fb.width as int, fb.height as int, qx, qy);
                if fb.in_bounds(x as int, y as int) {
                    lemma_pix_idx_bounds(fb.width as int, fb.height as int, x as int, y as int);
                    if pix_idx(fb.width as int, qx, qy) == pix_idx(
                        fb.width as int,
                        x as int,
                        y as int,
                    ) {
                        lemma_pix_idx_injective(fb.width as int, qx, qy, x as int, y as int);
                        assert(fb.pix(qx, qy) == shaded);
                    } else {
                        assert(fb.pix(qx, qy) == pre.pix(qx, qy));
                    }
                } else {
                    assert(fb.pix(qx, qy) == pre.pix(qx, qy));
                }
            }
        }
        y = y + 1;
    }
}

} // verus!

verus! {

use crate::geometry::TWO_PI_URAD;

/// Renders the pseudo-3-D view: one ray per column group, walls drawn
/// as shaded textured vertical strips, and returns the per-column depth
/// buffer. Every column covered by a ray that hit a wall records the
/// wall distance; columns whose ray left the grid, and columns past the
/// covered range, keep the far sentinel and no pixels are written for
/// them.
pub fn render3d(
    framebuffer: &mut Framebuffer,
    player: &Player,
    texture_manager: &TextureManager,
    maze: &Maze,
) -> (z: Vec<u64>)
    requires
        old(framebuffer).wf(),
        maze.wf(),
        texture_manager.wf(),
        pose_in_grid(*maze, player.pos.x as int, player.pos.y as int, crate::BLOCK_SIZE as int),
        -PI_URAD <= player.a <= PI_URAD,
        0 <= player.fov <= TWO_PI_URAD,
        !maze.cell(
            player.pos.x as int / (crate::BLOCK_SIZE as int),
            player.pos.y as int / (crate::BLOCK_SIZE as int),
        ).is_solid_spec(),
    ensures
        final(framebuffer).wf(),
        final(framebuffer).width == old(framebuffer).width,
        final(framebuffer).height == old(framebuffer).height,
        final(framebuffer).background_color == old(framebuffer).background_color,
        final(framebuffer).current_color == old(framebuffer).current_color,
        z.len() == old(framebuffer).width,
        forall|x: int|
            0 <= x < z.len() ==> #[trigger] z@[x] == depth_at(
                *maze,
                *player,
                old(framebuffer).width as int,
                crate::BLOCK_SIZE as int,
                x,
            ),
        forall|qx: int, qy: int|
            final(framebuffer).in_bounds(qx, qy) ==> #[trigger] final(framebuffer).pix(qx, qy)
                == rendered_pixel(
                *maze,
                *player,
                *texture_manager,
                old(framebuffer).width as int,
                old(framebuffer).height as int,
                crate::BLOCK_SIZE as int,
                qx,
                qy,
                old(framebuffer).pix(qx, qy),
            ),
{
    let ghost gm: Maze = *maze;
    let ghost gp: Player = *player;
    let ghost gtm: TextureManager = *texture_manager;
    let ghost gb: int = crate::BLOCK_SIZE as int;
    let w: u32 = framebuffer.width;
    let h: u32 = framebuffer.height;
    let ghost gw: int = w as int;
    let ghost gh: int = h as int;
    let num: usize = (w as usize) / RAY_SCALE;
    let ghost gnum: int = num as int;
    let mut z: Vec<u64> = vec![DEPTH_FAR; w as usize];
    let hh: u32 = h / 2;
    let mut i: usize = 0;
    while i < num
        invariant
            framebuffer.wf(),
            maze.wf(),
            texture_manager.wf(),
            framebuffer.width == old(framebuffer).width,
            framebuffer.height == old(framebuffer).height,
            framebuffer.background_color == old(framebuffer).background_color,
            framebuffer.current_color == old(framebuffer).current_color,
            gm == *maze,
            gp == *player,
            gtm == *texture_manager,
            gb == crate::BLOCK_SIZE as int,
            w == old(framebuffer).width,
            h == old(framebuffer).height,
            gw == w as int,
            gh == h as int,
            hh == h / 2,
            num == (w as int) / (RAY_SCALE as int),
            gnum == num as int,
            pose_in_grid(gm, gp.pos.x as int, gp.pos.y as int, gb),
            -PI_URAD <= gp.a <= PI_URAD,
            0 <= gp.fov <= TWO_PI_URAD,
            !gm.cell(gp.pos.x as int / gb, gp.pos.y as int / gb).is_solid_spec(),
            0 <= i <= num,
            z.len() == w,
            forall|x: int|
                0 <= x < 2 * i ==> #[trigger] z@[x] == depth_at(gm, gp, gw, gb, x),
            forall|x: int| 2 * i <= x < w ==> #[trigger] z@[x] == DEPTH_FAR,
            forall|qx: int, qy: int|
                framebuffer.in_bounds(qx, qy) ==> #[trigger] framebuffer.pix(qx, qy) == if qx < 2
                    * i {
                    rendered_pixel(gm, gp, gtm, gw, gh, gb, qx, qy, old(framebuffer).pix(qx, qy))
                } else {
                    old(framebuffer).pix(qx, qy)
                },
        decreases num - i,
    {
        let ghost gi: int = i as int;
        proof {
            assert((gp.fov as int) * (i as int) <= 6283186 * 16384) by (nonlinear_arith)
                requires
                    0 <= gp.fov <= TWO_PI_URAD,
                    0 <= i <= 16384,
            ;
            assert((gp.fov as int) * (i as int) / (num as int) <= 6283186 * 16384)
                by (nonlinear_arith)
                requires
                    0 <= (gp.fov as int) * (i as int) <= 6283186 * 16384,
                    num >= 1,
            ;
        }
        let fovh: i64 = ((player.fov as u64) / 2) as i64;
        let frac: i64 = (((player.fov as u64) * (i as u64)) / (num as u64)) as i64;
        let ai: i64 = player.a - fovh + frac;
        proof {
            assert(ai == column_angle(gp.a as int, gp.fov as int, gi, gnum));
        }
        let an: i64 = norm_angle(ai);
        let r = cast_ray(maze, player, an, crate::BLOCK_SIZE, RAY_STEP);
        let ghost dirx: int = col_dir_x(gp.a as int, gp.fov as int, gi, gnum);
        let ghost diry: int = col_dir_y(gp.a as int, gp.fov as int, gi, gnum);
        let ghost k0: int = col_stop(gm, gp, gi, gnum, gb);
        proof {
            assert(dirx == cos_milli_spec(an as int) && diry == sin_milli_spec(an as int));
            assert(r.distance == col_dist(gm, gp, gi, gnum, gb));
            assert(r.hit_x == col_hit_x(gm, gp, gi, gnum, gb));
            assert(r.hit_y == col_hit_y(gm, gp, gi, gnum, gb));
        }
        let solid = r.impact.is_solid();
        proof {
            assert(solid == col_hits(gm, gp, gi, gnum, gb));
        }
        if solid {
            proof {
                lemma_sample_at_zero(gp.pos.x as int, dirx);
                lemma_sample_at_zero(gp.pos.y as int, diry);
                lemma_div_range(gp.pos.x as int, gb, gm.cols());
                lemma_div_range(gp.pos.y as int, gb, gm.rows());
                assert(!ray_stops_at(gm, gp.pos.x as int, gp.pos.y as int, dirx, diry, 3, gb, 0));
                assert(k0 >= 1);
                assert(k0 * 3 >= 3) by (nonlinear_arith)
                    requires
                        k0 >= 1,
                ;
            }
            let dist: u64 = r.distance;
            let shade: u32 = if dist >= SHADE_MAX_DIST {
                0
            } else {
                (SHADE_MAX_DIST - dist) as u32
            };
            let vertical = match r.wall_side {
                WallSide::Vertical => true,
                _ => false,
            };
            proof {
                assert(r.hit_x >= 0 && r.hit_y >= 0);
            }
            let bu: u64 = crate::BLOCK_SIZE as u64;
            let wx: u64 = if vertical {
                (r.hit_y as u64) % bu
            } else {
                (r.hit_x as u64) % bu
            };
            proof {
                assert(wx == col_wall_x(gm, gp, gi, gnum, gb));
            }
            let tag: char = r.impact.tag();
            let dims = texture_manager.get_texture_dimensions(tag);
            let (tex_x, tex_h): (u32, u32) = match dims {
                Some((tw, th)) => {
                    proof {
                        assert(wx * (tw as u64) <= 99 * 4096) by (nonlinear_arith)
                            requires
                                wx <= 99,
                                tw <= 4096,
                        ;
                    }
                    let v: u64 = wx * (tw as u64) / bu;
                    let vv: u32 = if v >= tw as u64 {
                        tw - 1
                    } else {
                        v as u32
                    };
                    (vv, th)
                },
                None => (0, 64),
            };
            proof {
                assert(tex_x == col_tex_x(gm, gp, gtm, gi, gnum, gb));
                assert(tex_h == col_tex_h(gm, gp, gtm, gi, gnum, gb));
            }
            let sh: u32 = ((hh as u64) * PROJ_PLANE_DIST / dist) as u32;
            let top: u32 = if sh / 2 > hh {
                0
            } else {
                hh - sh / 2
            };
            let bottom: u32 = if hh + sh / 2 > h {
                h
            } else {
                hh + sh / 2
            };
            proof {
                assert(top == col_top(gm, gp, gi, gnum, gb, gh));
                assert(bottom == col_bottom(gm, gp, gi, gnum, gb, gh));
                assert(top <= bottom <= h);
            }
            let x0: u32 = (i as u32) * 2;
            let ghost fb0 = *framebuffer;
            draw_wall_strip(framebuffer, texture_manager, x0, top, bottom, tag, tex_x, tex_h, shade);
            let ghost fb1 = *framebuffer;
            draw_wall_strip(
                framebuffer,
                texture_manager,
                x0 + 1,
                top,
                bottom,
                tag,
                tex_x,
                tex_h,
                shade,
            );
            let ghost z0 = z@;
            z[i * 2] = dist;
            z[i * 2 + 1] = dist;
            proof {
                assert((2 * gi) / 2 == gi && (2 * gi + 1) / 2 == gi);
                assert(2 * gi + 1 < gnum * 2) by (nonlinear_arith)
                    requires
                        gi < gnum,
                ;
                assert(gnum * 2 <= gw) by (nonlinear_arith)
                    requires
                        gnum == gw / 2,
                        gw >= 0,
                ;
                assert forall|x: int| 0 <= x < 2 * (gi + 1) implies #[trigger] z@[x] == depth_at(
                    gm,
                    gp,
                    gw,
                    gb,
                    x,
                ) by {
                    if x < 2 * gi {
                        assert(z@[x] == z0[x]);
                    } else {
                        assert(x / 2 == gi) by (nonlinear_arith)
                            requires
                                2 * gi <= x <= 2 * gi + 1,
                        ;
                    }
                }
                assert forall|qx: int, qy: int| framebuffer.in_bounds(qx, qy) implies
                    #[trigger] framebuffer.pix(qx, qy) == if qx < 2 * (gi + 1) {
                    rendered_pixel(gm, gp, gtm, gw, gh, gb, qx, qy, old(framebuffer).pix(qx, qy))
                } else {
                    old(framebuffer).pix(qx, qy)
                } by {
                    if qx == 2 * gi || qx == 2 * gi + 1 {
                        assert(qx / 2 == gi) by (nonlinear_arith)
                            requires
                                2 * gi <= qx <= 2 * gi + 1,
                        ;
                        assert(qx < gnum * 2) by (nonlinear_arith)
                            requires
                                gi < gnum,
                                2 * gi <= qx <= 2 * gi + 1,
                        ;
                        if top <= qy < bottom {
                            assert(framebuffer.pix(qx, qy) == col_strip_color(
                                gm,
                                gp,
                                gtm,
                                gi,
                                gnum,
                                gb,
                                gh,
                                qy,
                            ));
                        } else {
                            assert(framebuffer.pix(qx, qy) == old(framebuffer).pix(qx, qy));
                        }
                    } else if qx < 2 * gi {
                        assert(framebuffer.pix(qx, qy) == fb0.pix(qx, qy));
                    } else {
                        assert(framebuffer.pix(qx, qy) == old(framebuffer).pix(qx, qy));
                    }
                }
            }
        } else {
            proof {
                assert((2 * gi) / 2 == gi && (2 * gi + 1) / 2 == gi);
                assert forall|x: int| 0 <= x < 2 * (gi + 1) implies #[trigger] z@[x] == depth_at(
                    gm,
                    gp,
                    gw,
                    gb,
                    x,
                ) by {
                    if 2 * gi <= x {
                        assert(x / 2 == gi) by (nonlinear_arith)
                            requires
                                2 * gi <= x <= 2 * gi + 1,
                        ;
                    }
                }
                assert forall|qx: int, qy: int| framebuffer.in_bounds(qx, qy) implies
                    #[trigger] framebuffer.pix(qx, qy) == if qx < 2 * (gi + 1) {
                    rendered_pixel(gm, gp, gtm, gw, gh, gb, qx, qy, old(framebuffer).pix(qx, qy))
                } else {
                    old(framebuffer).pix(qx, qy)
                } by {
                    if 2 * gi <= qx <= 2 * gi + 1 {
                        assert(qx / 2 == gi) by (nonlinear_arith)
                            requires
                                2 * gi <= qx <= 2 * gi + 1,
                        ;
                    }
                }
            }
        }
        i = i + 1;
    }
    proof {
        assert forall|x: int| 0 <= x < z@.len() implies #[trigger] z@[x] == depth_at(
            gm,
            gp,
            gw,
            gb,
            x,
        ) by {
            if x >= 2 * gnum {
                assert(gnum * 2 <= x);
                assert(!(x < gnum * (RAY_SCALE as int)));
            }
        }
        assert forall|qx: int, qy: int| framebuffer.in_bounds(qx, qy) implies
            #[trigger] framebuffer.pix(qx, qy) == rendered_pixel(
            gm,
            gp,
            gtm,
            gw,
            gh,
            gb,
            qx,
            qy,
            old(framebuffer).pix(qx, qy),
        ) by {
            if qx >= 2 * gnum {
                assert(!(qx < gnum * (RAY_SCALE as int)));
            }
        }
    }
    z
}

} // verus!
