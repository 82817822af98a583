//! Per-frame scene painting around the 3-D core: the sky-and-ground
//! backdrop, the 2-D overhead view of the maze and the minimap overlay.

use vstd::prelude::*;

verus! {

use crate::caster::cast_ray;
use crate::color::Color;
use crate::framebuffer::{lemma_pix_idx_bounds, Framebuffer};
use crate::geometry::{norm_angle, PI_URAD, TWO_PI_URAD};
use crate::maze::{Cell, Maze};
use crate::player::Player;
use crate::textures::TextureManager;

/// Paints the backdrop of the 3-D view: a gray sky over the top half
/// of the screen and a gray floor over the bottom half.
pub fn render_world(framebuffer: &mut Framebuffer, _player: &Player)
    requires
        old(framebuffer).wf(),
    ensures
        final(framebuffer).wf(),
        final(framebuffer).width == old(framebuffer).width,
        final(framebuffer).height == old(framebuffer).height,
        final(framebuffer).background_color == old(framebuffer).background_color,
        final(framebuffer).current_color == (Color { r: 130, g: 130, b: 130, a: 255 }),
        forall|qx: int, qy: int|
            final(framebuffer).in_bounds(qx, qy) ==> #[trigger] final(framebuffer).pix(qx, qy)
                == if qy < 2 * (old(framebuffer).height as int / 2) {
                Color { r: 130, g: 130, b: 130, a: 255 }
            } else {
                old(framebuffer).pix(qx, qy)
            },
{
    let h2: u32 = framebuffer.height / 2;
    framebuffer.set_current_color(Color::new(130, 130, 130, 255));
    let w: u32 = framebuffer.width;
    framebuffer.draw_rectangle(0, 0, w, h2);
    framebuffer.draw_rectangle(0, h2, w, h2);
}

/// Paints one maze cell of the overhead view: solid and trigger cells
/// alike are drawn as a red square, empty cells leave the backdrop.
pub fn draw_cell(framebuffer: &mut Framebuffer, xo: usize, yo: usize, block_size: usize, cell: Cell)
    requires
        old(framebuffer).wf(),
        xo + block_size <= u32::MAX,
        yo + block_size <= u32::MAX,
    ensures
        final(framebuffer).wf(),
        final(framebuffer).width == old(framebuffer).width,
        final(framebuffer).height == old(framebuffer).height,
        final(framebuffer).background_color == old(framebuffer).background_color,
        forall|qx: int, qy: int|
            final(framebuffer).in_bounds(qx, qy) ==> #[trigger] final(framebuffer).pix(qx, qy)
                == if !(cell matches Cell::Empty) && xo <= qx < xo + block_size && yo <= qy < yo
                + block_size {
                Color { r: 255, g: 0, b: 0, a: 255 }
            } else {
                old(framebuffer).pix(qx, qy)
            },
{
    let empty = match cell {
        Cell::Empty => true,
        _ => false,
    };
    if empty {
        return ;
    }
    framebuffer.set_current_color(Color::new(255, 0, 0, 255));
    framebuffer.draw_rectangle(xo as u32, yo as u32, block_size as u32, block_size as u32);
}

/// The colors the overhead view and the minimap may paint: red walls,
/// the green player marker and the white-smoke ray traces.
pub open spec fn is_overhead_color(c: Color) -> bool {
    ||| c == (Color { r: 255, g: 0, b: 0, a: 255 })
    ||| c == (Color { r: 0, g: 255, b: 0, a: 255 })
    ||| c == (Color { r: 245, g: 245, b: 245, a: 255 })
}

/// Paints one pixel with the current color; any pixel the call changes
/// holds the current color afterwards.
pub(crate) fn mark_pixel(framebuffer: &mut Framebuffer, x: u32, y: u32)
    requires
        old(framebuffer).wf(),
    ensures
        final(framebuffer).wf(),
        final(framebuffer).width == old(framebuffer).width,
        final(framebuffer).height == old(framebuffer).height,
        final(framebuffer).background_color == old(framebuffer).background_color,
        final(framebuffer).current_color == old(framebuffer).current_color,
        forall|qx: int, qy: int|
            final(framebuffer).in_bounds(qx, qy) ==> #[trigger] final(framebuffer).pix(qx, qy)
                == old(framebuffer).pix(qx, qy) || final(framebuffer).pix(qx, qy) == old(
                framebuffer,
            ).current_color,
        old(framebuffer).in_bounds(x as int, y as int) ==> final(framebuffer).pix(
            x as int,
            y as int,
        ) == old(framebuffer).current_color,
{
    let ghost pre = *framebuffer;
    framebuffer.set_pixel(x, y);
    proof {
        assert forall|qx: int, qy: int| framebuffer.in_bounds(qx, qy) implies
            #[trigger] framebuffer.pix(qx, qy) == old(framebuffer).pix(qx, qy)
            || framebuffer.pix(qx, qy) == old(framebuffer).current_color by {
            lemma_pix_idx_bounds(framebuffer.width as int, framebuffer.height as int, qx, qy);
            if framebuffer.in_bounds(x as int, y as int) {
                lemma_pix_idx_bounds(
                    framebuffer.width as int,
                    framebuffer.height as int,
                    x as int,
                    y as int,
                );
            }
            if framebuffer.pix(qx, qy) != pre.pix(qx, qy) {
                assert(framebuffer.pix(qx, qy) == pre.current_color);
            }
        }
        if framebuffer.in_bounds(x as int, y as int) {
            lemma_pix_idx_bounds(framebuffer.width as int, framebuffer.height as int, x as int, y as int);
            assert(framebuffer.pix(x as int, y as int) == pre.current_color);
        }
    }
}

/// Paints the overhead 2-D view: every non-empty cell as a red square
/// at map scale, the player as a green dot, and one hundred white ray
/// traces across the field of view. Pixels are only ever painted in
/// the overhead colors; everything else keeps its prior value.
pub fn render_maze(
    framebuffer: &mut Framebuffer,
    maze: &Maze,
    block_size: usize,
    player: &Player,
    _texture_manager: &TextureManager,
)
    requires
        old(framebuffer).wf(),
        maze.wf(),
        crate::maze::block_ok(block_size as int),
        crate::caster::pose_in_grid(
            *maze,
            player.pos.x as int,
            player.pos.y as int,
            block_size as int,
        ),
        -PI_URAD <= player.a <= PI_URAD,
        0 <= player.fov <= TWO_PI_URAD,
    ensures
        final(framebuffer).wf(),
        final(framebuffer).width == old(framebuffer).width,
        final(framebuffer).height == old(framebuffer).height,
        final(framebuffer).background_color == old(framebuffer).background_color,
        forall|qx: int, qy: int|
            final(framebuffer).in_bounds(qx, qy) ==> #[trigger] final(framebuffer).pix(qx, qy)
                == old(framebuffer).pix(qx, qy) || is_overhead_color(
                final(framebuffer).pix(qx, qy),
            ),
{
    let h = maze.height();
    let w = maze.width();
    let mut row: usize = 0;
    while row < h
        invariant
            framebuffer.wf(),
            maze.wf(),
            framebuffer.width == old(framebuffer).width,
            framebuffer.height == old(framebuffer).height,
            framebuffer.background_color == old(framebuffer).background_color,
            h == maze.rows(),
            w == maze.cols(),
            crate::maze::block_ok(block_size as int),
            0 <= row <= h,
            forall|qx: int, qy: int|
                framebuffer.in_bounds(qx, qy) ==> #[trigger] framebuffer.pix(qx, qy) == old(
                    framebuffer,
                ).pix(qx, qy) || is_overhead_color(framebuffer.pix(qx, qy)),
        decreases h - row,
    {
        let mut col: usize = 0;
        while col < w
            invariant
                framebuffer.wf(),
                maze.wf(),
                framebuffer.width == old(framebuffer).width,
                framebuffer.height == old(framebuffer).height,
                framebuffer.background_color == old(framebuffer).background_color,
                h == maze.rows(),
                w == maze.cols(),
                crate::maze::block_ok(block_size as int),
                0 <= row < h,
                0 <= col <= w,
                forall|qx: int, qy: int|
                    framebuffer.in_bounds(qx, qy) ==> #[trigger] framebuffer.pix(qx, qy) == old(
                        framebuffer,
                    ).pix(qx, qy) || is_overhead_color(framebuffer.pix(qx, qy)),
            decreases w - col,
        {
            proof {
                assert((col as int) * (block_size as int) <= 4096 * 100_000 && (row as int) * (
                block_size as int) <= 4096 * 100_000) by (nonlinear_arith)
                    requires
                        col < 4096,
                        row < 4096,
                        block_size <= 100_000,
                ;
            }
            let xo: usize = col * block_size;
            let yo: usize = row * block_size;
            let cell = maze.at(col, row);
            let ghost pre = *framebuffer;
            draw_cell(framebuffer, xo, yo, block_size, cell);
            proof {
                assert forall|qx: int, qy: int| framebuffer.in_bounds(qx, qy) implies
                    #[trigger] framebuffer.pix(qx, qy) == old(framebuffer).pix(qx, qy)
                    || is_overhead_color(framebuffer.pix(qx, qy)) by {
                    if framebuffer.pix(qx, qy) == pre.pix(qx, qy) {
                        assert(pre.pix(qx, qy) == old(framebuffer).pix(qx, qy)
                            || is_overhead_color(pre.pix(qx, qy)));
                    } else {
                        assert(framebuffer.pix(qx, qy) == (Color { r: 255, g: 0, b: 0, a: 255 }));
                    }
                }
            }
            col = col + 1;
        }
        row = row + 1;
    }
    // The player marker: a five-by-five green dot at the player position.
    let ghost after_cells = *framebuffer;
    proof {
        assert(maze.cols() * (block_size as int) <= 4096 * 100_000 && maze.rows() * (
        block_size as int) <= 4096 * 100_000) by (nonlinear_arith)
            requires
                1 <= maze.cols() <= 4096,
                1 <= maze.rows() <= 4096,
                1 <= block_size <= 100_000,
        ;
    }
    framebuffer.set_current_color(Color::new(0, 255, 0, 255));
    let ghost pre_dot = *framebuffer;
    if player.pos.x >= 2 && player.pos.y >= 2 {
        framebuffer.draw_rectangle((player.pos.x - 2) as u32, (player.pos.y - 2) as u32, 5, 5);
    }
    proof {
        assert forall|qx: int, qy: int| framebuffer.in_bounds(qx, qy) implies
            #[trigger] framebuffer.pix(qx, qy) == old(framebuffer).pix(qx, qy)
            || is_overhead_color(framebuffer.pix(qx, qy)) by {
            assert(pre_dot.pix(qx, qy) == after_cells.pix(qx, qy));
            assert(after_cells.pix(qx, qy) == old(framebuffer).pix(qx, qy) || is_overhead_color(
                after_cells.pix(qx, qy),
            ));
            if framebuffer.pix(qx, qy) != pre_dot.pix(qx, qy) {
                assert(framebuffer.pix(qx, qy) == (Color { r: 0, g: 255, b: 0, a: 255 }));
            }
        }
    }
    // The field-of-view traces: one hundred rays, each marched with the
    // standard step and its sample points plotted in white-smoke.
    let ghost after_dot = *framebuffer;
    framebuffer.set_current_color(Color::new(245, 245, 245, 255));
    proof {
        assert forall|qx: int, qy: int| framebuffer.in_bounds(qx, qy) implies
            #[trigger] framebuffer.pix(qx, qy) == old(framebuffer).pix(qx, qy)
            || is_overhead_color(framebuffer.pix(qx, qy)) by {
            assert(framebuffer.pix(qx, qy) == after_dot.pix(qx, qy));
        }
    }
    let num_rays: usize = 100;
    let mut i: usize = 0;
    while i < num_rays
        invariant
            framebuffer.wf(),
            maze.wf(),
            framebuffer.width == old(framebuffer).width,
            framebuffer.height == old(framebuffer).height,
            framebuffer.background_color == old(framebuffer).background_color,
            framebuffer.current_color == (Color { r: 245, g: 245, b: 245, a: 255 }),
            crate::maze::block_ok(block_size as int),
            crate::caster::pose_in_grid(
                *maze,
                player.pos.x as int,
                player.pos.y as int,
                block_size as int,
            ),
            -PI_URAD <= player.a <= PI_URAD,
            0 <= player.fov <= TWO_PI_URAD,
            0 <= i <= num_rays,
            num_rays == 100,
            forall|qx: int, qy: int|
                framebuffer.in_bounds(qx, qy) ==> #[trigger] framebuffer.pix(qx, qy) == old(
                    framebuffer,
                ).pix(qx, qy) || is_overhead_color(framebuffer.pix(qx, qy)),
        decreases num_rays - i,
    {
        proof {
            assert((player.fov as int) * (i as int) <= 6283186 * 100) by (nonlinear_arith)
                requires
                    0 <= player.fov <= TWO_PI_URAD,
                    0 <= i <= 100,
            ;
            assert((player.fov as int) * (i as int) / (num_rays as int) <= 6283186 * 100)
                by (nonlinear_arith)
                requires
                    0 <= (player.fov as int) * (i as int) <= 6283186 * 100,
                    num_rays >= 1,
            ;
        }
        let fovh: i64 = ((player.fov as u64) / 2) as i64;
        let frac: i64 = (((player.fov as u64) * (i as u64)) / (num_rays as u64)) as i64;
        let a: i64 = norm_angle(player.a - fovh + frac);
        let dx: i64 = crate::geometry::cos_milli(a);
        let dy: i64 = crate::geometry::sin_milli(a);
        let hit = cast_ray(maze, player, a, block_size, crate::caster::RAY_STEP);
        proof {
            crate::caster::lemma_trig_nonzero(a as int);
            let k0 = crate::caster::ray_stop_index(
                *maze,
                player.pos.x as int,
                player.pos.y as int,
                dx as int,
                dy as int,
                crate::caster::RAY_STEP as int,
                block_size as int,
            );
            assert(hit.distance == k0 * (crate::caster::RAY_STEP as int));
            if k0 >= 1 {
                assert(!crate::caster::ray_stops_at(
                    *maze,
                    player.pos.x as int,
                    player.pos.y as int,
                    dx as int,
                    dy as int,
                    crate::caster::RAY_STEP as int,
                    block_size as int,
                    k0 - 1,
                ));
                crate::caster::lemma_inbounds_sample_bound(
                    *maze,
                    player.pos.x as int,
                    player.pos.y as int,
                    dx as int,
                    dy as int,
                    crate::caster::RAY_STEP as int,
                    block_size as int,
                    k0 - 1,
                );
                assert(k0 * (crate::caster::RAY_STEP as int) == (k0 - 1) * (
                crate::caster::RAY_STEP as int) + crate::caster::RAY_STEP) by (nonlinear_arith);
            } else {
                assert(k0 * (crate::caster::RAY_STEP as int) == 0) by (nonlinear_arith)
                    requires
                        k0 == 0,
                ;
            }
            assert(hit.distance <= 0x1_0000_0000_0000);
            assert(maze.cols() * (block_size as int) <= 4096 * 100_000 && maze.rows() * (
            block_size as int) <= 4096 * 100_000) by (nonlinear_arith)
                requires
                    1 <= maze.cols() <= 4096,
                    1 <= maze.rows() <= 4096,
                    1 <= block_size <= 100_000,
            ;
        }
        // Trace the ray: plot every sample point up to the hit.
        let adx: u64 = if dx >= 0 { dx as u64 } else { (-dx) as u64 };
        let ady: u64 = if dy >= 0 { dy as u64 } else { (-dy) as u64 };
        let mut d: u64 = 0;
        while d < hit.distance
            invariant
                framebuffer.wf(),
                framebuffer.width == old(framebuffer).width,
                framebuffer.height == old(framebuffer).height,
                framebuffer.background_color == old(framebuffer).background_color,
                framebuffer.current_color == (Color { r: 245, g: 245, b: 245, a: 255 }),
                0 <= player.pos.x < 4096 * 100_000,
                0 <= player.pos.y < 4096 * 100_000,
                adx <= 1000,
                ady <= 1000,
                hit.distance <= 0x1_0000_0000_0000,
                forall|qx: int, qy: int|
                    framebuffer.in_bounds(qx, qy) ==> #[trigger] framebuffer.pix(qx, qy) == old(
                        framebuffer,
                    ).pix(qx, qy) || is_overhead_color(framebuffer.pix(qx, qy)),
            decreases hit.distance + crate::caster::RAY_STEP - d,
        {
            proof {
                assert(adx * d <= 1000 * 0x1_0000_0000_0000 && ady * d <= 1000
                    * 0x1_0000_0000_0000) by (nonlinear_arith)
                    requires
                        adx <= 1000,
                        ady <= 1000,
                        d <= 0x1_0000_0000_0000,
                ;
            }
            let offx: u64 = adx * d / 1000;
            let offy: u64 = ady * d / 1000;
            proof {
                assert(offx <= d && offy <= d) by (nonlinear_arith)
                    requires
                        offx == (adx as int) * (d as int) / 1000,
                        offy == (ady as int) * (d as int) / 1000,
                        adx <= 1000,
                        ady <= 1000,
                        d >= 0,
                ;
            }
            let sx: i64 = if dx >= 0 { player.pos.x + offx as i64 } else { player.pos.x - offx as i64 };
            let sy: i64 = if dy >= 0 { player.pos.y + offy as i64 } else { player.pos.y - offy as i64 };
            if sx >= 0 && sy >= 0 && sx <= u32::MAX as i64 && sy <= u32::MAX as i64 {
                let ghost pre_ray = *framebuffer;
                mark_pixel(framebuffer, sx as u32, sy as u32);
                proof {
                    assert forall|qx: int, qy: int| framebuffer.in_bounds(qx, qy) implies
                        #[trigger] framebuffer.pix(qx, qy) == old(framebuffer).pix(qx, qy)
                        || is_overhead_color(framebuffer.pix(qx, qy)) by {
                        if framebuffer.pix(qx, qy) != pre_ray.pix(qx, qy) {
                            assert(framebuffer.pix(qx, qy) == pre_ray.current_color);
                        } else {
                            assert(pre_ray.pix(qx, qy) == old(framebuffer).pix(qx, qy)
                                || is_overhead_color(pre_ray.pix(qx, qy)));
                        }
                    }
                }
            }
            d = d + crate::caster::RAY_STEP;
        }
        i = i + 1;
    }
}

/// First visible cell column (or row) of the minimap: the window is
/// centered on the player and clamped at the map edge.
pub open spec fn mm_start(pg: int) -> int {
    if pg > 46 {
        pg - 46
    } else {
        0
    }
}

/// One-past-last visible cell column (or row) of the minimap.
pub open spec fn mm_end(start: int, n: int) -> int {
    if start + 93 < n {
        start + 93
    } else {
        n
    }
}

/// What the minimap pass leaves in the pixel at `(qx, qy)`: the green
/// player marker wins over the red cell tiles, which cover the visible
/// window at three pixels per cell; everything else keeps its prior
/// value.
pub open spec fn minimap_pixel(
    m: Maze,
    p: Player,
    w: int,
    block: int,
    qx: int,
    qy: int,
    old_pix: Color,
) -> Color {
    let mx = w - 290;
    let my: int = 10;
    let pgx = (p.pos.x as int) / block;
    let pgy = (p.pos.y as int) / block;
    let sgx = mm_start(pgx);
    let sgy = mm_start(pgy);
    let egx = mm_end(sgx, m.cols());
    let egy = mm_end(sgy, m.rows());
    let dot_x = mx + (pgx - sgx) * 3;
    let dot_y = my + (pgy - sgy) * 3;
    if dot_x - 1 <= qx <= dot_x + 1 && dot_y - 1 <= qy <= dot_y + 1 {
        Color { r: 0, g: 255, b: 0, a: 255 }
    } else if mx <= qx < mx + (egx - sgx) * 3 && my <= qy < my + (egy - sgy) * 3 && m.cell(
        sgx + (qx - mx) / 3,
        sgy + (qy - my) / 3,
    ).is_solid_spec() {
        Color { r: 255, g: 0, b: 0, a: 255 }
    } else {
        old_pix
    }
}

/// Paints the minimap in the top-right corner: the cells of the map
/// window around the player at three pixels per cell, walls red, and a
/// green marker over the player's cell.
pub fn render_minimap(
    framebuffer: &mut Framebuffer,
    maze: &Maze,
    player: &Player,
    block_size: usize,
)
    requires
        old(framebuffer).wf(),
        maze.wf(),
        crate::maze::block_ok(block_size as int),
        0 <= player.pos.x < 4096 * 100_000,
        0 <= player.pos.y < 4096 * 100_000,
        old(framebuffer).width >= 300,
        old(framebuffer).height >= 300,
    ensures
        final(framebuffer).wf(),
        final(framebuffer).width == old(framebuffer).width,
        final(framebuffer).height == old(framebuffer).height,
        final(framebuffer).background_color == old(framebuffer).background_color,
        forall|qx: int, qy: int|
            final(framebuffer).in_bounds(qx, qy) ==> #[trigger] final(framebuffer).pix(qx, qy)
                == minimap_pixel(
                *maze,
                *player,
                old(framebuffer).width as int,
                block_size as int,
                qx,
                qy,
                old(framebuffer).pix(qx, qy),
            ),
{
    let ghost gm: Maze = *maze;
    let ghost gp: Player = *player;
    let ghost gw: int = framebuffer.width as int;
    let ghost gb: int = block_size as int;
    let minimap_x: u32 = framebuffer.width - 290;
    let minimap_y: u32 = 10;
    let bu: u64 = block_size as u64;
    let player_gx: u64 = (player.pos.x as u64) / bu;
    let player_gy: u64 = (player.pos.y as u64) / bu;
    let start_gx: u64 = if player_gx > 46 {
        player_gx - 46
    } else {
        0
    };
    let start_gy: u64 = if player_gy > 46 {
        player_gy - 46
    } else {
        0
    };
    let h = maze.height();
    let w = maze.width();
    let end_gx: u64 = if start_gx + 93 < w as u64 {
        start_gx + 93
    } else {
        w as u64
    };
    let end_gy: u64 = if start_gy + 93 < h as u64 {
        start_gy + 93
    } else {
        h as u64
    };
    let ghost sgx: int = start_gx as int;
    let ghost sgy: int = start_gy as int;
    let ghost egx: int = end_gx as int;
    let ghost egy: int = end_gy as int;
    framebuffer.set_current_color(Color::new(255, 0, 0, 255));
    let mut gy: u64 = start_gy;
    while gy < end_gy
        invariant
            framebuffer.wf(),
            maze.wf(),
            framebuffer.width == old(framebuffer).width,
            framebuffer.height == old(framebuffer).height,
            framebuffer.background_color == old(framebuffer).background_color,
            framebuffer.current_color == (Color { r: 255, g: 0, b: 0, a: 255 }),
            framebuffer.width >= 300,
            gm == *maze,
            gp == *player,
            gw == framebuffer.width as int,
            gb == block_size as int,
            crate::maze::block_ok(gb),
            h == maze.rows(),
            w == maze.cols(),
            minimap_x == gw - 290,
            minimap_y == 10,
            0 <= gp.pos.x < 4096 * 100_000,
            0 <= gp.pos.y < 4096 * 100_000,
            sgx == mm_start((gp.pos.x as int) / gb),
            sgy == mm_start((gp.pos.y as int) / gb),
            egx == mm_end(sgx, gm.cols()),
            egy == mm_end(sgy, gm.rows()),
            sgx == start_gx as int,
            sgy == start_gy as int,
            egx == end_gx as int,
            egy == end_gy as int,
            egx <= sgx + 93,
            egy <= sgy + 93,
            egx <= w,
            egy <= h,
            start_gy <= gy <= end_gy || gy == start_gy,
            forall|qx: int, qy: int|
                framebuffer.in_bounds(qx, qy) ==> #[trigger] framebuffer.pix(qx, qy) == if minimap_x
                    <= qx < minimap_x + (egx - sgx) * 3 && minimap_y <= qy < minimap_y + (
                gy - sgy) * 3 && gm.cell(
                    sgx + (qx - minimap_x) / 3,
                    sgy + (qy - minimap_y) / 3,
                ).is_solid_spec() {
                    Color { r: 255, g: 0, b: 0, a: 255 }
                } else {
                    old(framebuffer).pix(qx, qy)
                },
        decreases end_gy - gy,
    {
        let mut gx: u64 = start_gx;
        while gx < end_gx
            invariant
                framebuffer.wf(),
                maze.wf(),
                framebuffer.width == old(framebuffer).width,
                framebuffer.height == old(framebuffer).height,
                framebuffer.background_color == old(framebuffer).background_color,
                framebuffer.current_color == (Color { r: 255, g: 0, b: 0, a: 255 }),
                framebuffer.width >= 300,
                gm == *maze,
                gp == *player,
                gw == framebuffer.width as int,
                gb == block_size as int,
                crate::maze::block_ok(gb),
                h == maze.rows(),
                w == maze.cols(),
                minimap_x == gw - 290,
                minimap_y == 10,
                0 <= gp.pos.x < 4096 * 100_000,
                0 <= gp.pos.y < 4096 * 100_000,
                sgx == mm_start((gp.pos.x as int) / gb),
                sgy == mm_start((gp.pos.y as int) / gb),
                egx == mm_end(sgx, gm.cols()),
                egy == mm_end(sgy, gm.rows()),
                sgx == start_gx as int,
                sgy == start_gy as int,
                egx == end_gx as int,
                egy == end_gy as int,
                egx <= sgx + 93,
                egy <= sgy + 93,
                egx <= w,
                egy <= h,
                start_gy <= gy < end_gy,
                start_gx <= gx <= end_gx || gx == start_gx,
                forall|qx: int, qy: int|
                    framebuffer.in_bounds(qx, qy) ==> #[trigger] framebuffer.pix(qx, qy) == if (
                    minimap_x <= qx < minimap_x + (egx - sgx) * 3 && minimap_y <= qy < minimap_y
                        + (gy - sgy) * 3 || minimap_y + (gy - sgy) * 3 <= qy < minimap_y + (
                    gy - sgy) * 3 + 3 && minimap_x <= qx < minimap_x + (gx - sgx) * 3) && gm.cell(
                        sgx + (qx - minimap_x) / 3,
                        sgy + (qy - minimap_y) / 3,
                    ).is_solid_spec() {
                        Color { r: 255, g: 0, b: 0, a: 255 }
                    } else {
                        old(framebuffer).pix(qx, qy)
                    },
            decreases end_gx - gx,
        {
            let cell = maze.at(gx as usize, gy as usize);
            let cell_px: u32 = minimap_x + ((gx - start_gx) as u32) * 3;
            let cell_py: u32 = minimap_y + ((gy - start_gy) as u32) * 3;
            let ghost pre = *framebuffer;
            if cell.is_solid() {
                framebuffer.draw_rectangle(cell_px, cell_py, 3, 3);
            }
            proof {
                assert forall|qx: int, qy: int| framebuffer.in_bounds(qx, qy) implies
                    #[trigger] framebuffer.pix(qx, qy) == if (minimap_x <= qx < minimap_x + (egx
                    - sgx) * 3 && minimap_y <= qy < minimap_y + (gy - sgy) * 3 || minimap_y + (gy
                    - sgy) * 3 <= qy < minimap_y + (gy - sgy) * 3 + 3 && minimap_x <= qx
                    < minimap_x + (gx - sgx) * 3 + 3) && gm.cell(
                    sgx + (qx - minimap_x) / 3,
                    sgy + (qy - minimap_y) / 3,
                ).is_solid_spec() {
                    Color { r: 255, g: 0, b: 0, a: 255 }
                } else {
                    old(framebuffer).pix(qx, qy)
                } by {
                    let cgx = sgx + (qx - minimap_x) / 3;
                    let cgy = sgy + (qy - minimap_y) / 3;
                    if cell_px <= qx < cell_px + 3 && cell_py <= qy < cell_py + 3 {
                        assert((qx - minimap_x) / 3 == gx - sgx && (qy - minimap_y) / 3 == gy
                            - sgy) by (nonlinear_arith)
                            requires
                                minimap_x + (gx - sgx) * 3 <= qx < minimap_x + (gx - sgx) * 3 + 3,
                                minimap_y + (gy - sgy) * 3 <= qy < minimap_y + (gy - sgy) * 3 + 3,
                                cell_px == minimap_x + (gx - sgx) * 3,
                                cell_py == minimap_y + (gy - sgy) * 3,
                        ;
                        assert(cgx == gx && cgy == gy);
                    } else {
                        assert(framebuffer.pix(qx, qy) == pre.pix(qx, qy));
                    }
                }
            }
            gx = gx + 1;
        }
        proof {
            assert((gy as int + 1 - sgy) * 3 == (gy as int - sgy) * 3 + 3) by (nonlinear_arith);
        }
        gy = gy + 1;
    }
    // The player marker: a three-by-three green square over the
    // player's cell, clipped to the screen.
    let ghost after_cells = *framebuffer;
    framebuffer.set_current_color(Color::new(0, 255, 0, 255));
    let dot_x: u32 = minimap_x + ((player_gx - start_gx) as u32) * 3;
    let dot_y: u32 = minimap_y + ((player_gy - start_gy) as u32) * 3;
    let ghost pre_dot = *framebuffer;
    framebuffer.draw_rectangle(dot_x - 1, dot_y - 1, 3, 3);
    proof {
        assert forall|qx: int, qy: int| framebuffer.in_bounds(qx, qy) implies
            #[trigger] framebuffer.pix(qx, qy) == minimap_pixel(
            gm,
            gp,
            gw,
            gb,
            qx,
            qy,
            old(framebuffer).pix(qx, qy),
        ) by {
            assert(pre_dot.pix(qx, qy) == after_cells.pix(qx, qy));
            if dot_x - 1 <= qx < dot_x + 2 && dot_y - 1 <= qy < dot_y + 2 {
                assert(framebuffer.pix(qx, qy) == (Color { r: 0, g: 255, b: 0, a: 255 }));
            } else {
                assert(framebuffer.pix(qx, qy) == after_cells.pix(qx, qy));
            }
        }
    }
}

} // verus!
