//! Straight line drawing into the pixel buffer by uniform stepping:
//! the segment is sampled once per unit of its longer axis extent and
//! each sample is painted with the current color.

use vstd::prelude::*;

verus! {

use crate::frame::mark_pixel;
use crate::framebuffer::Framebuffer;
use crate::geometry::Vec2;

/// Draws the segment from `start` to `end` in the current color. Every
/// pixel the call changes holds the current color afterwards, both
/// endpoints are painted, and pixels off the segment's sample points
/// keep their prior value.
pub fn line(framebuffer: &mut Framebuffer, start: Vec2, end: Vec2)
    requires
        old(framebuffer).wf(),
        0 <= start.x <= 0x10_0000,
        0 <= start.y <= 0x10_0000,
        0 <= end.x <= 0x10_0000,
        0 <= end.y <= 0x10_0000,
    ensures
        final(framebuffer).wf(),
        final(framebuffer).width == old(framebuffer).width,
        final(framebuffer).height == old(framebuffer).height,
        final(framebuffer).background_color == old(framebuffer).background_color,
        final(framebuffer).current_color == old(framebuffer).current_color,
        forall|qx: int, qy: int|
            final(framebuffer).in_bounds(qx, qy) ==> #[trigger] final(framebuffer).pix(qx, qy)
                == old(framebuffer).pix(qx, qy) || final(framebuffer).pix(qx, qy) == old(
                framebuffer,
            ).current_color,
        old(framebuffer).in_bounds(start.x as int, start.y as int) ==> final(framebuffer).pix(
            start.x as int,
            start.y as int,
        ) == old(framebuffer).current_color,
        old(framebuffer).in_bounds(end.x as int, end.y as int) ==> final(framebuffer).pix(
            end.x as int,
            end.y as int,
        ) == old(framebuffer).current_color,
{
    let dx: i64 = end.x - start.x;
    let dy: i64 = end.y - start.y;
    let ax: u64 = if dx >= 0 { dx as u64 } else { (-dx) as u64 };
    let ay: u64 = if dy >= 0 { dy as u64 } else { (-dy) as u64 };
    let steps: u64 = if ax >= ay { ax } else { ay };
    if steps == 0 {
        mark_pixel(framebuffer, start.x as u32, start.y as u32);
        return ;
    }
    let mut k: u64 = 0;
    while k <= steps
        invariant
            framebuffer.wf(),
            framebuffer.width == old(framebuffer).width,
            framebuffer.height == old(framebuffer).height,
            framebuffer.background_color == old(framebuffer).background_color,
            framebuffer.current_color == old(framebuffer).current_color,
            0 <= start.x <= 0x10_0000,
            0 <= start.y <= 0x10_0000,
            ax <= 0x10_0000,
            ay <= 0x10_0000,
            1 <= steps <= 0x10_0000,
            dx == end.x - start.x,
            dy == end.y - start.y,
            ax == if dx >= 0 { dx as int } else { -(dx as int) },
            ay == if dy >= 0 { dy as int } else { -(dy as int) },
            0 <= k <= steps + 1,
            forall|qx: int, qy: int|
                framebuffer.in_bounds(qx, qy) ==> #[trigger] framebuffer.pix(qx, qy) == old(
                    framebuffer,
                ).pix(qx, qy) || framebuffer.pix(qx, qy) == old(framebuffer).current_color,
            k >= 1 && framebuffer.in_bounds(start.x as int, start.y as int)
                ==> framebuffer.pix(start.x as int, start.y as int) == old(
                framebuffer,
            ).current_color,
            k > steps && framebuffer.in_bounds(end.x as int, end.y as int) ==> framebuffer.pix(
                end.x as int,
                end.y as int,
            ) == old(framebuffer).current_color,
        decreases steps + 1 - k,
    {
        proof {
            assert(ax * k <= 0x10_0000 * 0x10_0000 && ay * k <= 0x10_0000 * 0x10_0000)
                by (nonlinear_arith)
                requires
                    ax <= 0x10_0000,
                    ay <= 0x10_0000,
                    k <= 0x10_0000,
            ;
            assert((ax as int) * (k as int) / (steps as int) <= ax && (ay as int) * (
            k as int) / (steps as int) <= ay) by (nonlinear_arith)
                requires
                    k <= steps,
                    steps >= 1,
                    ax >= 0,
                    ay >= 0,
            ;
        }
        let ox: u64 = ax * k / steps;
        let oy: u64 = ay * k / steps;
        let x: i64 = if dx >= 0 { start.x + ox as i64 } else { start.x - ox as i64 };
        let y: i64 = if dy >= 0 { start.y + oy as i64 } else { start.y - oy as i64 };
        proof {
            if k == 0 {
                assert(ox == 0 && oy == 0);
                assert(x == start.x && y == start.y);
            }
            if k == steps {
                assert((ax as int) * (steps as int) / (steps as int) == ax) by (nonlinear_arith)
                    requires
                        steps >= 1,
                ;
                assert((ay as int) * (steps as int) / (steps as int) == ay) by (nonlinear_arith)
                    requires
                        steps >= 1,
                ;
                assert(x == end.x && y == end.y);
            }
        }
        if x >= 0 && y >= 0 {
            let ghost pre = *framebuffer;
            mark_pixel(framebuffer, x as u32, y as u32);
            proof {
                assert forall|qx: int, qy: int| framebuffer.in_bounds(qx, qy) implies
                    #[trigger] framebuffer.pix(qx, qy) == old(framebuffer).pix(qx, qy)
                    || framebuffer.pix(qx, qy) == old(framebuffer).current_color by {
                    if framebuffer.pix(qx, qy) != pre.pix(qx, qy) {
                        assert(framebuffer.pix(qx, qy) == pre.current_color);
                    } else {
                        assert(pre.pix(qx, qy) == old(framebuffer).pix(qx, qy) || pre.pix(qx, qy)
                            == old(framebuffer).current_color);
                    }
                }
            }
        }
        k = k + 1;
    }
}

} // verus!
