//! The camera pose and per-frame movement: rotation, forward and
//! backward walking with per-axis collision rejection, and the clearance
//! guarantee that movement never parks the pose against a solid cell.

use vstd::prelude::*;

verus! {

use crate::geometry::{
    cos_milli, cos_milli_spec, norm_angle, same_angle, scaled_toward, sin_milli, sin_milli_spec,
    Vec2, PI_URAD,
};
use crate::maze::{
    block_ok, check_collision_with_margin, collides_spec, coord_ok, margin_collides_spec, Maze,
};

/// World units walked per frame with a key held.
pub const MOVE_SPEED: i64 = 10;

/// Clearance margin around the player for collision, in world units.
pub const COLLISION_MARGIN: i64 = 15;

/// The camera: a position in world units, a heading and a field of view,
/// both in microradians.
#[derive(Clone, Copy, PartialEq, Eq, Structural, Debug)]
pub struct Player {
    /// Position in world units.
    pub pos: Vec2,
    /// Heading angle in microradians, kept in `[-PI_URAD, PI_URAD]`.
    pub a: i64,
    /// Field of view in microradians.
    pub fov: i64,
}

/// One frame of movement input, already reduced to plain values: the
/// requested heading change and whether the walk keys are held.
#[derive(Clone, Copy, PartialEq, Eq, Structural, Debug)]
pub struct InputEvent {
    /// Heading change in microradians (mouse and turn keys combined).
    pub rotate_delta: i64,
    /// Whether the forward key is held.
    pub forward: bool,
    /// Whether the backward key is held.
    pub backward: bool,
}

/// The x coordinate after an attempted move by `dx`: the move is taken
/// only when the destination keeps all four clearance corners free.
pub open spec fn moved_x_spec(m: Maze, px: int, py: int, dx: int, block: int, margin: int) -> int {
    if !margin_collides_spec(m, px + dx, py, block, margin) {
        px + dx
    } else {
        px
    }
}

/// The y coordinate after an attempted move by `dy`, tried from the
/// already-resolved x coordinate so that sliding along walls works.
pub open spec fn moved_y_spec(
    m: Maze,
    px: int,
    py: int,
    dx: int,
    dy: int,
    block: int,
    margin: int,
) -> int {
    let x1 = moved_x_spec(m, px, py, dx, block, margin);
    if !margin_collides_spec(m, x1, py + dy, block, margin) {
        py + dy
    } else {
        py
    }
}

/// Moves a pose by `(dx, dy)` with per-axis collision rejection: the x
/// move and the y move are accepted independently, each only when the
/// four clearance corners of the destination stay free.
pub fn move_pose(maze: &Maze, pos: Vec2, dx: i64, dy: i64, block_size: usize, margin: i64) -> (np:
    Vec2)
    requires
        maze.wf(),
        block_ok(block_size as int),
        coord_ok(pos.x as int),
        coord_ok(pos.y as int),
        -0x100_0000 <= dx <= 0x100_0000,
        -0x100_0000 <= dy <= 0x100_0000,
        0 <= margin <= 0x100_0000,
    ensures
        np.x == moved_x_spec(*maze, pos.x as int, pos.y as int, dx as int, block_size as int, margin as int),
        np.y == moved_y_spec(
            *maze,
            pos.x as int,
            pos.y as int,
            dx as int,
            dy as int,
            block_size as int,
            margin as int,
        ),
        coord_ok(np.x as int),
        coord_ok(np.y as int),
    {
    let nx: i64 = pos.x + dx;
    let x1: i64 = if !check_collision_with_margin(maze, nx, pos.y, block_size, margin) {
        nx
    } else {
        pos.x
    };
    proof {
        assert(maze.cols() * (block_size as int) <= 4096 * 100_000 && maze.rows() * (
        block_size as int) <= 4096 * 100_000) by (nonlinear_arith)
            requires
                maze.cols() <= 4096,
                maze.rows() <= 4096,
                0 <= block_size <= 100_000,
        ;
        if x1 != pos.x {
            lemma_clear_corner_bounds(
                *maze,
                x1 as int,
                pos.y as int,
                block_size as int,
                margin as int,
            );
        }
    }
    let ny: i64 = pos.y + dy;
    let y1: i64 = if !check_collision_with_margin(maze, x1, ny, block_size, margin) {
        ny
    } else {
        pos.y
    };
    proof {
        if y1 != pos.y {
            lemma_clear_corner_bounds(
                *maze,
                x1 as int,
                y1 as int,
                block_size as int,
                margin as int,
            );
        }
    }
    Vec2 { x: x1, y: y1 }
}

/// A position whose clearance corners are all free lies inside the map:
/// between `margin` and the map extent less `margin` on both axes.
pub proof fn lemma_clear_corner_bounds(m: Maze, x: int, y: int, block: int, margin: int)
    requires
        m.wf(),
        block_ok(block),
        0 <= margin,
        !margin_collides_spec(m, x, y, block, margin),
    ensures
        margin <= x < m.cols() * block,
        margin <= y < m.rows() * block,
{
    assert(x - margin >= 0 && y - margin >= 0);
    let cx = (x + margin) / block;
    let cy = (y + margin) / block;
    assert(cx < m.cols() && cy < m.rows());
    assert(x + margin < m.cols() * block && y + margin < m.rows() * block) by (nonlinear_arith)
        requires
            block >= 1,
            x + margin >= 0,
            y + margin >= 0,
            cx == (x + margin) / block,
            cy == (y + margin) / block,
            cx < m.cols(),
            cy < m.rows(),
    ;
}

/// The clearance guarantee of collision resolution: a pose whose four
/// clearance-margin corners are free never ends up, after any attempted
/// move of less than one cell per axis, with a corner inside a solid
/// cell or outside the map.
pub proof fn lemma_move_keeps_clearance(
    m: Maze,
    px: int,
    py: int,
    dx: int,
    dy: int,
    block: int,
    margin: int,
)
    requires
        !margin_collides_spec(m, px, py, block, margin),
        -block < dx < block,
        -block < dy < block,
    ensures
        !margin_collides_spec(
            m,
            moved_x_spec(m, px, py, dx, block, margin),
            moved_y_spec(m, px, py, dx, dy, block, margin),
            block,
            margin,
        ),
{
}

/// Where a walk ends: the per-frame step along the heading `a`, applied
/// forward and then backward as requested, each with per-axis collision
/// rejection.
pub open spec fn walk_spec(
    m: Maze,
    px: int,
    py: int,
    a: int,
    forward: bool,
    backward: bool,
    block: int,
    margin: int,
) -> (int, int) {
    let dx = scaled_toward(cos_milli_spec(a), MOVE_SPEED as int, 1000);
    let dy = scaled_toward(sin_milli_spec(a), MOVE_SPEED as int, 1000);
    let x1 = if forward {
        moved_x_spec(m, px, py, dx, block, margin)
    } else {
        px
    };
    let y1 = if forward {
        moved_y_spec(m, px, py, dx, dy, block, margin)
    } else {
        py
    };
    let x2 = if backward {
        moved_x_spec(m, x1, y1, -dx, block, margin)
    } else {
        x1
    };
    let y2 = if backward {
        moved_y_spec(m, x1, y1, -dx, -dy, block, margin)
    } else {
        y1
    };
    (x2, y2)
}

/// Computes the signed per-frame step for one axis from a direction
/// component in per-mille units.
fn walk_step(dir: i64) -> (s: i64)
    requires
        -1000 <= dir <= 1000,
    ensures
        s == scaled_toward(dir as int, MOVE_SPEED as int, 1000),
        -MOVE_SPEED <= s <= MOVE_SPEED,
{
    if dir >= 0 {
        let mag: u64 = dir as u64;
        let m: u64 = mag * 10 / 1000;
        m as i64
    } else {
        let mag: u64 = (-dir) as u64;
        let m: u64 = mag * 10 / 1000;
        -(m as i64)
    }
}

/// Applies one frame of input to the player: turns by the requested
/// delta (the heading is kept normalized), then walks forward and
/// backward along the new heading with per-axis collision rejection.
pub fn process_events(player: &mut Player, maze: &Maze, ev: InputEvent)
    requires
        maze.wf(),
        -PI_URAD <= old(player).a <= PI_URAD,
        -0x1000_0000_0000 <= ev.rotate_delta <= 0x1000_0000_0000,
        coord_ok(old(player).pos.x as int),
        coord_ok(old(player).pos.y as int),
    ensures
        final(player).fov == old(player).fov,
        final(player).a == crate::geometry::norm_angle_spec(old(player).a + ev.rotate_delta),
        -PI_URAD <= final(player).a <= PI_URAD,
        same_angle(old(player).a + ev.rotate_delta, final(player).a as int),
        final(player).pos.x == walk_spec(
            *maze,
            old(player).pos.x as int,
            old(player).pos.y as int,
            final(player).a as int,
            ev.forward,
            ev.backward,
            crate::BLOCK_SIZE as int,
            COLLISION_MARGIN as int,
        ).0,
        final(player).pos.y == walk_spec(
            *maze,
            old(player).pos.x as int,
            old(player).pos.y as int,
            final(player).a as int,
            ev.forward,
            ev.backward,
            crate::BLOCK_SIZE as int,
            COLLISION_MARGIN as int,
        ).1,
        coord_ok(final(player).pos.x as int),
        coord_ok(final(player).pos.y as int),
{
    let a1: i64 = norm_angle(player.a + ev.rotate_delta);
    player.a = a1;
    let dir_x: i64 = cos_milli(a1);
    let dir_y: i64 = sin_milli(a1);
    let dx: i64 = walk_step(dir_x);
    let dy: i64 = walk_step(dir_y);
    if ev.forward {
        let np = move_pose(maze, player.pos, dx, dy, crate::BLOCK_SIZE, COLLISION_MARGIN);
        player.pos = np;
    }
    if ev.backward {
        let np = move_pose(maze, player.pos, -dx, -dy, crate::BLOCK_SIZE, COLLISION_MARGIN);
        player.pos = np;
    }
}

} // verus!
