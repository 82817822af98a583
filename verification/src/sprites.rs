//! Billboard sprites: view-space updates and far-to-near ordering, the
//! depth-tested compositor that lets walls occlude sprites, and the
//! line-of-sight pursuit behavior.

use vstd::prelude::*;

verus! {

use crate::color::{scale_channel, scale_channel_spec, Color};
use crate::framebuffer::{lemma_pix_idx_bounds, lemma_pix_idx_injective, pix_idx, Framebuffer};
use crate::geometry::{
    abs_i, atan2_spec, atan2_urad, dist_sq, distance, floor_sqrt, norm_angle, norm_angle_spec,
    scaled_toward, Vec2, PI_URAD,
};
use crate::maze::{
    block_ok, check_collision_with_margin, coord_ok, margin_collides_spec, Maze,
};
use crate::player::Player;
use crate::textures::TextureManager;

/// Field of view of a freshly spawned sprite: 120 degrees.
pub const SPRITE_FOV: i64 = 2094395;

/// Sprites farther than this from their target cannot see it.
pub const SPRITE_SIGHT_RANGE: u64 = 800;

/// Sprites farther than this from the camera are not drawn.
pub const SPRITE_DRAW_RANGE: u64 = 1000;

/// World units a pursuing sprite moves per update.
pub const ENEMY_SPEED: i64 = 5;

/// Base rotation per update toward the target, in microradians.
pub const ROTATION_SPEED: i64 = 80000;

/// Clearance margin of sprites for collision, in world units.
pub const SPRITE_MARGIN: i64 = 12;

/// Widened detection angle once a sprite has seen the player, to avoid
/// flickering at the edge of its field of view.
pub const DETECTION_HYSTERESIS: i64 = 314159;

/// A billboard sprite: a world position, a texture tag, the cached
/// distance and angle to the camera, and the pursuit state.
#[derive(Clone, Copy, PartialEq, Eq, Structural, Debug)]
pub struct Sprite {
    /// Position in world units.
    pub pos: Vec2,
    /// The texture tag the sprite is drawn with.
    pub texture_char: char,
    /// Distance to the camera, cached by `update_sprite_distances`.
    pub distance: u64,
    /// Angle from the camera to the sprite, cached alongside.
    pub angle: i64,
    /// The direction the sprite is facing, in microradians.
    pub facing_angle: i64,
    /// The sprite's own field of view, in microradians.
    pub fov: i64,
    /// Whether the sprite has detected the player.
    pub player_detected: bool,
}

impl Sprite {
    /// Creates a sprite at `(x, y)` with the given texture tag, facing
    /// right, undetected, with the standard sprite field of view.
    pub fn new(x: i64, y: i64, texture_char: char) -> (s: Sprite)
        ensures
            s == (Sprite {
                pos: Vec2 { x, y },
                texture_char,
                distance: 0u64,
                angle: 0i64,
                facing_angle: 0i64,
                fov: SPRITE_FOV as i64,
                player_detected: false,
            }),
    {
        Sprite {
            pos: Vec2 { x, y },
            texture_char,
            distance: 0,
            angle: 0,
            facing_angle: 0,
            fov: SPRITE_FOV,
            player_detected: false,
        }
    }

    /// Whether this sprite sees the point `pp`: near enough, within the
    /// sprite's field of view around its facing angle, and with a clear
    /// line of sight.
    pub open spec fn can_see_spec(self, pp: Vec2, m: Maze, block: int) -> bool {
        let d = floor_sqrt(dist_sq(pp.x - self.pos.x, pp.y - self.pos.y));
        if d > SPRITE_SIGHT_RANGE {
            false
        } else {
            let ang = atan2_spec(pp.y - self.pos.y, pp.x - self.pos.x);
            let diff = norm_angle_spec(ang - self.facing_angle);
            if abs_i(diff) > self.fov / 2 {
                false
            } else {
                crate::maze::sees_spec(m, self.pos.x as int, self.pos.y as int, pp.x as int, pp.y as int, block)
            }
        }
    }

    /// Whether the sprite can see the player: distance cutoff, field of
    /// view around the facing angle, and wall occlusion along the
    /// segment between them.
    pub fn can_see_player(&self, player_pos: Vec2, maze: &Maze, block_size: usize) -> (r: bool)
        requires
            maze.wf(),
            block_ok(block_size as int),
            coord_ok(self.pos.x as int),
            coord_ok(self.pos.y as int),
            coord_ok(player_pos.x as int),
            coord_ok(player_pos.y as int),
            -PI_URAD <= self.facing_angle <= PI_URAD,
            0 <= self.fov <= crate::geometry::TWO_PI_URAD,
        ensures
            r == self.can_see_spec(player_pos, *maze, block_size as int),
    {
        let d = distance(self.pos, player_pos);
        if d > SPRITE_SIGHT_RANGE {
            return false;
        }
        let dx: i64 = player_pos.x - self.pos.x;
        let dy: i64 = player_pos.y - self.pos.y;
        let ang: i64 = atan2_urad(dy, dx);
        let diff: i64 = norm_angle(ang - self.facing_angle);
        let adiff: i64 = if diff >= 0 {
            diff
        } else {
            -diff
        };
        if adiff > ((self.fov as u64) / 2) as i64 {
            return false;
        }
        crate::maze::has_line_of_sight(
            maze,
            self.pos.x,
            self.pos.y,
            player_pos.x,
            player_pos.y,
            block_size,
        )
    }
}

/// A sprite with its cached view values recomputed against the camera:
/// the rounded-down distance and the angle from the camera.
pub open spec fn with_view(s: Sprite, p: Player) -> Sprite {
    Sprite {
        distance: floor_sqrt(dist_sq(s.pos.x - p.pos.x, s.pos.y - p.pos.y)) as u64,
        angle: atan2_spec(s.pos.y - p.pos.y, s.pos.x - p.pos.x) as i64,
        ..s
    }
}

/// Far-to-near ordering: cached distances never increase along the
/// sequence.
pub open spec fn sorted_far_to_near(s: Seq<Sprite>) -> bool {
    forall|a: int, b: int| 0 <= a < b < s.len() ==> s[a].distance >= s[b].distance
}

/// Recomputes every sprite's cached distance and angle to the camera,
/// then orders the collection far to near, so that later compositing
/// passes draw distant sprites first.
pub fn update_sprite_distances(sprites: &mut Vec<Sprite>, player: &Player)
    requires
        coord_ok(player.pos.x as int),
        coord_ok(player.pos.y as int),
        forall|k: int|
            0 <= k < old(sprites).len() ==> coord_ok((#[trigger] old(sprites)@[k]).pos.x as int)
                && coord_ok(old(sprites)@[k].pos.y as int),
    ensures
        final(sprites).len() == old(sprites).len(),
        final(sprites)@.to_multiset() == Seq::new(
            old(sprites)@.len(),
            |k: int| with_view(old(sprites)@[k], *player),
        ).to_multiset(),
        sorted_far_to_near(final(sprites)@),
{
    broadcast use vstd::seq_lib::to_multiset_update;
    broadcast use vstd::seq_lib::group_to_multiset_ensures;
    broadcast use vstd::multiset::group_multiset_axioms;

    let ghost target: Seq<Sprite> = Seq::new(
        old(sprites)@.len(),
        |k: int| with_view(old(sprites)@[k], *player),
    );
    let n = sprites.len();
    let mut k: usize = 0;
    while k < n
        invariant
            n == sprites.len(),
            n == old(sprites).len(),
            0 <= k <= n,
            coord_ok(player.pos.x as int),
            coord_ok(player.pos.y as int),
            forall|k2: int|
                0 <= k2 < n ==> coord_ok((#[trigger] old(sprites)@[k2]).pos.x as int) && coord_ok(
                    old(sprites)@[k2].pos.y as int,
                ),
            target == Seq::new(old(sprites)@.len(), |k2: int| with_view(old(sprites)@[k2], *player)),
            forall|k2: int| k <= k2 < n ==> #[trigger] sprites@[k2] == old(sprites)@[k2],
            forall|k2: int| 0 <= k2 < k ==> #[trigger] sprites@[k2] == target[k2],
        decreases n - k,
    {
        let s = sprites[k];
        proof {
            assert(s == old(sprites)@[k as int]);
        }
        let d = distance(player.pos, s.pos);
        let ang = atan2_urad(s.pos.y - player.pos.y, s.pos.x - player.pos.x);
        let mut s2 = s;
        s2.distance = d;
        s2.angle = ang;
        sprites[k] = s2;
        proof {
            assert(sprites@[k as int] == target[k as int]);
        }
        k = k + 1;
    }
    proof {
        assert(sprites@ =~= target);
    }
    // Selection sort, far to near.
    let mut i: usize = 0;
    while i < n
        invariant
            n == sprites.len(),
            0 <= i <= n,
            sprites@.to_multiset() == target.to_multiset(),
            forall|a: int, b: int|
                0 <= a < b < i ==> (#[trigger] sprites@[a]).distance >= (
                #[trigger] sprites@[b]).distance,
            forall|a: int, b: int|
                0 <= a < i <= b < n ==> (#[trigger] sprites@[a]).distance >= (
                #[trigger] sprites@[b]).distance,
        decreases n - i,
    {
        let mut mi: usize = i;
        let mut t: usize = i + 1;
        while t < n
            invariant
                n == sprites.len(),
                0 <= i <= mi < n,
                i + 1 <= t <= n,
                forall|q: int| i <= q < t ==> (#[trigger] sprites@[q]).distance
                    <= sprites@[mi as int].distance,
            decreases n - t,
        {
            if sprites[t].distance > sprites[mi].distance {
                mi = t;
            }
            t = t + 1;
        }
        let a = sprites[i];
        let b = sprites[mi];
        let ghost before = sprites@;
        sprites[i] = b;
        sprites[mi] = a;
        proof {
            let mid = before.update(i as int, b);
            assert(sprites@ == mid.update(mi as int, a));
            vstd::seq_lib::to_multiset_update(before, i as int, b);
            vstd::seq_lib::to_multiset_update(mid, mi as int, a);
            before.to_multiset_ensures();
            assert(before.contains(a)) by {
                assert(before[i as int] == a);
            }
            assert(mid[mi as int] == b);
            assert(before.to_multiset().count(a) >= 1);
            assert(sprites@.to_multiset() == before.to_multiset().insert(b).remove(a).insert(
                a,
            ).remove(b));
            assert forall|x: Sprite|
                sprites@.to_multiset().count(x) == before.to_multiset().count(x) by {
                assert(before.to_multiset().insert(b).count(a) >= 1);
            }
            assert(sprites@.to_multiset() =~= before.to_multiset());
        }
        i = i + 1;
    }
    proof {
        assert(sprites@.len() == target.len());
    }
}

} // verus!

verus! {

use crate::geometry::TWO_PI_URAD;

/// Angular offset of the sprite from the camera heading, normalized
/// into a half turn either way.
pub open spec fn sprite_diff(p: Player, s: Sprite) -> int {
    norm_angle_spec(atan2_spec(s.pos.y - p.pos.y, s.pos.x - p.pos.x) - p.a)
}

/// Rounded-down distance from the camera to the sprite.
pub open spec fn sprite_cam_dist(p: Player, s: Sprite) -> int {
    floor_sqrt(dist_sq(s.pos.x - p.pos.x, s.pos.y - p.pos.y))
}

/// Whether the compositor draws this sprite at all: within half the
/// camera's field of view, and neither at the camera position nor
/// beyond the draw range.
pub open spec fn sprite_visible(p: Player, s: Sprite) -> bool {
    abs_i(sprite_diff(p, s)) <= p.fov / 2 && 1 <= sprite_cam_dist(p, s) <= SPRITE_DRAW_RANGE
}

/// Projected side length of the sprite quad, inversely proportional to
/// its distance.
pub open spec fn sprite_size(p: Player, s: Sprite, h: int) -> int {
    (h * 100) / sprite_cam_dist(p, s)
}

/// Horizontal screen center of the sprite: the angular offset scaled by
/// half the field of view to half the screen width, clamped at zero.
pub open spec fn sprite_screen_x(p: Player, s: Sprite, w: int) -> int {
    let sx = w / 2 + scaled_toward(sprite_diff(p, s), w / 2, p.fov / 2);
    if sx < 0 {
        0
    } else {
        sx
    }
}

/// Left edge of the sprite quad on screen.
pub open spec fn sprite_start_x(p: Player, s: Sprite, w: int, h: int) -> int {
    let sx = sprite_screen_x(p, s, w);
    let half = sprite_size(p, s, h) / 2;
    if sx >= half {
        sx - half
    } else {
        0
    }
}

/// Top edge of the sprite quad on screen.
pub open spec fn sprite_start_y(p: Player, s: Sprite, h: int) -> int {
    let half = sprite_size(p, s, h) / 2;
    if h / 2 >= half {
        h / 2 - half
    } else {
        0
    }
}

/// One-past-right edge of the sprite quad on screen.
pub open spec fn sprite_end_x(p: Player, s: Sprite, w: int, h: int) -> int {
    let e = sprite_start_x(p, s, w, h) + sprite_size(p, s, h);
    if e > w {
        w
    } else {
        e
    }
}

/// One-past-bottom edge of the sprite quad on screen.
pub open spec fn sprite_end_y(p: Player, s: Sprite, h: int) -> int {
    let e = sprite_start_y(p, s, h) + sprite_size(p, s, h);
    if e > h {
        h
    } else {
        e
    }
}

/// Which texels of a sprite read as background. The two policies are
/// mutually exclusive and give different results; the compositor is
/// told explicitly which one a texture set uses.
#[derive(Clone, Copy, PartialEq, Eq, Structural, Debug)]
pub enum TransparencyPolicy {
    /// For texture sets with a real alpha channel: low alpha, pure
    /// black and the pure magenta chroma key read as background.
    AlphaChroma,
    /// For texture sets without alpha: near-black and near-white
    /// luminance read as background.
    LuminanceMask,
}

/// The transparency rule for sprite texels under the given policy.
pub open spec fn is_transparent_spec(policy: TransparencyPolicy, c: Color) -> bool {
    match policy {
        TransparencyPolicy::AlphaChroma => {
            ||| c.a < 128
            ||| (c.r == 0 && c.g == 0 && c.b == 0)
            ||| (c.r == 255 && c.g == 0 && c.b == 255)
        },
        TransparencyPolicy::LuminanceMask => {
            let lum = (c.r + c.g + c.b) / 3;
            lum < 8 || lum > 247
        },
    }
}

/// Tests whether a sprite texel reads as transparent background.
pub fn is_transparent(policy: TransparencyPolicy, c: Color) -> (r: bool)
    ensures
        r == is_transparent_spec(policy, c),
{
    match policy {
        TransparencyPolicy::AlphaChroma => {
            c.a < 128 || (c.r == 0 && c.g == 0 && c.b == 0) || (c.r == 255 && c.g == 0 && c.b
                == 255)
        },
        TransparencyPolicy::LuminanceMask => {
            let lum: u32 = ((c.r as u32) + (c.g as u32) + (c.b as u32)) / 3;
            lum < 8 || lum > 247
        },
    }
}

/// Per-mille shading intensity for a sprite texel: a softened distance
/// falloff, floored higher for very dark texels so they stay visible.
pub open spec fn sprite_intensity(d: int, c: Color) -> int {
    let base = 1000 - (if d >= 400 {
        400
    } else {
        d
    });
    let brightness = (c.r + c.g + c.b) / 3;
    if brightness < 5 && base < 800 {
        800
    } else {
        base
    }
}

/// The texture width and height used for the sprite, with a 128 by 128
/// fallback for unmapped tags.
pub open spec fn sprite_tex_w(tm: TextureManager, s: Sprite) -> int {
    if tm.has_tag(s.texture_char) {
        tm.texture_for(s.texture_char).width as int
    } else {
        128
    }
}

/// See `sprite_tex_w`.
pub open spec fn sprite_tex_h(tm: TextureManager, s: Sprite) -> int {
    if tm.has_tag(s.texture_char) {
        tm.texture_for(s.texture_char).height as int
    } else {
        128
    }
}

/// What compositing one sprite leaves in the pixel at `(x, y)`: inside
/// the projected quad, a pixel is painted with the shaded texel exactly
/// when the sprite is visible, strictly closer than the depth buffer's
/// value at that column, and the texel is not transparent; everything
/// else keeps the prior color.
pub open spec fn sprite_pixel(
    p: Player,
    s: Sprite,
    tm: TextureManager,
    zbuf: Seq<u64>,
    policy: TransparencyPolicy,
    w: int,
    h: int,
    x: int,
    y: int,
    old_pix: Color,
) -> Color {
    let d = sprite_cam_dist(p, s);
    let sx0 = sprite_start_x(p, s, w, h);
    let sy0 = sprite_start_y(p, s, h);
    let tx = ((x - sx0) * sprite_tex_w(tm, s)) / sprite_size(p, s, h);
    let ty = ((y - sy0) * sprite_tex_h(tm, s)) / sprite_size(p, s, h);
    let c = tm.sample_spec(s.texture_char, tx, ty);
    if sprite_visible(p, s) && sx0 <= x < sprite_end_x(p, s, w, h) && sy0 <= y < sprite_end_y(
        p,
        s,
        h,
    ) && 0 <= x < zbuf.len() && d < zbuf[x] && !is_transparent_spec(policy, c) {
        let f = sprite_intensity(d, c);
        Color {
            r: scale_channel_spec(c.r as int, f) as u8,
            g: scale_channel_spec(c.g as int, f) as u8,
            b: scale_channel_spec(c.b as int, f) as u8,
            a: 255,
        }
    } else {
        old_pix
    }
}

/// The depth-test law of the compositor: wherever compositing a sprite
/// changed a pixel, the sprite's distance is strictly less than the
/// depth buffer's value at that pixel's column. Walls recorded in the
/// depth buffer therefore occlude every sprite behind them.
pub proof fn lemma_sprite_depth_test(
    p: Player,
    s: Sprite,
    tm: TextureManager,
    zbuf: Seq<u64>,
    policy: TransparencyPolicy,
    w: int,
    h: int,
    x: int,
    y: int,
    old_pix: Color,
)
    requires
        sprite_pixel(p, s, tm, zbuf, policy, w, h, x, y, old_pix) != old_pix,
    ensures
        0 <= x < zbuf.len(),
        sprite_cam_dist(p, s) < zbuf[x],
{
}

/// Composites one sprite into the frame: projects it to a screen-space
/// square, depth-tests every pixel against the per-column depth buffer,
/// skips transparent texels, and shades the rest by distance.
#[verifier::rlimit(100)]
pub fn draw_sprite(
    framebuffer: &mut Framebuffer,
    player: &Player,
    sprite: &Sprite,
    texture_manager: &TextureManager,
    z_buffer: &Vec<u64>,
    policy: TransparencyPolicy,
) 
    requires
        old(framebuffer).wf(),
        texture_manager.wf(),
        coord_ok(player.pos.x as int),
        coord_ok(player.pos.y as int),
        coord_ok(sprite.pos.x as int),
        coord_ok(sprite.pos.y as int),
        -PI_URAD <= player.a <= PI_URAD,
        2 <= player.fov <= TWO_PI_URAD,
    ensures
        final(framebuffer).wf(),
        final(framebuffer).width == old(framebuffer).width,
        final(framebuffer).height == old(framebuffer).height,
        final(framebuffer).background_color == old(framebuffer).background_color,
        final(framebuffer).current_color == old(framebuffer).current_color,
        forall|qx: int, qy: int|
            final(framebuffer).in_bounds(qx, qy) ==> #[trigger] final(framebuffer).pix(qx, qy)
                == sprite_pixel(
                *player,
                *sprite,
                *texture_manager,
                z_buffer@,
                policy,
                old(framebuffer).width as int,
                old(framebuffer).height as int,
                qx,
                qy,
                old(framebuffer).pix(qx, qy),
            ),
{
    let ghost gp: Player = *player;
    let ghost gs: Sprite = *sprite;
    let ghost gtm: TextureManager = *texture_manager;
    let ghost gz: Seq<u64> = z_buffer@;
    let w: u32 = framebuffer.width;
    let h: u32 = framebuffer.height;
    let ghost gw: int = w as int;
    let ghost gh: int = h as int;
    let dx: i64 = sprite.pos.x - player.pos.x;
    let dy: i64 = sprite.pos.y - player.pos.y;
    let ang: i64 = atan2_urad(dy, dx);
    let diff: i64 = norm_angle(ang - player.a);
    let adiff: i64 = if diff >= 0 {
        diff
    } else {
        -diff
    };
    let fovh: i64 = ((player.fov as u64) / 2) as i64;
    if adiff > fovh {
        proof {
            assert(!sprite_visible(gp, gs));
            assert(forall|qx: int, qy: int|
                framebuffer.in_bounds(qx, qy) ==> #[trigger] framebuffer.pix(qx, qy)
                    == sprite_pixel(
                    gp,
                    gs,
                    gtm,
                    gz,
                    policy,
                    gw,
                    gh,
                    qx,
                    qy,
                    old(framebuffer).pix(qx, qy),
                ));
        }
        return ;
    }
    let dist: u64 = distance(player.pos, sprite.pos);
    if dist > SPRITE_DRAW_RANGE || dist == 0 {
        proof {
            assert(!sprite_visible(gp, gs));
        }
        return ;
    }
    proof {
        assert(sprite_visible(gp, gs));
    }
    let size: u64 = (h as u64) * 100 / dist;
    let half: u64 = size / 2;
    // Screen center from the angular offset.
    let wh: u64 = (w / 2) as u64;
    let am: u64 = if diff >= 0 {
        diff as u64
    } else {
        (-diff) as u64
    };
    proof {
        assert(am * wh <= 3141593 * 16384) by (nonlinear_arith)
            requires
                am <= 3141593,
                wh <= 16384,
        ;
    }
    let q: u64 = am * wh / (fovh as u64);
    let sx: i64 = if diff >= 0 {
        (wh as i64) + (q as i64)
    } else {
        (wh as i64) - (q as i64)
    };
    proof {
        assert(q <= am * wh);
        assert(sx == gw / 2 + scaled_toward(sprite_diff(gp, gs), gw / 2, gp.fov / 2));
        assert(sx >= 0 ==> sx == sprite_screen_x(gp, gs, gw));
        assert(sx < 0 ==> sprite_screen_x(gp, gs, gw) == 0);
    }
    let sx_c: i64 = if sx < 0 {
        0
    } else {
        sx
    };
    let start_x: i64 = if sx_c >= half as i64 {
        sx_c - half as i64
    } else {
        0
    };
    let start_y: i64 = if (h / 2) as i64 >= half as i64 {
        (h / 2) as i64 - half as i64
    } else {
        0
    };
    let end_x: i64 = if start_x + size as i64 > w as i64 {
        w as i64
    } else {
        start_x + size as i64
    };
    let end_y: i64 = if start_y + size as i64 > h as i64 {
        h as i64
    } else {
        start_y + size as i64
    };
    proof {
        assert(size == sprite_size(gp, gs, gh));
        assert(start_x == sprite_start_x(gp, gs, gw, gh));
        assert(start_y == sprite_start_y(gp, gs, gh));
        assert(end_x == sprite_end_x(gp, gs, gw, gh));
        assert(end_y == sprite_end_y(gp, gs, gh));
    }
    let (tex_w, tex_h): (u32, u32) = match texture_manager.get_texture_dimensions(
        sprite.texture_char,
    ) {
        Some((a, b)) => (a, b),
        None => (128, 128),
    };
    proof {
        assert(tex_w == sprite_tex_w(gtm, gs) && tex_h == sprite_tex_h(gtm, gs));
    }
    let zlen: usize = z_buffer.len();
    let mut x: i64 = start_x;
    while x < end_x
        invariant
            framebuffer.wf(),
            texture_manager.wf(),
            framebuffer.width == old(framebuffer).width,
            framebuffer.height == old(framebuffer).height,
            framebuffer.background_color == old(framebuffer).background_color,
            framebuffer.current_color == old(framebuffer).current_color,
            gp == *player,
            gs == *sprite,
            gtm == *texture_manager,
            gz == z_buffer@,
            w == old(framebuffer).width,
            h == old(framebuffer).height,
            gw == w as int,
            gh == h as int,
            zlen == z_buffer.len(),
            sprite_visible(gp, gs),
            dist == sprite_cam_dist(gp, gs),
            1 <= dist <= SPRITE_DRAW_RANGE,
            size == sprite_size(gp, gs, gh),
            0 <= size <= 3_276_800,
            start_x == sprite_start_x(gp, gs, gw, gh),
            start_y == sprite_start_y(gp, gs, gh),
            end_x == sprite_end_x(gp, gs, gw, gh),
            end_y == sprite_end_y(gp, gs, gh),
            0 <= start_y,
            end_y <= h,
            end_x <= w,
            tex_w == sprite_tex_w(gtm, gs),
            tex_h == sprite_tex_h(gtm, gs),
            1 <= tex_w <= 4096,
            1 <= tex_h <= 4096,
            start_x <= x <= end_x || x == start_x,
            forall|qx: int, qy: int|
                framebuffer.in_bounds(qx, qy) ==> #[trigger] framebuffer.pix(qx, qy) == if qx < x
                    && start_x <= qx {
                    sprite_pixel(gp, gs, gtm, gz, policy, gw, gh, qx, qy, old(framebuffer).pix(qx, qy))
                } else {
                    old(framebuffer).pix(qx, qy)
                },
        decreases end_x - x,
    {
        let mut y: i64 = start_y;
        while y < end_y
            invariant
                framebuffer.wf(),
                texture_manager.wf(),
                framebuffer.width == old(framebuffer).width,
                framebuffer.height == old(framebuffer).height,
                framebuffer.background_color == old(framebuffer).background_color,
                framebuffer.current_color == old(framebuffer).current_color,
                gp == *player,
                gs == *sprite,
                gtm == *texture_manager,
                gz == z_buffer@,
                w == old(framebuffer).width,
                h == old(framebuffer).height,
                gw == w as int,
                gh == h as int,
                zlen == z_buffer.len(),
                sprite_visible(gp, gs),
                dist == sprite_cam_dist(gp, gs),
                1 <= dist <= SPRITE_DRAW_RANGE,
                size == sprite_size(gp, gs, gh),
                0 <= size <= 3_276_800,
                start_x == sprite_start_x(gp, gs, gw, gh),
                start_y == sprite_start_y(gp, gs, gh),
                end_x == sprite_end_x(gp, gs, gw, gh),
                end_y == sprite_end_y(gp, gs, gh),
                0 <= start_y,
                end_y <= h,
                end_x <= w,
                tex_w == sprite_tex_w(gtm, gs),
                tex_h == sprite_tex_h(gtm, gs),
                1 <= tex_w <= 4096,
                1 <= tex_h <= 4096,
                start_x <= x < end_x,
                start_y <= y <= end_y || y == start_y,
                forall|qx: int, qy: int|
                    framebuffer.in_bounds(qx, qy) ==> #[trigger] framebuffer.pix(qx, qy) == if (qx
                        < x && start_x <= qx) || (qx == x && start_y <= qy < y) {
                        sprite_pixel(gp, gs, gtm, gz, policy, gw, gh, qx, qy, old(framebuffer).pix(qx, qy))
                    } else {
                        old(framebuffer).pix(qx, qy)
                    },
            decreases end_y - y,
        {
            let mut wrote: bool = false;
            let ghost pre = *framebuffer;
            if (x as usize) < zlen && dist < z_buffer[x as usize] {
                proof {
                    assert((x - start_x) * (tex_w as int) <= 3_276_800 * 4096)
                        by (nonlinear_arith)
                        requires
                            0 <= x - start_x <= 3_276_800,
                            tex_w <= 4096,
                    ;
                    assert((y - start_y) * (tex_h as int) <= 3_276_800 * 4096)
                        by (nonlinear_arith)
                        requires
                            0 <= y - start_y <= 3_276_800,
                            tex_h <= 4096,
                    ;
                }
                let txn: u64 = ((x - start_x) as u64) * (tex_w as u64) / size;
                let tyn: u64 = ((y - start_y) as u64) * (tex_h as u64) / size;
                let tx: u32 = if txn > 0xFFFF_FFFF {
                    0xFFFF_FFFF
                } else {
                    txn as u32
                };
                let ty: u32 = if tyn > 0xFFFF_FFFF {
                    0xFFFF_FFFF
                } else {
                    tyn as u32
                };
                proof {
                    assert(txn < tex_w) by (nonlinear_arith)
                        requires
                            txn == ((x - start_x) as int) * (tex_w as int) / (size as int),
                            0 <= x - start_x < size,
                            1 <= tex_w,
                            1 <= size,
                    ;
                    assert(tyn < tex_h) by (nonlinear_arith)
                        requires
                            tyn == ((y - start_y) as int) * (tex_h as int) / (size as int),
                            0 <= y - start_y < size,
                            1 <= tex_h,
                            1 <= size,
                    ;
                    assert(tx == ((x - start_x) * (tex_w as int)) / (size as int));
                    assert(ty == ((y - start_y) * (tex_h as int)) / (size as int));
                }
                let c = texture_manager.get_pixel_color(sprite.texture_char, tx, ty);
                if !is_transparent(policy, c) {
                    let base: u32 = 1000 - (if dist >= 400 {
                        400
                    } else {
                        dist as u32
                    });
                    let brightness: u32 = ((c.r as u32) + (c.g as u32) + (c.b as u32)) / 3;
                    let f: u32 = if brightness < 5 && base < 800 {
                        800
                    } else {
                        base
                    };
                    proof {
                        assert(f == sprite_intensity(dist as int, c));
                    }
                    let shaded = Color {
                        r: scale_channel(c.r, f),
                        g: scale_channel(c.g, f),
                        b: scale_channel(c.b, f),
                        a: 255,
                    };
                    framebuffer.set_pixel_color(x as u32, y as u32, shaded);
                    wrote = true;
                    proof {
                        assert(framebuffer.pix(x as int, y as int) == sprite_pixel(
                            gp,
                            gs,
                            gtm,
                            gz,
                            policy,
                            gw,
                            gh,
                            x as int,
                            y as int,
                            pre.pix(x as int, y as int),
                        )) by {
                            lemma_pix_idx_bounds(gw, gh, x as int, y as int);
                        }
                    }
                }
            }
            proof {
                assert forall|qx: int, qy: int| framebuffer.in_bounds(qx, qy) implies
                    #[trigger] framebuffer.pix(qx, qy) == if (qx < x && start_x <= qx) || (qx == x
                    && start_y <= qy < y + 1) {
                    sprite_pixel(gp, gs, gtm, gz, policy, gw, gh, qx, qy, old(framebuffer).pix(qx, qy))
                } else {
                    old(framebuffer).pix(qx, qy)
                } by {
                    lemma_pix_idx_bounds(gw, gh, qx, qy);
                    if wrote {
                        lemma_pix_idx_bounds(gw, gh, x as int, y as int);
                        if pix_idx(gw, qx, qy) == pix_idx(gw, x as int, y as int) {
                            lemma_pix_idx_injective(gw, qx, qy, x as int, y as int);
                        } else {
                            assert(framebuffer.pix(qx, qy) == pre.pix(qx, qy));
                        }
                    } else {
                        assert(framebuffer.pix(qx, qy) == pre.pix(qx, qy));
                        if qx == x && qy == y {
                            assert(sprite_pixel(
                                gp,
                                gs,
                                gtm,
                                gz,
                                policy,
                                gw,
                                gh,
                                qx,
                                qy,
                                old(framebuffer).pix(qx, qy),
                            ) == old(framebuffer).pix(qx, qy));
                        }
                    }
                }
            }
            y = y + 1;
        }
        x = x + 1;
    }
    proof {
        assert forall|qx: int, qy: int| framebuffer.in_bounds(qx, qy) implies
            #[trigger] framebuffer.pix(qx, qy) == sprite_pixel(
            gp,
            gs,
            gtm,
            gz,
            policy,
            gw,
            gh,
            qx,
            qy,
            old(framebuffer).pix(qx, qy),
        ) by {
            if !(start_x <= qx < end_x) {
                assert(sprite_pixel(gp, gs, gtm, gz, policy, gw, gh, qx, qy, old(framebuffer).pix(qx, qy))
                    == old(framebuffer).pix(qx, qy));
            }
        }
    }
}

} // verus!

verus! {

use crate::player::{moved_x_spec, moved_y_spec};

/// Whether the sprite detects the player this update: it sees the
/// player outright, or it had already detected the player and the
/// player is still within its hysteresis-widened field of view.
pub open spec fn ai_detected(s: Sprite, pp: Vec2, m: Maze, block: int) -> bool {
    let ang = atan2_spec(pp.y - s.pos.y, pp.x - s.pos.x);
    let diff = norm_angle_spec(ang - s.facing_angle);
    let det_fov = s.fov + if s.player_detected {
        DETECTION_HYSTERESIS as int
    } else {
        0
    };
    s.can_see_spec(pp, m, block) || (s.player_detected && abs_i(diff) <= det_fov / 2)
}

/// The sprite's facing angle after one update: rotated toward the
/// player by a rate that doubles once detected and halves otherwise,
/// saturated at the remaining angular difference; kept normalized.
pub open spec fn ai_facing(s: Sprite, pp: Vec2, detected: bool) -> int {
    let d = floor_sqrt(dist_sq(pp.x - s.pos.x, pp.y - s.pos.y));
    let ang = atan2_spec(pp.y - s.pos.y, pp.x - s.pos.x);
    let diff = norm_angle_spec(ang - s.facing_angle);
    if d > 10 && abs_i(diff) > 10000 {
        let rate = if detected {
            2 * (ROTATION_SPEED as int)
        } else {
            (ROTATION_SPEED as int) / 2
        };
        let step = if rate < abs_i(diff) {
            rate
        } else {
            abs_i(diff)
        };
        norm_angle_spec(
            s.facing_angle + if diff > 0 {
                step
            } else {
                -step
            },
        )
    } else {
        s.facing_angle as int
    }
}

/// Where a pursuing sprite ends up: it walks one speed unit toward the
/// player, first diagonally, then per axis (sliding along walls), and
/// finally sideways around obstacles; each candidate is taken only when
/// its clearance corners stay free.
pub open spec fn ai_move(m: Maze, pos: Vec2, dx: int, dy: int, d: int, block: int) -> (int, int) {
    let mx = scaled_toward(dx, ENEMY_SPEED as int, d);
    let my = scaled_toward(dy, ENEMY_SPEED as int, d);
    let nx = pos.x + mx;
    let ny = pos.y + my;
    if !margin_collides_spec(m, nx, ny, block, SPRITE_MARGIN as int) {
        (nx, ny)
    } else {
        let okx = !margin_collides_spec(m, nx, pos.y as int, block, SPRITE_MARGIN as int);
        let x1 = if okx {
            nx
        } else {
            pos.x as int
        };
        let oky = !margin_collides_spec(m, x1, ny, block, SPRITE_MARGIN as int);
        let y1 = if oky {
            ny
        } else {
            pos.y as int
        };
        if okx || oky {
            (x1, y1)
        } else {
            let p1x = pos.x + scaled_toward(-dy, ENEMY_SPEED as int, d);
            let p1y = pos.y + scaled_toward(dx, ENEMY_SPEED as int, d);
            if !margin_collides_spec(m, p1x, p1y, block, SPRITE_MARGIN as int) {
                (p1x, p1y)
            } else {
                let p2x = pos.x + scaled_toward(dy, ENEMY_SPEED as int, d);
                let p2y = pos.y + scaled_toward(-dx, ENEMY_SPEED as int, d);
                if !margin_collides_spec(m, p2x, p2y, block, SPRITE_MARGIN as int) {
                    (p2x, p2y)
                } else {
                    (pos.x as int, pos.y as int)
                }
            }
        }
    }
}

/// One pursuit update of a sprite: detection with hysteresis, rotation
/// toward the player, and collision-checked movement once the player is
/// detected and not already adjacent.
pub open spec fn ai_step(s: Sprite, pp: Vec2, m: Maze, block: int) -> Sprite {
    let d = floor_sqrt(dist_sq(pp.x - s.pos.x, pp.y - s.pos.y));
    let detected = ai_detected(s, pp, m, block);
    let facing1 = ai_facing(s, pp, detected);
    let moved = if detected && d >= 15 {
        ai_move(m, s.pos, pp.x - s.pos.x, pp.y - s.pos.y, d, block)
    } else {
        (s.pos.x as int, s.pos.y as int)
    };
    Sprite {
        pos: Vec2 { x: moved.0 as i64, y: moved.1 as i64 },
        facing_angle: facing1 as i64,
        player_detected: detected,
        ..s
    }
}

/// Tries one movement candidate for a pursuing sprite.
fn try_move(maze: &Maze, nx: i64, ny: i64, block_size: usize) -> (r: bool)
    requires
        maze.wf(),
        block_ok(block_size as int),
        -0x1000_0000_0000 <= nx <= 0x1000_0000_0000,
        -0x1000_0000_0000 <= ny <= 0x1000_0000_0000,
    ensures
        r == !margin_collides_spec(
            *maze,
            nx as int,
            ny as int,
            block_size as int,
            SPRITE_MARGIN as int,
        ),
{
    !check_collision_with_margin(maze, nx, ny, block_size, SPRITE_MARGIN)
}

/// Applies one pursuit update to a single sprite.
fn ai_step_one(s: Sprite, player_pos: Vec2, maze: &Maze, block_size: usize) -> (r: Sprite)
    requires
        maze.wf(),
        block_ok(block_size as int),
        coord_ok(s.pos.x as int),
        coord_ok(s.pos.y as int),
        coord_ok(player_pos.x as int),
        coord_ok(player_pos.y as int),
        -PI_URAD <= s.facing_angle <= PI_URAD,
        0 <= s.fov <= TWO_PI_URAD,
    ensures
        r == ai_step(s, player_pos, *maze, block_size as int),
        coord_ok(r.pos.x as int),
        coord_ok(r.pos.y as int),
        -PI_URAD <= r.facing_angle <= PI_URAD,
{
    let dx: i64 = player_pos.x - s.pos.x;
    let dy: i64 = player_pos.y - s.pos.y;
    let d: u64 = distance(s.pos, player_pos);
    let ang: i64 = atan2_urad(dy, dx);
    let diff: i64 = norm_angle(ang - s.facing_angle);
    let adiff: i64 = if diff >= 0 {
        diff
    } else {
        -diff
    };
    let can_see = s.can_see_player(player_pos, maze, block_size);
    let det_fov: i64 = s.fov + if s.player_detected {
        DETECTION_HYSTERESIS
    } else {
        0
    };
    let detected: bool = can_see || (s.player_detected && adiff <= ((det_fov as u64) / 2) as i64);
    proof {
        assert(detected == ai_detected(s, player_pos, *maze, block_size as int));
    }
    let facing1: i64 = if d > 10 && adiff > 10000 {
        let rate: i64 = if detected {
            2 * ROTATION_SPEED
        } else {
            ROTATION_SPEED / 2
        };
        let step: i64 = if rate < adiff {
            rate
        } else {
            adiff
        };
        norm_angle(s.facing_angle + (if diff > 0 {
            step
        } else {
            -step
        }))
    } else {
        s.facing_angle
    };
    proof {
        assert(facing1 == ai_facing(s, player_pos, detected));
    }
    let pos1: Vec2 = if detected && d >= 15 {
        let mx: i64 = step_toward(dx, d);
        let my: i64 = step_toward(dy, d);
        let nx: i64 = s.pos.x + mx;
        let ny: i64 = s.pos.y + my;
        if try_move(maze, nx, ny, block_size) {
            proof {
                crate::player::lemma_clear_corner_bounds(
                    *maze,
                    nx as int,
                    ny as int,
                    block_size as int,
                    SPRITE_MARGIN as int,
                );
                lemma_grid_extent(*maze, block_size as int);
            }
            Vec2 { x: nx, y: ny }
        } else {
            let okx = try_move(maze, nx, s.pos.y, block_size);
            let x1: i64 = if okx {
                nx
            } else {
                s.pos.x
            };
            let oky = try_move(maze, x1, ny, block_size);
            let y1: i64 = if oky {
                ny
            } else {
                s.pos.y
            };
            if okx || oky {
                proof {
                    lemma_grid_extent(*maze, block_size as int);
                    if okx {
                        crate::player::lemma_clear_corner_bounds(
                            *maze,
                            nx as int,
                            s.pos.y as int,
                            block_size as int,
                            SPRITE_MARGIN as int,
                        );
                    }
                    if oky {
                        crate::player::lemma_clear_corner_bounds(
                            *maze,
                            x1 as int,
                            ny as int,
                            block_size as int,
                            SPRITE_MARGIN as int,
                        );
                    }
                }
                Vec2 { x: x1, y: y1 }
            } else {
                let p1x: i64 = s.pos.x + step_toward(-dy, d);
                let p1y: i64 = s.pos.y + step_toward(dx, d);
                if try_move(maze, p1x, p1y, block_size) {
                    proof {
                        lemma_grid_extent(*maze, block_size as int);
                        crate::player::lemma_clear_corner_bounds(
                            *maze,
                            p1x as int,
                            p1y as int,
                            block_size as int,
                            SPRITE_MARGIN as int,
                        );
                    }
                    Vec2 { x: p1x, y: p1y }
                } else {
                    let p2x: i64 = s.pos.x + step_toward(dy, d);
                    let p2y: i64 = s.pos.y + step_toward(-dx, d);
                    if try_move(maze, p2x, p2y, block_size) {
                        proof {
                            lemma_grid_extent(*maze, block_size as int);
                            crate::player::lemma_clear_corner_bounds(
                                *maze,
                                p2x as int,
                                p2y as int,
                                block_size as int,
                                SPRITE_MARGIN as int,
                            );
                        }
                        Vec2 { x: p2x, y: p2y }
                    } else {
                        s.pos
                    }
                }
            }
        }
    } else {
        s.pos
    };
    proof {
        assert((pos1.x as int, pos1.y as int) == (if detected && d >= 15 {
            ai_move(
                *maze,
                s.pos,
                player_pos.x - s.pos.x,
                player_pos.y - s.pos.y,
                d as int,
                block_size as int,
            )
        } else {
            (s.pos.x as int, s.pos.y as int)
        }));
    }
    Sprite { pos: pos1, facing_angle: facing1, player_detected: detected, ..s }
}

/// The well-formed grid extent fits the coordinate bounds.
proof fn lemma_grid_extent(m: Maze, block: int)
    by (nonlinear_arith)
    requires
        m.wf(),
        block_ok(block),
    ensures
        m.cols() * block <= 4096 * 100_000,
        m.rows() * block <= 4096 * 100_000,
{
}

/// One signed step of `ENEMY_SPEED` world units along a component of
/// the direction toward the player.
fn step_toward(dc: i64, d: u64) -> (r: i64)
    requires
        d >= 1,
        -0x8000_0000 <= dc <= 0x8000_0000,
    ensures
        r == scaled_toward(dc as int, ENEMY_SPEED as int, d as int),
        -5 <= r <= 5 || (-(0x8000_0000 * 5) <= r <= 0x8000_0000 * 5),
{
    if dc >= 0 {
        let m: u64 = (dc as u64) * 5 / d;
        proof {
            assert(m <= 0x8000_0000 * 5) by (nonlinear_arith)
                requires
                    m == (dc as int) * 5 / (d as int),
                    0 <= dc <= 0x8000_0000,
                    d >= 1,
            ;
        }
        m as i64
    } else {
        let m: u64 = ((-dc) as u64) * 5 / d;
        proof {
            assert(m <= 0x8000_0000 * 5) by (nonlinear_arith)
                requires
                    m == (-(dc as int)) * 5 / (d as int),
                    0 <= -dc <= 0x8000_0000,
                    d >= 1,
            ;
        }
        -(m as i64)
    }
}

/// Runs one pursuit update over every sprite: each sprite detects,
/// turns toward and chases the player independently, using the shared
/// collision margin so that sprites never walk into walls.
pub fn update_sprite_ai(
    sprites: &mut Vec<Sprite>,
    player: &Player,
    maze: &Maze,
    block_size: usize,
)
    requires
        maze.wf(),
        block_ok(block_size as int),
        coord_ok(player.pos.x as int),
        coord_ok(player.pos.y as int),
        forall|k: int|
            0 <= k < old(sprites).len() ==> coord_ok((#[trigger] old(sprites)@[k]).pos.x as int)
                && coord_ok(old(sprites)@[k].pos.y as int) && -PI_URAD <= old(
                sprites,
            )@[k].facing_angle <= PI_URAD && 0 <= old(sprites)@[k].fov <= TWO_PI_URAD,
    ensures
        final(sprites).len() == old(sprites).len(),
        forall|k: int|
            0 <= k < old(sprites).len() ==> #[trigger] final(sprites)@[k] == ai_step(
                old(sprites)@[k],
                player.pos,
                *maze,
                block_size as int,
            ),
{
    let n = sprites.len();
    let mut k: usize = 0;
    while k < n
        invariant
            n == sprites.len(),
            n == old(sprites).len(),
            0 <= k <= n,
            maze.wf(),
            block_ok(block_size as int),
            coord_ok(player.pos.x as int),
            coord_ok(player.pos.y as int),
            forall|k2: int|
                0 <= k2 < n ==> coord_ok((#[trigger] old(sprites)@[k2]).pos.x as int) && coord_ok(
                    old(sprites)@[k2].pos.y as int,
                ) && -PI_URAD <= old(sprites)@[k2].facing_angle <= PI_URAD && 0 <= old(
                    sprites,
                )@[k2].fov <= TWO_PI_URAD,
            forall|k2: int| k <= k2 < n ==> #[trigger] sprites@[k2] == old(sprites)@[k2],
            forall|k2: int|
                0 <= k2 < k ==> #[trigger] sprites@[k2] == ai_step(
                    old(sprites)@[k2],
                    player.pos,
                    *maze,
                    block_size as int,
                ),
        decreases n - k,
    {
        let s = sprites[k];
        proof {
            assert(s == old(sprites)@[k as int]);
        }
        let s2 = ai_step_one(s, player.pos, maze, block_size);
        sprites[k] = s2;
        k = k + 1;
    }
}

} // verus!
