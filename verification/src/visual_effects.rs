//! Screen-space post effects: flashlight vignette, fog, a time-based
//! distortion and a damage flash. Each is a full-frame transform applied
//! in place; effects compose by sequential application and later
//! effects read what earlier ones wrote.

use vstd::prelude::*;

verus! {

use crate::color::{mix_channel, mix_channel_spec, scale_channel, scale_channel_spec, Color};
use crate::framebuffer::{lemma_pix_idx_bounds, lemma_pix_idx_injective, pix_idx, Framebuffer};
use crate::geometry::{
    dist_sq, floor_sqrt, norm_angle, norm_angle_spec, sin_milli, sin_milli_spec, Vec2,
};

/// The tunable state of the post effects, in integer units: per-mille
/// intensities and milliseconds of elapsed time.
#[derive(Clone, Copy, PartialEq, Eq, Structural, Debug)]
pub struct VisualEffects {
    /// Whether the flashlight vignette is applied.
    pub flashlight_enabled: bool,
    /// Flashlight strength in per-mille; scales the lit radius.
    pub flashlight_intensity: u32,
    /// Nominal fog distance, kept for tuning.
    pub fog_distance: u32,
    /// Anxiety distortion level in per-mille, decaying over time.
    pub anxiety_level: u32,
    /// Damage flash level in per-mille, decaying over time.
    pub damage_effect: u32,
    /// Elapsed time in milliseconds.
    pub time: u64,
}

impl VisualEffects {
    /// The initial effect state: flashlight on at full strength,
    /// transient effects off.
    pub fn new() -> (e: VisualEffects)
        ensures
            e == (VisualEffects {
                flashlight_enabled: true,
                flashlight_intensity: 1000u32,
                fog_distance: 300u32,
                anxiety_level: 0u32,
                damage_effect: 0u32,
                time: 0u64,
            }),
    {
        VisualEffects {
            flashlight_enabled: true,
            flashlight_intensity: 1000,
            fog_distance: 300,
            anxiety_level: 0,
            damage_effect: 0,
            time: 0,
        }
    }

    /// Advances time by `delta_ms` milliseconds and decays the anxiety
    /// and damage levels toward zero: anxiety fades in two seconds,
    /// damage in half a second.
    pub fn update(&mut self, delta_ms: u64)
        requires
            old(self).time + delta_ms <= u64::MAX,
            delta_ms <= 1_000_000,
        ensures
            final(self).time == old(self).time + delta_ms,
            final(self).anxiety_level == if old(self).anxiety_level >= delta_ms / 2 {
                old(self).anxiety_level - delta_ms / 2
            } else {
                0
            },
            final(self).damage_effect == if old(self).damage_effect >= 2 * delta_ms {
                old(self).damage_effect - 2 * delta_ms
            } else {
                0
            },
            final(self).flashlight_enabled == old(self).flashlight_enabled,
            final(self).flashlight_intensity == old(self).flashlight_intensity,
            final(self).fog_distance == old(self).fog_distance,
    {
        self.time = self.time + delta_ms;
        let a_drop: u64 = delta_ms / 2;
        if (self.anxiety_level as u64) >= a_drop {
            self.anxiety_level = self.anxiety_level - a_drop as u32;
        } else {
            self.anxiety_level = 0;
        }
        let d_drop: u64 = 2 * delta_ms;
        if (self.damage_effect as u64) >= d_drop {
            self.damage_effect = self.damage_effect - d_drop as u32;
        } else {
            self.damage_effect = 0;
        }
    }

    /// Raises the anxiety distortion to full strength.
    pub fn trigger_anxiety(&mut self)
        ensures
            *final(self) == (VisualEffects { anxiety_level: 1000u32, ..*old(self) }),
    {
        self.anxiety_level = 1000;
    }

    /// Raises the damage flash to full strength.
    pub fn trigger_damage(&mut self)
        ensures
            *final(self) == (VisualEffects { damage_effect: 1000u32, ..*old(self) }),
    {
        self.damage_effect = 1000;
    }

    /// Switches the flashlight vignette on or off.
    pub fn toggle_flashlight(&mut self)
        ensures
            *final(self) == (VisualEffects {
                flashlight_enabled: !old(self).flashlight_enabled,
                ..*old(self)
            }),
    {
        self.flashlight_enabled = !self.flashlight_enabled;
    }
}

/// The flashlight brightness factor at screen distance `d` from the
/// center, in per-mille: brightened inside the lit radius, a linear
/// ramp down across the 30-pixel transition band, dim beyond it.
pub open spec fn flashlight_factor(d: int, intensity: int) -> int {
    let radius = (200 * intensity) / 1000;
    if d <= radius {
        if radius == 0 {
            1000
        } else {
            1000 + ((radius - d) * 200) / radius
        }
    } else if d <= radius + 30 {
        1000 - ((d - radius) * 850) / 30
    } else {
        150
    }
}

/// One pixel under the flashlight vignette: its RGB scaled by the
/// factor for its distance to the screen center, alpha kept.
pub open spec fn flashlight_pixel(w: int, h: int, intensity: int, x: int, y: int, c: Color) -> Color {
    let d = floor_sqrt(dist_sq(x - w / 2, y - h / 2));
    let f = flashlight_factor(d, intensity);
    Color {
        r: scale_channel_spec(c.r as int, f) as u8,
        g: scale_channel_spec(c.g as int, f) as u8,
        b: scale_channel_spec(c.b as int, f) as u8,
        a: c.a,
    }
}

/// The whole frame under the flashlight vignette.
pub open spec fn flashlight_frame(s: Seq<Color>, w: int, h: int, intensity: int) -> Seq<Color> {
    Seq::new(s.len(), |k: int| flashlight_pixel(w, h, intensity, k % w, k / w, s[k]))
}

/// Applies the circular flashlight vignette centered on the screen:
/// inside the lit radius pixels brighten toward the center, a 30-pixel
/// band ramps down at its edge, and everything beyond is dimmed. Does
/// nothing when the flashlight is off.
pub fn apply_flashlight_effect(
    framebuffer: &mut Framebuffer,
    _player: &crate::player::Player,
    effects: &VisualEffects,
)
    requires
        old(framebuffer).wf(),
        effects.flashlight_intensity <= 1000,
    ensures
        final(framebuffer).wf(),
        final(framebuffer).width == old(framebuffer).width,
        final(framebuffer).height == old(framebuffer).height,
        final(framebuffer).background_color == old(framebuffer).background_color,
        final(framebuffer).current_color == old(framebuffer).current_color,
        final(framebuffer).color_buffer@ == if effects.flashlight_enabled {
            flashlight_frame(
                old(framebuffer).color_buffer@,
                old(framebuffer).width as int,
                old(framebuffer).height as int,
                effects.flashlight_intensity as int,
            )
        } else {
            old(framebuffer).color_buffer@
        },
{
    if !effects.flashlight_enabled {
        return ;
    }
    let w: u32 = framebuffer.width;
    let h: u32 = framebuffer.height;
    let ghost gw: int = w as int;
    let ghost gh: int = h as int;
    let ghost gi: int = effects.flashlight_intensity as int;
    let ghost target: Seq<Color> = flashlight_frame(old(framebuffer).color_buffer@, gw, gh, gi);
    let cx: u32 = w / 2;
    let cy: u32 = h / 2;
    let radius: u32 = 200 * effects.flashlight_intensity / 1000;
    let mut y: u32 = 0;
    while y < h
        invariant
            framebuffer.wf(),
            framebuffer.width == old(framebuffer).width,
            framebuffer.height == old(framebuffer).height,
            framebuffer.background_color == old(framebuffer).background_color,
            framebuffer.current_color == old(framebuffer).current_color,
            w == old(framebuffer).width,
            h == old(framebuffer).height,
            gw == w as int,
            gh == h as int,
            gi == effects.flashlight_intensity as int,
            gi <= 1000,
            cx == w / 2,
            cy == h / 2,
            radius == (200 * gi) / 1000,
            target == flashlight_frame(old(framebuffer).color_buffer@, gw, gh, gi),
            target.len() == framebuffer.color_buffer@.len(),
            0 <= y <= h,
            forall|k: int|
                0 <= k < framebuffer.color_buffer@.len() ==> #[trigger] framebuffer.color_buffer@[k]
                    == if k < (y as int) * gw {
                    target[k]
                } else {
                    old(framebuffer).color_buffer@[k]
                },
        decreases h - y,
    {
        let mut x: u32 = 0;
        while x < w
            invariant
                framebuffer.wf(),
                framebuffer.width == old(framebuffer).width,
                framebuffer.height == old(framebuffer).height,
                framebuffer.background_color == old(framebuffer).background_color,
                framebuffer.current_color == old(framebuffer).current_color,
                w == old(framebuffer).width,
                h == old(framebuffer).height,
                gw == w as int,
                gh == h as int,
                gi == effects.flashlight_intensity as int,
                gi <= 1000,
                cx == w / 2,
                cy == h / 2,
                radius == (200 * gi) / 1000,
                target == flashlight_frame(old(framebuffer).color_buffer@, gw, gh, gi),
                target.len() == framebuffer.color_buffer@.len(),
                0 <= y < h,
                0 <= x <= w,
                forall|k: int|
                    0 <= k < framebuffer.color_buffer@.len()
                        ==> #[trigger] framebuffer.color_buffer@[k] == if k < (y as int) * gw + (
                    x as int) {
                        target[k]
                    } else {
                        old(framebuffer).color_buffer@[k]
                    },
            decreases w - x,
        {
            proof {
                lemma_pix_idx_bounds(gw, gh, x as int, y as int);
            }
            let c = framebuffer.get_pixel(x, y);
            proof {
                assert(c == old(framebuffer).color_buffer@[pix_idx(gw, x as int, y as int)]);
            }
            let dx: i64 = (x as i64) - (cx as i64);
            let dy: i64 = (y as i64) - (cy as i64);
            let d64 = crate::geometry::distance(Vec2 { x: dx, y: dy }, Vec2 { x: 0, y: 0 });
            proof {
                assert(dist_sq(0 - dx as int, 0 - dy as int) == dist_sq(
                    x as int - gw / 2,
                    y as int - gh / 2,
                )) by (nonlinear_arith)
                    requires
                        dx == x as int - gw / 2,
                        dy == y as int - gh / 2,
                ;
            }
            let d: u32 = d64 as u32;
            let f: u32 = if d <= radius {
                if radius == 0 {
                    1000
                } else {
                    1000 + ((radius - d) * 200) / radius
                }
            } else if d <= radius + 30 {
                1000 - ((d - radius) * 850) / 30
            } else {
                150
            };
            proof {
                assert(f == flashlight_factor(d as int, gi));
                if d <= radius && radius != 0 {
                    assert(((radius - d) as int) * 200 / (radius as int) <= 200)
                        by (nonlinear_arith)
                        requires
                            0 <= (radius - d) <= radius,
                            radius >= 1,
                    ;
                }
                assert(f <= 1200);
            }
            let nc = Color {
                r: scale_channel(c.r, f),
                g: scale_channel(c.g, f),
                b: scale_channel(c.b, f),
                a: c.a,
            };
            let ghost pre = framebuffer.color_buffer@;
            framebuffer.set_pixel_color(x, y, nc);
            proof {
                assert(nc == target[pix_idx(gw, x as int, y as int)]) by {
                    assert(pix_idx(gw, x as int, y as int) % gw == x as int && pix_idx(
                        gw,
                        x as int,
                        y as int,
                    ) / gw == y as int) by (nonlinear_arith)
                        requires
                            0 <= x < gw,
                            0 <= y,
                    ;
                }
                assert forall|k: int| 0 <= k < framebuffer.color_buffer@.len() implies
                    #[trigger] framebuffer.color_buffer@[k] == if k < (y as int) * gw + (x as int)
                    + 1 {
                    target[k]
                } else {
                    old(framebuffer).color_buffer@[k]
                } by {
                    if k != pix_idx(gw, x as int, y as int) {
                        assert(framebuffer.color_buffer@[k] == pre[k]);
                    }
                }
            }
            x = x + 1;
        }
        proof {
            assert((y as int + 1) * gw == (y as int) * gw + gw) by (nonlinear_arith);
        }
        y = y + 1;
    }
    proof {
        assert((h as int) * gw == framebuffer.color_buffer@.len()) by (nonlinear_arith)
            requires
                framebuffer.color_buffer@.len() == gw * gh,
                gh == h as int,
        ;
        assert(framebuffer.color_buffer@ =~= target);
    }
}

} // verus!

verus! {

use crate::geometry::{cos_milli, cos_milli_spec, scaled_toward};
use crate::player::Player;

/// The fog blend strength for screen row `y` of `h`, in per-mille:
/// doubles the vertical fraction, saturating at full fog.
pub open spec fn fog_intensity(h: int, y: int) -> int {
    if (2000 * y) / h > 1000 {
        1000
    } else {
        (2000 * y) / h
    }
}

/// One pixel with row fog applied: blended toward the fog color by the
/// row's intensity, alpha kept.
pub open spec fn fog_pixel(h: int, y: int, c: Color) -> Color {
    let fi = fog_intensity(h, y);
    Color {
        r: mix_channel_spec(c.r as int, 100, fi) as u8,
        g: mix_channel_spec(c.g as int, 100, fi) as u8,
        b: mix_channel_spec(c.b as int, 120, fi) as u8,
        a: c.a,
    }
}

/// The whole frame under row fog.
pub open spec fn fog_frame(s: Seq<Color>, w: int, h: int) -> Seq<Color> {
    Seq::new(s.len(), |k: int| fog_pixel(h, k / w, s[k]))
}

/// Applies fog by screen row: lower rows blend further toward the fog
/// color, simulating distance toward the floor.
pub fn apply_fog_effect(framebuffer: &mut Framebuffer, _effects: &VisualEffects)
    requires
        old(framebuffer).wf(),
    ensures
        final(framebuffer).wf(),
        final(framebuffer).width == old(framebuffer).width,
        final(framebuffer).height == old(framebuffer).height,
        final(framebuffer).background_color == old(framebuffer).background_color,
        final(framebuffer).current_color == old(framebuffer).current_color,
        final(framebuffer).color_buffer@ == fog_frame(
            old(framebuffer).color_buffer@,
            old(framebuffer).width as int,
            old(framebuffer).height as int,
        ),
{
    let w: u32 = framebuffer.width;
    let h: u32 = framebuffer.height;
    let ghost gw: int = w as int;
    let ghost gh: int = h as int;
    let ghost target: Seq<Color> = fog_frame(old(framebuffer).color_buffer@, gw, gh);
    if h == 0 || w == 0 {
        proof {
            assert(framebuffer.color_buffer@.len() == 0) by (nonlinear_arith)
                requires
                    framebuffer.color_buffer@.len() == gw * gh,
                    gw == 0 || gh == 0,
            ;
            assert(framebuffer.color_buffer@ =~= target);
        }
        return ;
    }
    let mut y: u32 = 0;
    while y < h
        invariant
            framebuffer.wf(),
            framebuffer.width == old(framebuffer).width,
            framebuffer.height == old(framebuffer).height,
            framebuffer.background_color == old(framebuffer).background_color,
            framebuffer.current_color == old(framebuffer).current_color,
            w == old(framebuffer).width,
            h == old(framebuffer).height,
            gw == w as int,
            gh == h as int,
            w >= 1,
            h >= 1,
            target == fog_frame(old(framebuffer).color_buffer@, gw, gh),
            target.len() == framebuffer.color_buffer@.len(),
            0 <= y <= h,
            forall|k: int|
                0 <= k < framebuffer.color_buffer@.len() ==> #[trigger] framebuffer.color_buffer@[k]
                    == if k < (y as int) * gw {
                    target[k]
                } else {
                    old(framebuffer).color_buffer@[k]
                },
        decreases h - y,
    {
        let fi_raw: u64 = 2000 * (y as u64) / (h as u64);
        let fi: u32 = if fi_raw > 1000 {
            1000
        } else {
            fi_raw as u32
        };
        proof {
            assert(fi == fog_intensity(gh, y as int));
        }
        let mut x: u32 = 0;
        while x < w
            invariant
                framebuffer.wf(),
                framebuffer.width == old(framebuffer).width,
                framebuffer.height == old(framebuffer).height,
                framebuffer.background_color == old(framebuffer).background_color,
                framebuffer.current_color == old(framebuffer).current_color,
                w == old(framebuffer).width,
                h == old(framebuffer).height,
                gw == w as int,
                gh == h as int,
                w >= 1,
                h >= 1,
                target == fog_frame(old(framebuffer).color_buffer@, gw, gh),
                target.len() == framebuffer.color_buffer@.len(),
                0 <= y < h,
                0 <= x <= w,
                fi == fog_intensity(gh, y as int),
                fi <= 1000,
                forall|k: int|
                    0 <= k < framebuffer.color_buffer@.len()
                        ==> #[trigger] framebuffer.color_buffer@[k] == if k < (y as int) * gw + (
                    x as int) {
                        target[k]
                    } else {
                        old(framebuffer).color_buffer@[k]
                    },
            decreases w - x,
        {
            proof {
                lemma_pix_idx_bounds(gw, gh, x as int, y as int);
            }
            let c = framebuffer.get_pixel(x, y);
            let nc = Color {
                r: mix_channel(c.r, 100, fi),
                g: mix_channel(c.g, 100, fi),
                b: mix_channel(c.b, 120, fi),
                a: c.a,
            };
            let ghost pre = framebuffer.color_buffer@;
            framebuffer.set_pixel_color(x, y, nc);
            proof {
                assert(nc == target[pix_idx(gw, x as int, y as int)]) by {
                    assert(pix_idx(gw, x as int, y as int) / gw == y as int) by (nonlinear_arith)
                        requires
                            0 <= x < gw,
                            0 <= y,
                    ;
                }
                assert forall|k: int| 0 <= k < framebuffer.color_buffer@.len() implies
                    #[trigger] framebuffer.color_buffer@[k] == if k < (y as int) * gw + (x as int)
                    + 1 {
                    target[k]
                } else {
                    old(framebuffer).color_buffer@[k]
                } by {
                    if k != pix_idx(gw, x as int, y as int) {
                        assert(framebuffer.color_buffer@[k] == pre[k]);
                    }
                }
            }
            x = x + 1;
        }
        proof {
            assert((y as int + 1) * gw == (y as int) * gw + gw) by (nonlinear_arith);
        }
        y = y + 1;
    }
    proof {
        assert((h as int) * gw == framebuffer.color_buffer@.len()) by (nonlinear_arith)
            requires
                framebuffer.color_buffer@.len() == gw * gh,
                gh == h as int,
        ;
        assert(framebuffer.color_buffer@ =~= target);
    }
}

/// The distortion offsets of the pixel at `(x, y)`: a time-based
/// sinusoid of the screen position, scaled by the anxiety level, at
/// most two pixels horizontally and one vertically.
#[verifier::opaque]
pub open spec fn anxiety_offsets(level: int, time: int, x: int, y: int) -> (int, int) {
    let px = norm_angle_spec(10_000 * (time + x));
    let py = norm_angle_spec(8_000 * time + 10_000 * y);
    (
        scaled_toward(sin_milli_spec(px), 2 * level, 1_000_000),
        scaled_toward(cos_milli_spec(py), 3 * level, 2_000_000),
    )
}

/// One sequential distortion step at buffer index `k`: the pixel is
/// averaged with the pixel its offset points at, read from the buffer
/// as it stands (earlier rows may already be distorted).
pub open spec fn anxiety_step(
    s: Seq<Color>,
    w: int,
    h: int,
    level: int,
    time: int,
    k: int,
) -> Seq<Color> {
    let x = k % w;
    let y = k / w;
    let o = anxiety_offsets(level, time, x, y);
    let nx0 = x + o.0;
    let nx = if nx0 < 0 {
        0
    } else if nx0 > w - 1 {
        w - 1
    } else {
        nx0
    };
    let ny0 = y + o.1;
    let ny = if ny0 < 0 {
        0
    } else if ny0 > h - 1 {
        h - 1
    } else {
        ny0
    };
    if nx != x || ny != y {
        let src = s[ny * w + nx];
        let cur = s[k];
        s.update(
            k,
            Color {
                r: (((src.r as int) + (cur.r as int)) / 2) as u8,
                g: (((src.g as int) + (cur.g as int)) / 2) as u8,
                b: (((src.b as int) + (cur.b as int)) / 2) as u8,
                a: cur.a,
            },
        )
    } else {
        s
    }
}

/// The buffer after the first `k` sequential distortion steps.
pub open spec fn anxiety_upto(
    s: Seq<Color>,
    w: int,
    h: int,
    level: int,
    time: int,
    k: int,
) -> Seq<Color>
    decreases k,
{
    if k <= 0 {
        s
    } else {
        anxiety_step(anxiety_upto(s, w, h, level, time, k - 1), w, h, level, time, k - 1)
    }
}

/// The whole frame distorted, pixel by pixel in row-major order.
pub open spec fn anxiety_frame(s: Seq<Color>, w: int, h: int, level: int, time: int) -> Seq<
    Color,
> {
    anxiety_upto(s, w, h, level, time, s.len() as int)
}

/// The length of the buffer never changes across distortion steps.
#[verifier::rlimit(100)]
pub proof fn lemma_anxiety_upto_len(s: Seq<Color>, w: int, h: int, level: int, time: int, k: int)
    requires
        k <= s.len(),
    ensures
        anxiety_upto(s, w, h, level, time, k).len() == s.len(),
    decreases k,
{
    if k > 0 {
        lemma_anxiety_upto_len(s, w, h, level, time, k - 1);
        let prev = anxiety_upto(s, w, h, level, time, k - 1);
        assert(anxiety_upto(s, w, h, level, time, k) == anxiety_step(
            prev,
            w,
            h,
            level,
            time,
            k - 1,
        ));
        assert(anxiety_step(prev, w, h, level, time, k - 1).len() == prev.len());
    } else {
        assert(anxiety_upto(s, w, h, level, time, k) == s);
    }
}

/// Computes the distortion offsets of one pixel.
fn anxiety_offset_pair(level: u32, time: u64, x: u32, y: u32) -> (o: (i64, i64))
    requires
        1 <= level <= 1000,
        time <= 1_000_000_000_000,
    ensures
        (o.0 as int, o.1 as int) == anxiety_offsets(level as int, time as int, x as int, y as int),
        -2 <= o.0 <= 2,
        -1 <= o.1 <= 1,
{
    let phx: i64 = norm_angle(10_000 * ((time + x as u64) as i64));
    let phy: i64 = norm_angle(8_000 * (time as i64) + 10_000 * (y as i64));
    let sx: i64 = sin_milli(phx);
    let sy: i64 = cos_milli(phy);
    let sax: u64 = if sx >= 0 { sx as u64 } else { (-sx) as u64 };
    let say: u64 = if sy >= 0 { sy as u64 } else { (-sy) as u64 };
    proof {
        assert(sax * (2 * (level as u64)) <= 1000 * 2000 && say * (3 * (level as u64)) <= 1000
            * 3000) by (nonlinear_arith)
            requires
                sax <= 1000,
                say <= 1000,
                level <= 1000,
        ;
    }
    let oxm: u64 = sax * (2 * level as u64) / 1_000_000;
    let oym: u64 = say * (3 * level as u64) / 2_000_000;
    let ox: i64 = if sx >= 0 {
        oxm as i64
    } else {
        -(oxm as i64)
    };
    let oy: i64 = if sy >= 0 {
        oym as i64
    } else {
        -(oym as i64)
    };
    proof {
        reveal(anxiety_offsets);
        assert((ox as int, oy as int) == anxiety_offsets(
            level as int,
            time as int,
            x as int,
            y as int,
        ));
        assert(-2 <= ox <= 2 && -1 <= oy <= 1) by (nonlinear_arith)
            requires
                ox == scaled_toward(sin_milli_spec(phx as int), 2 * (level as int), 1_000_000),
                oy == scaled_toward(cos_milli_spec(phy as int), 3 * (level as int), 2_000_000),
                -1000 <= sin_milli_spec(phx as int) <= 1000,
                -1000 <= cos_milli_spec(phy as int) <= 1000,
                0 <= level <= 1000,
        ;
    }
    (ox, oy)
}

/// Applies the time-based sinusoidal distortion: every pixel is blended
/// with a nearby pixel chosen by a sine of the time and its position.
/// Does nothing at anxiety level zero.
#[verifier::rlimit(100)]
pub fn apply_anxiety_effect(framebuffer: &mut Framebuffer, effects: &VisualEffects)
    requires
        old(framebuffer).wf(),
        effects.anxiety_level <= 1000,
        effects.time <= 1_000_000_000_000,
    ensures
        final(framebuffer).wf(),
        final(framebuffer).width == old(framebuffer).width,
        final(framebuffer).height == old(framebuffer).height,
        final(framebuffer).background_color == old(framebuffer).background_color,
        final(framebuffer).current_color == old(framebuffer).current_color,
        final(framebuffer).color_buffer@ == if effects.anxiety_level > 0 {
            anxiety_frame(
                old(framebuffer).color_buffer@,
                old(framebuffer).width as int,
                old(framebuffer).height as int,
                effects.anxiety_level as int,
                effects.time as int,
            )
        } else {
            old(framebuffer).color_buffer@
        },
{
    if effects.anxiety_level == 0 {
        return ;
    }
    let w: u32 = framebuffer.width;
    let h: u32 = framebuffer.height;
    let ghost gw: int = w as int;
    let ghost gh: int = h as int;
    let ghost lvl: int = effects.anxiety_level as int;
    let ghost tm: int = effects.time as int;
    let ghost orig: Seq<Color> = old(framebuffer).color_buffer@;
    if h == 0 || w == 0 {
        proof {
            assert(framebuffer.color_buffer@.len() == 0) by (nonlinear_arith)
                requires
                    framebuffer.color_buffer@.len() == gw * gh,
                    gw == 0 || gh == 0,
            ;
            assert(anxiety_frame(orig, gw, gh, lvl, tm) == orig);
        }
        return ;
    }
    let level: u32 = effects.anxiety_level;
    let time: u64 = effects.time;
    let mut y: u32 = 0;
    while y < h
        invariant
            framebuffer.wf(),
            framebuffer.width == old(framebuffer).width,
            framebuffer.height == old(framebuffer).height,
            framebuffer.background_color == old(framebuffer).background_color,
            framebuffer.current_color == old(framebuffer).current_color,
            w == old(framebuffer).width,
            h == old(framebuffer).height,
            gw == w as int,
            gh == h as int,
            w >= 1,
            h >= 1,
            1 <= level <= 1000,
            lvl == level as int,
            tm == time as int,
            time <= 1_000_000_000_000,
            orig == old(framebuffer).color_buffer@,
            orig.len() == gw * gh,
            0 <= y <= h,
            framebuffer.color_buffer@ == anxiety_upto(orig, gw, gh, lvl, tm, (y as int) * gw),
        decreases h - y,
    {
        let mut x: u32 = 0;
        while x < w
            invariant
                framebuffer.wf(),
                framebuffer.width == old(framebuffer).width,
                framebuffer.height == old(framebuffer).height,
                framebuffer.background_color == old(framebuffer).background_color,
                framebuffer.current_color == old(framebuffer).current_color,
                w == old(framebuffer).width,
                h == old(framebuffer).height,
                gw == w as int,
                gh == h as int,
                w >= 1,
                h >= 1,
                1 <= level <= 1000,
                lvl == level as int,
                tm == time as int,
                time <= 1_000_000_000_000,
                orig == old(framebuffer).color_buffer@,
                orig.len() == gw * gh,
                0 <= y < h,
                0 <= x <= w,
                framebuffer.color_buffer@ == anxiety_upto(
                    orig,
                    gw,
                    gh,
                    lvl,
                    tm,
                    (y as int) * gw + (x as int),
                ),
            decreases w - x,
        {
            let ghost k: int = (y as int) * gw + (x as int);
            proof {
                lemma_pix_idx_bounds(gw, gh, x as int, y as int);
                lemma_anxiety_upto_len(orig, gw, gh, lvl, tm, k);
                assert(k % gw == x as int && k / gw == y as int) by (nonlinear_arith)
                    requires
                        k == (y as int) * gw + (x as int),
                        0 <= x < gw,
                        0 <= y,
                ;
            }
            let op = anxiety_offset_pair(level, time, x, y);
            let ox: i64 = op.0;
            let oy: i64 = op.1;
            let nx0: i64 = (x as i64) + ox;
            let nx: i64 = if nx0 < 0 {
                0
            } else if nx0 > (w as i64) - 1 {
                (w as i64) - 1
            } else {
                nx0
            };
            let ny0: i64 = (y as i64) + oy;
            let ny: i64 = if ny0 < 0 {
                0
            } else if ny0 > (h as i64) - 1 {
                (h as i64) - 1
            } else {
                ny0
            };
            if nx != x as i64 || ny != y as i64 {
                proof {
                    lemma_pix_idx_bounds(gw, gh, nx as int, ny as int);
                }
                let src = framebuffer.get_pixel(nx as u32, ny as u32);
                let cur = framebuffer.get_pixel(x, y);
                let nc = Color {
                    r: (((src.r as u32) + (cur.r as u32)) / 2) as u8,
                    g: (((src.g as u32) + (cur.g as u32)) / 2) as u8,
                    b: (((src.b as u32) + (cur.b as u32)) / 2) as u8,
                    a: cur.a,
                };
                framebuffer.set_pixel_color(x, y, nc);
                proof {
                    assert(framebuffer.color_buffer@ =~= anxiety_upto(
                        orig,
                        gw,
                        gh,
                        lvl,
                        tm,
                        k + 1,
                    ));
                }
            } else {
                proof {
                    assert(framebuffer.color_buffer@ =~= anxiety_upto(
                        orig,
                        gw,
                        gh,
                        lvl,
                        tm,
                        k + 1,
                    ));
                }
            }
            x = x + 1;
        }
        proof {
            assert((y as int + 1) * gw == (y as int) * gw + gw) by (nonlinear_arith);
        }
        y = y + 1;
    }
    proof {
        assert((h as int) * gw == orig.len()) by (nonlinear_arith)
            requires
                orig.len() == gw * gh,
                gh == h as int,
        ;
    }
}

/// The pulsing red intensity of the damage flash, in per-mille: the
/// absolute sine of the time scaled by the damage level.
#[verifier::opaque]
pub open spec fn damage_red(level: int, time: int) -> int {
    (crate::geometry::abs_i(sin_milli_spec(norm_angle_spec(20_000 * time))) * level) / 1000
}

/// The damage flash color of one pixel: red is pushed up by the
/// pulsing intensity, green and blue are dimmed by half of it.
pub open spec fn damage_pixel(level: int, time: int, c: Color) -> Color {
    let red = damage_red(level, time);
    let r2 = c.r + red / 10;
    Color {
        r: (if r2 > 255 {
            255
        } else {
            r2
        }) as u8,
        g: scale_channel_spec(c.g as int, 1000 - red / 2) as u8,
        b: scale_channel_spec(c.b as int, 1000 - red / 2) as u8,
        a: c.a,
    }
}

/// The whole frame under the damage flash.
pub open spec fn damage_frame(s: Seq<Color>, level: int, time: int) -> Seq<Color> {
    Seq::new(s.len(), |k: int| damage_pixel(level, time, s[k]))
}

/// Applies the red damage flash: a sine of the time pulses red into
/// every pixel and dims the other channels. Does nothing at damage
/// level zero.
pub fn apply_damage_effect(framebuffer: &mut Framebuffer, effects: &VisualEffects)
    requires
        old(framebuffer).wf(),
        effects.damage_effect <= 1000,
        effects.time <= 1_000_000_000_000,
    ensures
        final(framebuffer).wf(),
        final(framebuffer).width == old(framebuffer).width,
        final(framebuffer).height == old(framebuffer).height,
        final(framebuffer).background_color == old(framebuffer).background_color,
        final(framebuffer).current_color == old(framebuffer).current_color,
        final(framebuffer).color_buffer@ == if effects.damage_effect > 0 {
            damage_frame(
                old(framebuffer).color_buffer@,
                effects.damage_effect as int,
                effects.time as int,
            )
        } else {
            old(framebuffer).color_buffer@
        },
{
    if effects.damage_effect == 0 {
        return ;
    }
    let w: u32 = framebuffer.width;
    let h: u32 = framebuffer.height;
    let ghost gw: int = w as int;
    let ghost gh: int = h as int;
    let ghost lvl: int = effects.damage_effect as int;
    let ghost tm: int = effects.time as int;
    let ghost target: Seq<Color> = damage_frame(old(framebuffer).color_buffer@, lvl, tm);
    let ph: i64 = norm_angle(20_000 * (effects.time as i64));
    let sv: i64 = sin_milli(ph);
    let sa: u64 = if sv >= 0 {
        sv as u64
    } else {
        (-sv) as u64
    };
    proof {
        assert((sa as int) * (effects.damage_effect as int) <= 1000 * 1000) by (nonlinear_arith)
            requires
                sa <= 1000,
                effects.damage_effect <= 1000,
        ;
    }
    let red: u32 = (sa * (effects.damage_effect as u64) / 1000) as u32;
    proof {
        reveal(damage_red);
        assert(red == damage_red(lvl, tm));
        assert(red <= 1000) by (nonlinear_arith)
            requires
                red == (sa as int) * lvl / 1000,
                sa <= 1000,
                0 <= lvl <= 1000,
        ;
    }
    let mut y: u32 = 0;
    while y < h
        invariant
            framebuffer.wf(),
            framebuffer.width == old(framebuffer).width,
            framebuffer.height == old(framebuffer).height,
            framebuffer.background_color == old(framebuffer).background_color,
            framebuffer.current_color == old(framebuffer).current_color,
            w == old(framebuffer).width,
            h == old(framebuffer).height,
            gw == w as int,
            gh == h as int,
            target == damage_frame(old(framebuffer).color_buffer@, lvl, tm),
            target.len() == framebuffer.color_buffer@.len(),
            red == damage_red(lvl, tm),
            red <= 1000,
            0 <= y <= h,
            forall|k: int|
                0 <= k < framebuffer.color_buffer@.len() ==> #[trigger] framebuffer.color_buffer@[k]
                    == if k < (y as int) * gw {
                    target[k]
                } else {
                    old(framebuffer).color_buffer@[k]
                },
        decreases h - y,
    {
        let mut x: u32 = 0;
        while x < w
            invariant
                framebuffer.wf(),
                framebuffer.width == old(framebuffer).width,
                framebuffer.height == old(framebuffer).height,
                framebuffer.background_color == old(framebuffer).background_color,
                framebuffer.current_color == old(framebuffer).current_color,
                w == old(framebuffer).width,
                h == old(framebuffer).height,
                gw == w as int,
                gh == h as int,
                target == damage_frame(old(framebuffer).color_buffer@, lvl, tm),
                target.len() == framebuffer.color_buffer@.len(),
                red == damage_red(lvl, tm),
                red <= 1000,
                0 <= y < h,
                0 <= x <= w,
                forall|k: int|
                    0 <= k < framebuffer.color_buffer@.len()
                        ==> #[trigger] framebuffer.color_buffer@[k] == if k < (y as int) * gw + (
                    x as int) {
                        target[k]
                    } else {
                        old(framebuffer).color_buffer@[k]
                    },
            decreases w - x,
        {
            proof {
                lemma_pix_idx_bounds(gw, gh, x as int, y as int);
            }
            let c = framebuffer.get_pixel(x, y);
            let r2: u32 = (c.r as u32) + red / 10;
            let nc = Color {
                r: if r2 > 255 {
                    255
                } else {
                    r2 as u8
                },
                g: scale_channel(c.g, 1000 - red / 2),
                b: scale_channel(c.b, 1000 - red / 2),
                a: c.a,
            };
            let ghost pre = framebuffer.color_buffer@;
            framebuffer.set_pixel_color(x, y, nc);
            proof {
                assert(nc == target[pix_idx(gw, x as int, y as int)]);
                assert forall|k: int| 0 <= k < framebuffer.color_buffer@.len() implies
                    #[trigger] framebuffer.color_buffer@[k] == if k < (y as int) * gw + (x as int)
                    + 1 {
                    target[k]
                } else {
                    old(framebuffer).color_buffer@[k]
                } by {
                    if k != pix_idx(gw, x as int, y as int) {
                        assert(framebuffer.color_buffer@[k] == pre[k]);
                    }
                }
            }
            x = x + 1;
        }
        proof {
            assert((y as int + 1) * gw == (y as int) * gw + gw) by (nonlinear_arith);
        }
        y = y + 1;
    }
    proof {
        assert((h as int) * gw == framebuffer.color_buffer@.len()) by (nonlinear_arith)
            requires
                framebuffer.color_buffer@.len() == gw * gh,
                gh == h as int,
        ;
        assert(framebuffer.color_buffer@ =~= target);
    }
}

/// Applies the full post-effect chain in order: fog, flashlight,
/// distortion, damage flash. Each effect reads what the previous ones
/// wrote; no effect sees a pre-effect snapshot.
pub fn render_visual_effects(
    framebuffer: &mut Framebuffer,
    player: &Player,
    effects: &VisualEffects,
)
    requires
        old(framebuffer).wf(),
        effects.flashlight_intensity <= 1000,
        effects.anxiety_level <= 1000,
        effects.damage_effect <= 1000,
        effects.time <= 1_000_000_000_000,
    ensures
        final(framebuffer).wf(),
        final(framebuffer).width == old(framebuffer).width,
        final(framebuffer).height == old(framebuffer).height,
        final(framebuffer).background_color == old(framebuffer).background_color,
        final(framebuffer).current_color == old(framebuffer).current_color,
        ({
            let w = old(framebuffer).width as int;
            let h = old(framebuffer).height as int;
            let s1 = fog_frame(old(framebuffer).color_buffer@, w, h);
            let s2 = if effects.flashlight_enabled {
                flashlight_frame(s1, w, h, effects.flashlight_intensity as int)
            } else {
                s1
            };
            let s3 = if effects.anxiety_level > 0 {
                anxiety_frame(s2, w, h, effects.anxiety_level as int, effects.time as int)
            } else {
                s2
            };
            let s4 = if effects.damage_effect > 0 {
                damage_frame(s3, effects.damage_effect as int, effects.time as int)
            } else {
                s3
            };
            final(framebuffer).color_buffer@ == s4
        }),
{
    apply_fog_effect(framebuffer, effects);
    apply_flashlight_effect(framebuffer, player, effects);
    apply_anxiety_effect(framebuffer, effects);
    apply_damage_effect(framebuffer, effects);
}

} // verus!
