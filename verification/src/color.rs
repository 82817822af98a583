//! RGBA colors as plain bytes, owned by the library so that every pixel
//! the renderer produces can be described exactly in contracts.

use vstd::prelude::*;

verus! {

/// One RGBA pixel, 8 bits per channel.
#[derive(Clone, Copy, PartialEq, Eq, Structural, Debug)]
pub struct Color {
    pub r: u8,
    pub g: u8,
    pub b: u8,
    pub a: u8,
}

impl Color {
    /// Builds a color from its four channels.
    pub fn new(r: u8, g: u8, b: u8, a: u8) -> (c: Color)
        ensures
            c == (Color { r, g, b, a }),
    {
        Color { r, g, b, a }
    }

    /// Opaque black.
    pub fn black() -> (c: Color)
        ensures
            c == (Color { r: 0, g: 0, b: 0, a: 255 }),
    {
        Color { r: 0, g: 0, b: 0, a: 255 }
    }

    /// Opaque white.
    pub fn white() -> (c: Color)
        ensures
            c == (Color { r: 255, g: 255, b: 255, a: 255 }),
    {
        Color { r: 255, g: 255, b: 255, a: 255 }
    }
}

/// `c` scaled by the per-mille factor `f` (`f == 1000` is the identity),
/// rounded down and saturated at 255.
pub open spec fn scale_channel_spec(c: int, f: int) -> int {
    if (c * f) / 1000 > 255 {
        255
    } else {
        (c * f) / 1000
    }
}

/// Scales one 8-bit channel by a per-mille factor, saturating at 255.
pub fn scale_channel(c: u8, f: u32) -> (r: u8)
    requires
        f <= 100_000,
    ensures
        r == scale_channel_spec(c as int, f as int),
{
    assert((c as int) * (f as int) <= 255 * 100_000) by (nonlinear_arith)
        requires
            c <= 255,
            f <= 100_000,
    ;
    let v: u64 = (c as u64) * (f as u64) / 1000;
    if v > 255 {
        255
    } else {
        v as u8
    }
}

/// Blends channel `c` toward channel `t` by the per-mille factor `f`:
/// `f == 0` keeps `c`, `f == 1000` gives `t`.
pub open spec fn mix_channel_spec(c: int, t: int, f: int) -> int {
    (c * (1000 - f) + t * f) / 1000
}

/// Linear blend of one 8-bit channel toward a target channel.
pub fn mix_channel(c: u8, t: u8, f: u32) -> (r: u8)
    requires
        f <= 1000,
    ensures
        r == mix_channel_spec(c as int, t as int, f as int),
        r <= 255,
{
    assert((c as int) * (1000 - f as int) <= 255 * 1000 && (t as int) * (f as int) <= 255 * 1000)
        by (nonlinear_arith)
        requires
            c <= 255,
            t <= 255,
            f <= 1000,
    ;
    let v: u32 = ((c as u32) * (1000 - f) + (t as u32) * f) / 1000;
    assert(v <= 255) by (nonlinear_arith)
        requires
            v == ((c as u32) * (1000 - f) + (t as u32) * f) / 1000,
            c <= 255,
            t <= 255,
            f <= 1000,
    ;
    v as u8
}

} // verus!
