//! An owned RGBA pixel buffer. Out-of-range pixel writes and reads are
//! silently dropped or answered with black, so the per-pixel hot loops of
//! the renderer never branch into error paths.

use vstd::prelude::*;

verus! {

use crate::color::Color;

/// A width-by-height grid of pixels stored row-major, together with the
/// current drawing color and the background color used by `clear`.
pub struct Framebuffer {
    pub width: u32,
    pub height: u32,
    pub background_color: Color,
    pub current_color: Color,
    pub color_buffer: Vec<Color>,
}

/// Row-major index of the pixel at `(x, y)` in a buffer `w` pixels wide.
pub open spec fn pix_idx(w: int, x: int, y: int) -> int {
    y * w + x
}

/// Two in-range coordinate pairs with the same row-major index are equal.
pub proof fn lemma_pix_idx_injective(w: int, x1: int, y1: int, x2: int, y2: int)
    by (nonlinear_arith)
    requires
        0 <= x1 < w,
        0 <= x2 < w,
        0 <= y1,
        0 <= y2,
        pix_idx(w, x1, y1) == pix_idx(w, x2, y2),
    ensures
        x1 == x2 && y1 == y2,
{
}

/// The row-major index of an in-range pixel is within the buffer.
pub proof fn lemma_pix_idx_bounds(w: int, h: int, x: int, y: int)
    by (nonlinear_arith)
    requires
        0 <= x < w,
        0 <= y < h,
    ensures
        0 <= pix_idx(w, x, y) < w * h,
{
}

impl Framebuffer {
    /// Structural well-formedness: the buffer holds exactly one color per
    /// pixel, and the dimensions are small enough for index arithmetic.
    pub open spec fn wf(self) -> bool {
        &&& self.color_buffer.len() == (self.width as int) * (self.height as int)
        &&& self.width <= 32768
        &&& self.height <= 32768
    }

    /// Whether `(x, y)` addresses a pixel of this buffer.
    pub open spec fn in_bounds(self, x: int, y: int) -> bool {
        0 <= x < self.width && 0 <= y < self.height
    }

    /// The color of the pixel at `(x, y)`.
    pub open spec fn pix(self, x: int, y: int) -> Color {
        self.color_buffer[pix_idx(self.width as int, x, y)]
    }

    /// Creates a buffer with every pixel set to `background_color`.
    pub fn new(width: u32, height: u32, background_color: Color) -> (fb: Framebuffer)
        requires
            width <= 32768,
            height <= 32768,
        ensures
            fb.wf(),
            fb.width == width,
            fb.height == height,
            fb.background_color == background_color,
            fb.current_color == (Color { r: 255, g: 255, b: 255, a: 255 }),
            forall|x: int, y: int| fb.in_bounds(x, y) ==> fb.pix(x, y) == background_color,
    {
        proof {
            assert((width as int) * (height as int) <= 32768 * 32768) by (nonlinear_arith)
                requires
                    width <= 32768,
                    height <= 32768,
            ;
        }
        let n: usize = (width as usize) * (height as usize);
        let color_buffer: Vec<Color> = vec![background_color; n];
        let fb = Framebuffer {
            width,
            height,
            background_color,
            current_color: Color::white(),
            color_buffer,
        };
        proof {
            assert forall|x: int, y: int| fb.in_bounds(x, y) implies fb.pix(x, y)
                == background_color by {
                lemma_pix_idx_bounds(width as int, height as int, x, y);
            }
        }
        fb
    }

    /// Resets every pixel to the background color.
    pub fn clear(&mut self)
        requires
            old(self).wf(),
        ensures
            final(self).wf(),
            final(self).width == old(self).width,
            final(self).height == old(self).height,
            final(self).background_color == old(self).background_color,
            final(self).current_color == old(self).current_color,
            forall|x: int, y: int| final(self).in_bounds(x, y) ==> final(self).pix(x, y)
                == final(self).background_color,
    {
        let n: usize = (self.width as usize) * (self.height as usize);
        self.color_buffer = vec![self.background_color; n];
        proof {
            assert forall|x: int, y: int| self.in_bounds(x, y) implies self.pix(x, y)
                == self.background_color by {
                lemma_pix_idx_bounds(self.width as int, self.height as int, x, y);
            }
        }
    }

    /// Paints the pixel at `(x, y)` with the current color; out-of-range
    /// coordinates are ignored.
    pub fn set_pixel(&mut self, x: u32, y: u32)
        requires
            old(self).wf(),
        ensures
            final(self).wf(),
            final(self).width == old(self).width,
            final(self).height == old(self).height,
            final(self).background_color == old(self).background_color,
            final(self).current_color == old(self).current_color,
            final(self).color_buffer@ == if old(self).in_bounds(x as int, y as int) {
                old(self).color_buffer@.update(
                    pix_idx(old(self).width as int, x as int, y as int),
                    old(self).current_color,
                )
            } else {
                old(self).color_buffer@
            },
    {
        if x < self.width && y < self.height {
            proof {
                lemma_pix_idx_bounds(self.width as int, self.height as int, x as int, y as int);
            }
            let i: usize = (y as usize) * (self.width as usize) + (x as usize);
            let c = self.current_color;
            self.color_buffer[i] = c;
        }
    }

    /// Paints the pixel at `(x, y)` with the given color; out-of-range
    /// coordinates are ignored.
    pub fn set_pixel_color(&mut self, x: u32, y: u32, color: Color)
        requires
            old(self).wf(),
        ensures
            final(self).wf(),
            final(self).width == old(self).width,
            final(self).height == old(self).height,
            final(self).background_color == old(self).background_color,
            final(self).current_color == old(self).current_color,
            final(self).color_buffer@ == if old(self).in_bounds(x as int, y as int) {
                old(self).color_buffer@.update(
                    pix_idx(old(self).width as int, x as int, y as int),
                    color,
                )
            } else {
                old(self).color_buffer@
            },
    {
        if x < self.width && y < self.height {
            proof {
                lemma_pix_idx_bounds(self.width as int, self.height as int, x as int, y as int);
            }
            let i: usize = (y as usize) * (self.width as usize) + (x as usize);
            self.color_buffer[i] = color;
        }
    }

    /// Changes the background color used by later calls to `clear`.
    pub fn set_background_color(&mut self, color: Color)
        requires
            old(self).wf(),
        ensures
            final(self).wf(),
            *final(self) == (Framebuffer { background_color: color, ..*old(self) }),
    {
        self.background_color = color;
    }

    /// Changes the color used by later calls to `set_pixel`.
    pub fn set_current_color(&mut self, color: Color)
        requires
            old(self).wf(),
        ensures
            final(self).wf(),
            *final(self) == (Framebuffer { current_color: color, ..*old(self) }),
    {
        self.current_color = color;
    }

    /// Reads the pixel at `(x, y)`; out-of-range reads answer opaque black.
    pub fn get_pixel(&self, x: u32, y: u32) -> (c: Color)
        requires
            self.wf(),
        ensures
            c == if self.in_bounds(x as int, y as int) {
                self.pix(x as int, y as int)
            } else {
                Color { r: 0, g: 0, b: 0, a: 255 }
            },
    {
        if x < self.width && y < self.height {
            proof {
                lemma_pix_idx_bounds(self.width as int, self.height as int, x as int, y as int);
            }
            let i: usize = (y as usize) * (self.width as usize) + (x as usize);
            self.color_buffer[i]
        } else {
            Color::black()
        }
    }

    /// Fills the axis-aligned rectangle with corner `(x, y)` and the given
    /// extent with the current color, clipped to the buffer.
    pub fn draw_rectangle(&mut self, x: u32, y: u32, width: u32, height: u32)
        requires
            old(self).wf(),
            x + width <= u32::MAX,
            y + height <= u32::MAX,
        ensures
            final(self).wf(),
            final(self).width == old(self).width,
            final(self).height == old(self).height,
            final(self).background_color == old(self).background_color,
            final(self).current_color == old(self).current_color,
            forall|px: int, py: int| final(self).in_bounds(px, py) ==> #[trigger] final(self).pix(
                px,
                py,
            ) == if x <= px < x + width && y <= py < y + height {
                final(self).current_color
            } else {
                old(self).pix(px, py)
            },
    {
        let end_x: u32 = if x + width < self.width { x + width } else { self.width };
        let end_y: u32 = if y + height < self.height { y + height } else { self.height };
        let mut py: u32 = y;
        while py < end_y
            invariant
                self.wf(),
                self.width == old(self).width,
                self.height == old(self).height,
                self.background_color == old(self).background_color,
                self.current_color == old(self).current_color,
                y <= py <= end_y || py == y,
                end_x == if x + width < self.width { x + width } else { self.width as int },
                end_y == if y + height < self.height { y + height } else { self.height as int },
                forall|qx: int, qy: int| self.in_bounds(qx, qy) ==> #[trigger] self.pix(qx, qy)
                    == if x <= qx < end_x && y <= qy < py {
                        self.current_color
                    } else {
                        old(self).pix(qx, qy)
                    },
            decreases end_y - py,
        {
            let mut px: u32 = x;
            while px < end_x
                invariant
                    self.wf(),
                    self.width == old(self).width,
                    self.height == old(self).height,
                    self.background_color == old(self).background_color,
                    self.current_color == old(self).current_color,
                    x <= px <= end_x || px == x,
                    py < end_y,
                    end_x == if x + width < self.width { x + width } else { self.width as int },
                    end_y == if y + height < self.height {
                        y + height
                    } else {
                        self.height as int
                    },
                    forall|qx: int, qy: int| self.in_bounds(qx, qy) ==> #[trigger] self.pix(qx, qy)
                        == if x <= qx < end_x && y <= qy < py || qy == py && x <= qx < px {
                            self.current_color
                        } else {
                            old(self).pix(qx, qy)
                        },
                decreases end_x - px,
            {
                let ghost pre = *self;
                self.set_pixel(px, py);
                proof {
                    lemma_pix_idx_bounds(
                        self.width as int,
                        self.height as int,
                        px as int,
                        py as int,
                    );
                    assert forall|qx: int, qy: int| self.in_bounds(qx, qy) implies #[trigger] self
                        .pix(qx, qy) == if x <= qx < end_x && y <= qy < py || qy == py && x <= qx
                        < px + 1 {
                        self.current_color
                    } else {
                        old(self).pix(qx, qy)
                    } by {
                        lemma_pix_idx_bounds(self.width as int, self.height as int, qx, qy);
                        if pix_idx(self.width as int, qx, qy) == pix_idx(
                            self.width as int,
                            px as int,
                            py as int,
                        ) {
                            lemma_pix_idx_injective(
                                self.width as int,
                                qx,
                                qy,
                                px as int,
                                py as int,
                            );
                            assert(self.pix(qx, qy) == pre.current_color);
                        } else {
                            assert(self.pix(qx, qy) == pre.pix(qx, qy));
                        }
                    }
                }
                px = px + 1;
            }
            py = py + 1;
        }
    }
}

} // verus!
