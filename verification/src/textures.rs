//! Texture storage and sampling. Textures are plain pixel grids owned
//! by the library, keyed by the map symbol they decorate; sampling
//! clamps out-of-range coordinates and answers opaque white for tags
//! with no texture, so the renderer never fails mid-frame.

use vstd::prelude::*;

verus! {

use crate::color::Color;
use crate::framebuffer::{lemma_pix_idx_bounds, pix_idx};

/// One loaded image: a rectangular grid of pixels, row-major.
pub struct Texture {
    /// Width in texels.
    pub width: u32,
    /// Height in texels.
    pub height: u32,
    /// The texels, row-major, exactly `width * height` of them.
    pub pixels: Vec<Color>,
}

impl Texture {
    /// Well-formedness: one pixel per texel and workable dimensions.
    pub open spec fn wf(self) -> bool {
        &&& self.pixels.len() == (self.width as int) * (self.height as int)
        &&& 1 <= self.width <= 4096
        &&& 1 <= self.height <= 4096
    }

    /// The texel at `(x, y)`.
    pub open spec fn pix(self, x: int, y: int) -> Color {
        self.pixels[pix_idx(self.width as int, x, y)]
    }

    /// Builds a texture from its dimensions and pixels.
    pub fn new(width: u32, height: u32, pixels: Vec<Color>) -> (t: Texture)
        requires
            1 <= width <= 4096,
            1 <= height <= 4096,
            pixels.len() == (width as int) * (height as int),
        ensures
            t.wf(),
            t.width == width,
            t.height == height,
            t.pixels == pixels,
    {
        Texture { width, height, pixels }
    }
}

/// The texture table: map symbols paired with their images, searched
/// front to back.
pub struct TextureManager {
    /// The symbol-to-texture entries, in lookup order.
    pub entries: Vec<(char, Texture)>,
}

impl TextureManager {
    /// Well-formedness: every stored texture is well-formed.
    pub open spec fn wf(self) -> bool {
        forall|k: int| 0 <= k < self.entries.len() ==> (#[trigger] self.entries[k].1).wf()
    }

    /// Whether `k` is the first entry carrying the tag `ch`.
    pub open spec fn is_first_entry(self, ch: char, k: int) -> bool {
        &&& 0 <= k < self.entries.len()
        &&& self.entries[k].0 == ch
        &&& forall|k2: int| 0 <= k2 < k ==> (#[trigger] self.entries[k2]).0 != ch
    }

    /// Whether some entry carries the tag `ch`.
    pub open spec fn has_tag(self, ch: char) -> bool {
        exists|k: int| #[trigger] self.is_first_entry(ch, k)
    }

    /// The index of the entry that serves the tag `ch`.
    pub open spec fn tag_index(self, ch: char) -> int {
        choose|k: int| self.is_first_entry(ch, k)
    }

    /// The texture serving the tag `ch`.
    pub open spec fn texture_for(self, ch: char) -> Texture {
        self.entries[self.tag_index(ch)].1
    }

    /// The color sampling `(tx, ty)` of the texture for `ch` yields:
    /// coordinates clamp to the image, and tags with no texture sample
    /// as opaque white. A pure function of the manager, tag and
    /// coordinates, so re-sampling the same triple gives the same
    /// color.
    pub open spec fn sample_spec(self, ch: char, tx: int, ty: int) -> Color {
        if self.has_tag(ch) {
            let t = self.texture_for(ch);
            let x = if tx >= t.width {
                t.width - 1
            } else {
                tx
            };
            let y = if ty >= t.height {
                t.height - 1
            } else {
                ty
            };
            t.pix(x, y)
        } else {
            Color { r: 255, g: 255, b: 255, a: 255 }
        }
    }

    /// Builds the table from its entries.
    pub fn new(entries: Vec<(char, Texture)>) -> (tm: TextureManager)
        requires
            forall|k: int| 0 <= k < entries.len() ==> (#[trigger] entries[k].1).wf(),
        ensures
            tm.wf(),
            tm.entries == entries,
    {
        TextureManager { entries }
    }

    /// Looks up the first entry for `ch`, if any.
    fn find(&self, ch: char) -> (r: Option<usize>)
        ensures
            match r {
                Some(k) => self.is_first_entry(ch, k as int) && self.has_tag(ch) && k as int
                    == self.tag_index(ch),
                None => !self.has_tag(ch),
            },
    {
        let n = self.entries.len();
        let mut k: usize = 0;
        while k < n
            invariant
                n == self.entries.len(),
                0 <= k <= n,
                forall|k2: int| 0 <= k2 < k ==> (#[trigger] self.entries[k2]).0 != ch,
            decreases n - k,
        {
            if self.entries[k].0 == ch {
                proof {
                    assert(self.is_first_entry(ch, k as int));
                    let k0 = self.tag_index(ch);
                    assert(self.is_first_entry(ch, k0));
                    if k0 < k as int {
                        assert(self.entries[k0].0 != ch);
                    }
                    if (k as int) < k0 {
                        assert(self.entries[k as int].0 != ch);
                    }
                }
                return Some(k);
            }
            k = k + 1;
        }
        proof {
            if self.has_tag(ch) {
                let k0 = choose|k0: int| self.is_first_entry(ch, k0);
                assert(self.entries[k0].0 != ch);
            }
        }
        None
    }

    /// Returns the texture for `ch`, if one is stored.
    pub fn get_texture(&self, ch: char) -> (r: Option<&Texture>)
        ensures
            match r {
                Some(t) => self.has_tag(ch) && *t == self.texture_for(ch),
                None => !self.has_tag(ch),
            },
    {
        match self.find(ch) {
            Some(k) => Some(&self.entries[k].1),
            None => None,
        }
    }

    /// Returns the dimensions of the texture for `ch`, if one is stored.
    pub fn get_texture_dimensions(&self, ch: char) -> (r: Option<(u32, u32)>)
        ensures
            match r {
                Some(d) => self.has_tag(ch) && d.0 == self.texture_for(ch).width && d.1
                    == self.texture_for(ch).height,
                None => !self.has_tag(ch),
            },
    {
        match self.find(ch) {
            Some(k) => {
                let t = &self.entries[k].1;
                Some((t.width, t.height))
            },
            None => None,
        }
    }

    /// Samples the texture for `ch` at `(tx, ty)`: out-of-range
    /// coordinates clamp to the edge, unmapped tags sample opaque
    /// white. The result is a function of the arguments alone.
    pub fn get_pixel_color(&self, ch: char, tx: u32, ty: u32) -> (c: Color)
        requires
            self.wf(),
        ensures
            c == self.sample_spec(ch, tx as int, ty as int),
    {
        match self.find(ch) {
            Some(k) => {
                let t = &self.entries[k].1;
                let x: u32 = if tx >= t.width { t.width - 1 } else { tx };
                let y: u32 = if ty >= t.height { t.height - 1 } else { ty };
                proof {
                    lemma_pix_idx_bounds(t.width as int, t.height as int, x as int, y as int);
                }
                let i: usize = (y as usize) * (t.width as usize) + (x as usize);
                t.pixels[i]
            },
            None => Color::white(),
        }
    }
}

} // verus!
