//! The frame buffer: a dense pixel surface the renderer draws into, with a
//! current draw color in the style of an immediate-mode canvas. Presenting
//! the buffer on screen happens outside the engine.

use vstd::prelude::*;
use crate::texture::Rgb;

verus! {

/// A pixel surface of `width * height` colors, row-major, plus the current
/// draw color and the background color used by `clear`.
pub struct Framebuffer {
    pub width: u32,
    pub height: u32,
    pub data: Vec<Rgb>,
    pub background_color: Rgb,
    pub current_color: Rgb,
}

impl Framebuffer {
    /// Well-formed: the pixel vector densely covers the surface.
    pub open spec fn wf(&self) -> bool {
        &&& self.width <= 0x8000
        &&& self.height <= 0x8000
        &&& self.data@.len() == self.width * self.height
    }

    /// The pixel at (x, y).
    pub open spec fn spec_pixel(&self, x: int, y: int) -> Rgb {
        self.data@[y * self.width + x]
    }

    /// A fresh buffer, every pixel black.
    pub fn new(width: u32, height: u32) -> (r: Self)
        requires
            width <= 0x8000,
            height <= 0x8000,
        ensures
            r.wf(),
            r.width == width,
            r.height == height,
            forall|i: int| 0 <= i < r.data@.len()
                ==> #[trigger] r.data@[i] == (Rgb { r: 0, g: 0, b: 0 }),
            r.background_color == (Rgb { r: 0, g: 0, b: 0 }),
            r.current_color == (Rgb { r: 0, g: 0, b: 0 }),
    {
        let black = Rgb { r: 0, g: 0, b: 0 };
        proof {
            assert(width * height <= 0x8000 * 0x8000) by (nonlinear_arith)
                requires width <= 0x8000, height <= 0x8000;
        }
        let total: usize = (width as usize) * (height as usize);
        let mut data: Vec<Rgb> = Vec::new();
        let mut i: usize = 0;
        while i < total
            invariant
                i <= total,
                data@.len() == i,
                black == (Rgb { r: 0, g: 0, b: 0 }),
                forall|k: int| 0 <= k < i ==> #[trigger] data@[k] == black,
            decreases total - i,
        {
            data.push(black);
            i = i + 1;
        }
        Framebuffer {
            width,
            height,
            data,
            background_color: black,
            current_color: black,
        }
    }

    pub fn set_background_color(&mut self, color: Rgb)
        ensures
            *final(self) == (Framebuffer { background_color: color, ..*old(self) }),
    {
        self.background_color = color;
    }

    pub fn set_current_color(&mut self, color: Rgb)
        ensures
            *final(self) == (Framebuffer { current_color: color, ..*old(self) }),
    {
        self.current_color = color;
    }

    /// Paint the pixel at (x, y) with the current color; writes outside the
    /// surface are ignored.
    pub fn set_pixel(&mut self, x: u32, y: u32)
        requires
            old(self).wf(),
        ensures
            final(self).wf(),
            final(self).width == old(self).width,
            final(self).height == old(self).height,
            final(self).background_color == old(self).background_color,
            final(self).current_color == old(self).current_color,
            x < old(self).width && y < old(self).height
                ==> final(self).data@ == old(self).data@.update(
                    y as int * old(self).width + x, old(self).current_color),
            !(x < old(self).width && y < old(self).height)
                ==> final(self).data@ == old(self).data@,
    {
        if x < self.width && y < self.height {
            proof {
                assert((y as int) * self.width + x < self.width * self.height
                    && self.width * self.height <= 0x8000 * 0x8000)
                    by (nonlinear_arith)
                    requires
                        0 <= x < self.width,
                        0 <= y < self.height,
                        self.width <= 0x8000,
                        self.height <= 0x8000;
            }
            let idx: usize = (y as usize) * (self.width as usize) + (x as usize);
            let c = self.current_color;
            self.data.set(idx, c);
        }
    }

    /// Fill the whole surface with the background color.
    pub fn clear(&mut self)
        requires
            old(self).wf(),
        ensures
            final(self).wf(),
            final(self).width == old(self).width,
            final(self).height == old(self).height,
            final(self).background_color == old(self).background_color,
            final(self).current_color == old(self).current_color,
            final(self).data@.len() == old(self).data@.len(),
            forall|i: int| 0 <= i < final(self).data@.len()
                ==> #[trigger] final(self).data@[i] == old(self).background_color,
    {
        let total: usize = self.data.len();
        let bg = self.background_color;
        let mut i: usize = 0;
        while i < total
            invariant
                i <= total,
                self.data@.len() == total,
                self.width == old(self).width,
                self.height == old(self).height,
                self.background_color == old(self).background_color,
                self.current_color == old(self).current_color,
                bg == old(self).background_color,
                old(self).wf(),
                total == old(self).data@.len(),
                forall|k: int| 0 <= k < i ==> #[trigger] self.data@[k] == bg,
            decreases total - i,
        {
            self.data.set(i, bg);
            i = i + 1;
        }
    }
}

} // verus!
