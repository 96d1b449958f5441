//! Textures: sampleable 2D color surfaces with normalized, clamped lookup,
//! and the per-tile texture table. Decoding image files happens outside the
//! engine; the engine only consumes width, height and texels.

use vstd::prelude::*;
use crate::fixed::FP_ONE;

verus! {

/// One opaque color.
#[derive(Copy, Debug, PartialEq, Eq, Structural)]
pub struct Rgb {
    pub r: u8,
    pub g: u8,
    pub b: u8,
}

impl Clone for Rgb {
    fn clone(&self) -> (r: Self)
        ensures
            r == *self,
    {
        *self
    }
}

/// A texture: row-major texels, `width * height` of them.
#[derive(Debug)]
pub struct ImageTexture {
    pub data: Vec<Rgb>,
    pub width: usize,
    pub height: usize,
}

/// Two textures hold the same picture: equal dimensions and texels.
pub open spec fn tex_view_eq(a: ImageTexture, b: ImageTexture) -> bool {
    a.width == b.width && a.height == b.height && a.data@ == b.data@
}

impl Clone for ImageTexture {
    fn clone(&self) -> (r: Self)
        ensures
            tex_view_eq(r, *self),
    {
        let data = self.data.clone();
        proof {
            assert(data@ =~= self.data@);
        }
        ImageTexture { data, width: self.width, height: self.height }
    }
}

impl ImageTexture {
    /// Well-formed: non-empty and densely filled.
    pub open spec fn wf(&self) -> bool {
        &&& 0 < self.width <= 0x8000
        &&& 0 < self.height <= 0x8000
        &&& self.data@.len() == self.width * self.height
    }

    /// The texel at integer coordinates (x, y).
    pub open spec fn spec_texel(&self, x: int, y: int) -> Rgb {
        self.data@[y * self.width + x]
    }

    /// Map a normalized fixed-point coordinate to a texel index along one
    /// axis: clamp to [0, 1], scale to the last index, truncate.
    pub open spec fn spec_sample_index(t: int, dim: int) -> int {
        let c = if t < 0 { 0int } else if t > FP_ONE { FP_ONE as int } else { t };
        let i = c * (dim - 1) / (FP_ONE as int);
        if i < dim - 1 { i } else { dim - 1 }
    }

    /// The color of normalized coordinates (tex_x, tex_y), clamped at the
    /// edges.
    pub open spec fn spec_color_at(&self, tex_x: int, tex_y: int) -> Rgb {
        self.spec_texel(Self::spec_sample_index(tex_x, self.width as int),
            Self::spec_sample_index(tex_y, self.height as int))
    }

    /// Build a texture from row-major texels; rejects a texel count that
    /// does not match the dimensions.
    pub fn new(width: usize, height: usize, data: Vec<Rgb>) -> (r: Option<ImageTexture>)
        ensures
            match r {
                Some(t) => t.wf() && t.width == width && t.height == height
                    && t.data == data,
                None => !(0 < width <= 0x8000 && 0 < height <= 0x8000
                    && data@.len() == width * height),
            },
    {
        if width == 0 || width > 0x8000 || height == 0 || height > 0x8000 {
            return None;
        }
        proof {
            assert(width * height <= 0x8000 * 0x8000) by (nonlinear_arith)
                requires 0 < width <= 0x8000, 0 < height <= 0x8000;
        }
        if data.len() != width * height {
            return None;
        }
        Some(ImageTexture { data, width, height })
    }

    /// Sample the texture at normalized fixed-point coordinates, clamping
    /// both axes to the edges.
    pub fn get_color(&self, tex_x: i64, tex_y: i64) -> (c: Rgb)
        requires
            self.wf(),
        ensures
            c == self.spec_color_at(tex_x as int, tex_y as int),
    {
        let cx: i64 = if tex_x < 0 { 0 } else if tex_x > FP_ONE { FP_ONE } else { tex_x };
        let cy: i64 = if tex_y < 0 { 0 } else if tex_y > FP_ONE { FP_ONE } else { tex_y };
        proof {
            assert(0 <= (cx as int) * (self.width - 1) <= 1024 * 0x8000)
                by (nonlinear_arith)
                requires 0 <= cx as int <= 1024, 0 < self.width <= 0x8000;
            assert((cx as int) * (self.width - 1) / 1024 <= self.width - 1)
                by (nonlinear_arith)
                requires 0 <= cx as int <= 1024, 0 < self.width <= 0x8000;
            assert(0 <= (cy as int) * (self.height - 1) <= 1024 * 0x8000)
                by (nonlinear_arith)
                requires 0 <= cy as int <= 1024, 0 < self.height <= 0x8000;
            assert((cy as int) * (self.height - 1) / 1024 <= self.height - 1)
                by (nonlinear_arith)
                requires 0 <= cy as int <= 1024, 0 < self.height <= 0x8000;
        }
        let sx: u64 = (cx as u64) * ((self.width - 1) as u64) / 1024;
        let sy: u64 = (cy as u64) * ((self.height - 1) as u64) / 1024;
        let ix: usize = if (sx as usize) < self.width - 1 { sx as usize } else {
            self.width - 1
        };
        let iy: usize = if (sy as usize) < self.height - 1 { sy as usize } else {
            self.height - 1
        };
        proof {
            assert((iy as int) * self.width + ix < self.width * self.height
                && self.width * self.height <= 0x8000 * 0x8000)
                by (nonlinear_arith)
                requires
                    0 <= ix < self.width,
                    0 <= iy < self.height,
                    0 < self.width <= 0x8000,
                    0 < self.height <= 0x8000;
        }
        self.data[iy * self.width + ix]
    }
}

/// The per-tile texture table: one texture per tile family, built once at
/// load time.
pub struct TextureManager {
    pub wall_texture: ImageTexture,
    pub floor_texture: ImageTexture,
    pub ceiling_texture: ImageTexture,
    pub exit_texture: ImageTexture,
}

/// The texture the renderer samples for a wall tile tag: the exit door has
/// its own art, every wall variant shares the wall texture.
pub open spec fn spec_texture_for(tm: &TextureManager, wall_char: char) -> ImageTexture {
    if wall_char == 'E' { tm.exit_texture } else { tm.wall_texture }
}

impl TextureManager {
    /// All four textures are well-formed.
    pub open spec fn wf(&self) -> bool {
        &&& self.wall_texture.wf()
        &&& self.floor_texture.wf()
        &&& self.ceiling_texture.wf()
        &&& self.exit_texture.wf()
    }

    /// Assemble the table from already-loaded textures.
    pub fn new(wall_texture: ImageTexture, floor_texture: ImageTexture,
        ceiling_texture: ImageTexture, exit_texture: ImageTexture) -> (r: Self)
        ensures
            r.wall_texture == wall_texture,
            r.floor_texture == floor_texture,
            r.ceiling_texture == ceiling_texture,
            r.exit_texture == exit_texture,
    {
        Self { wall_texture, floor_texture, ceiling_texture, exit_texture }
    }

    /// Look up the texture for a tile tag.
    pub fn get_texture(&self, wall_char: char) -> (r: &ImageTexture)
        ensures
            *r == spec_texture_for(self, wall_char),
    {
        match wall_char {
            'E' => &self.exit_texture,
            '+' | '-' | '|' => &self.wall_texture,
            '1' => &self.wall_texture,
            '2' => &self.wall_texture,
            '3' => &self.wall_texture,
            _ => &self.wall_texture,
        }
    }
}

} // verus!
