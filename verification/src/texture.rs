//! Image textures as a grid of texels, and how a lookup is confined to it.
use vstd::prelude::*;
use crate::output::Rgb8;
use crate::utils::Clamp;

verus! {

/// The texel that a scaled texture coordinate falls on: column `column`
/// and row `row`, each confined to the image.
pub open spec fn spec_texel(column: u32, row: u32, width: u32, height: u32) -> (u32, u32) {
    (column.spec_clamp(0, (width - 1) as u32), row.spec_clamp(0, (height - 1) as u32))
}

/// Confines a scaled texture coordinate to the texels of a
/// `width * height` image, so that the lookup never leaves it.
pub fn texel(column: u32, row: u32, width: u32, height: u32) -> (t: (u32, u32))
    requires
        width > 0,
        height > 0,
    ensures
        t == spec_texel(column, row, width, height),
        t.0 < width,
        t.1 < height,
{
    (Clamp::clamp(&column, 0, width - 1), Clamp::clamp(&row, 0, height - 1))
}

/// A decoded image: `width * height` texels in rows, the top row first.
#[derive(Debug, Clone)]
pub struct TexelGrid {
    pub width: u32,
    pub height: u32,
    pub pixels: Vec<Rgb8>,
}

impl TexelGrid {
    /// Whether the image has texels, and as many as its size says.
    pub open spec fn wf(&self) -> bool {
        &&& self.width > 0
        &&& self.height > 0
        &&& self.pixels@.len() == self.width * self.height
    }

    /// The texel nearest to the scaled coordinate: the one in the column
    /// and row that `spec_texel` confines it to.
    pub open spec fn spec_lookup(&self, column: u32, row: u32) -> Rgb8 {
        let t = spec_texel(column, row, self.width, self.height);
        self.pixels@[t.1 * self.width + t.0]
    }

    /// Takes a decoded image. `None` exactly when the image is empty or
    /// the number of texels does not fit its size.
    pub fn new(width: u32, height: u32, pixels: Vec<Rgb8>) -> (g: Option<TexelGrid>)
        ensures
            g is Some <==> width > 0 && height > 0 && pixels@.len() == width * height,
            g matches Some(grid) ==> grid.wf() && grid.width == width && grid.height == height
                && grid.pixels@ == pixels@,
    {
        proof {
            assert(width * height <= 0xffff_ffff * 0xffff_ffff) by (nonlinear_arith)
                requires
                    0 <= width <= 0xffff_ffff,
                    0 <= height <= 0xffff_ffff,
            ;
        }
        let count: u64 = (width as u64) * (height as u64);
        if width > 0 && height > 0 && pixels.len() as u64 == count {
            Some(TexelGrid { width, height, pixels })
        } else {
            None
        }
    }

    /// Looks up the texel for a scaled coordinate, clamped to the image.
    pub fn lookup(&self, column: u32, row: u32) -> (p: Rgb8)
        requires
            self.wf(),
        ensures
            p == self.spec_lookup(column, row),
    {
        let (i, j) = texel(column, row, self.width, self.height);
        proof {
            assert(0 <= j * self.width && j * self.width + i < self.width * self.height)
                by (nonlinear_arith)
                requires
                    0 <= i < self.width,
                    0 <= j < self.height,
            ;
            assert(j * self.width <= 0xffff_ffff * 0xffff_ffff) by (nonlinear_arith)
                requires
                    0 <= j <= 0xffff_ffff,
                    0 <= self.width <= 0xffff_ffff,
            ;
        }
        let index: u64 = (j as u64) * (self.width as u64) + (i as u64);
        assert(index < self.pixels.len());
        self.pixels[index as usize]
    }
}

} // verus!
