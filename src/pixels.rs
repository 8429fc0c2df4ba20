//! Pixel grids and rectangles.
use vstd::prelude::*;
use vstd::arithmetic::div_mod::{lemma_fundamental_div_mod_converse};
use crate::color::Color;

verus! {

/// An axis-aligned rectangle in pixel coordinates.
#[derive(Clone, Copy, Debug, PartialEq, Eq, Structural)]
pub struct Rect {
    pub x: u32,
    pub y: u32,
    pub width: u32,
    pub height: u32,
}

/// A row-major grid of colors: pixel `(x, y)` sits at `y * width + x`.
#[derive(Clone, Debug, PartialEq, Eq)]
pub struct PixelGrid {
    pub width: u32,
    pub height: u32,
    pub pixels: Vec<Color>,
}

/// The row-major sequence of `width * height` values `f(x, y)`.
pub open spec fn grid_of(width: nat, height: nat, f: spec_fn(int, int) -> Color) -> Seq<Color> {
    Seq::new(width * height, |k: int| f(k % (width as int), k / (width as int)))
}

/// Index arithmetic of row-major grids.
pub proof fn lemma_grid_index(x: int, y: int, width: int, height: int)
    requires
        0 <= x < width,
        0 <= y < height,
    ensures
        0 <= y * width + x < width * height,
        (y * width + x) % width == x,
        (y * width + x) / width == y,
        y * width <= (height - 1) * width,
{
    assert(0 <= y * width + x < width * height && y * width <= (height - 1) * width)
        by (nonlinear_arith)
        requires
            0 <= x < width,
            0 <= y < height,
    ;
    lemma_fundamental_div_mod_converse(y * width + x, width, y, x);
}

impl PixelGrid {
    /// The pixel buffer holds exactly one color per cell.
    pub open spec fn wf(&self) -> bool {
        self.pixels@.len() == self.width * self.height
    }

    /// The color at `(x, y)`.
    pub open spec fn pixel(&self, x: int, y: int) -> Color {
        self.pixels@[y * self.width + x]
    }

    /// A grid of `width * height` transparent black pixels.
    pub fn new(width: u32, height: u32) -> (g: PixelGrid)
        requires
            width * height <= usize::MAX,
        ensures
            g.wf(),
            g.width == width,
            g.height == height,
            forall|i: int| 0 <= i < g.pixels@.len() ==> g.pixels@[i] == (Color { r: 0, g: 0, b: 0, a: 0 }),
    {
        let n: usize = width as usize * height as usize;
        let mut pixels: Vec<Color> = Vec::new();
        let mut i: usize = 0;
        while i < n
            invariant
                i <= n,
                pixels@.len() == i,
                forall|j: int| 0 <= j < i ==> pixels@[j] == (Color { r: 0, g: 0, b: 0, a: 0 }),
            decreases n - i,
        {
            pixels.push(Color { r: 0, g: 0, b: 0, a: 0 });
            i = i + 1;
        }
        PixelGrid { width, height, pixels }
    }

    /// A grid from its row-major pixels, if their number fits the size.
    pub fn from_pixels(width: u32, height: u32, pixels: Vec<Color>) -> (g: Option<PixelGrid>)
        ensures
            g is Some <==> pixels@.len() == width * height,
            g matches Some(grid) ==> grid.width == width && grid.height == height && grid.pixels@
                == pixels@,
    {
        assert((width as u64) * (height as u64) <= u64::MAX) by (nonlinear_arith);
        if (pixels.len() as u64) == (width as u64) * (height as u64) {
            Some(PixelGrid { width, height, pixels })
        } else {
            None
        }
    }

    /// The color at `(x, y)`.
    pub fn get_pixel(&self, x: u32, y: u32) -> (c: Color)
        requires
            self.wf(),
            x < self.width,
            y < self.height,
        ensures
            c == self.pixel(x as int, y as int),
    {
        proof {
            lemma_grid_index(x as int, y as int, self.width as int, self.height as int);
            assert(self.pixels@.len() == self.pixels.len());
        }
        self.pixels[y as usize * self.width as usize + x as usize]
    }

    /// Sets the color at `(x, y)`; every other pixel keeps its color.
    pub fn put_pixel(&mut self, x: u32, y: u32, c: Color)
        requires
            old(self).wf(),
            x < old(self).width,
            y < old(self).height,
        ensures
            final(self).wf(),
            final(self).width == old(self).width,
            final(self).height == old(self).height,
            final(self).pixels@ == old(self).pixels@.update(y * old(self).width + x, c),
    {
        proof {
            lemma_grid_index(x as int, y as int, self.width as int, self.height as int);
            assert(self.pixels@.len() == self.pixels.len());
        }
        let k: usize = y as usize * self.width as usize + x as usize;
        self.pixels.set(k, c);
    }
}

} // verus!
