use vstd::prelude::*;

verus! {

use crate::color::Color;

/// Row-major pixel addressing: the cell (x, y) of a grid `width` wide lives
/// at offset `y * width + x`, which stays inside the grid.
pub proof fn lemma_row_major_index(x: int, y: int, width: int, height: int)
    requires
        0 <= x < width,
        0 <= y < height,
    ensures
        0 <= y * width + x < width * height,
{
    assert(0 <= y * width + x < width * height) by (nonlinear_arith)
        requires
            0 <= x < width,
            0 <= y < height,
    ;
}

/// Row-major addressing is injective: distinct cells of the grid occupy
/// distinct offsets.
pub proof fn lemma_row_major_injective(x1: int, y1: int, x2: int, y2: int, width: int)
    requires
        0 <= x1 < width,
        0 <= x2 < width,
        0 <= y1,
        0 <= y2,
        y1 * width + x1 == y2 * width + x2,
    ensures
        x1 == x2,
        y1 == y2,
{
    assert(y1 == y2 && x1 == x2) by (nonlinear_arith)
        requires
            0 <= x1 < width,
            0 <= x2 < width,
            0 <= y1,
            0 <= y2,
            y1 * width + x1 == y2 * width + x2,
    ;
}

/// A width x height grid of colors, stored row major. The integrator fills
/// it in place, one cell per pixel, and the display reads it back.
pub struct Raster {
    pub width: usize,
    pub height: usize,
    pub pixels: Vec<Color>,
}

impl Raster {
    /// The backing vector holds exactly one color per cell.
    pub open spec fn wf(self) -> bool {
        self.pixels@.len() == self.width * self.height
    }

    /// The color stored for the cell (x, y).
    pub open spec fn color_at(self, x: int, y: int) -> Color {
        self.pixels@[y * self.width + x]
    }

    /// A fresh raster of the given dimensions, every cell black: absence of
    /// a hit is empty space.
    pub fn new(width: usize, height: usize) -> (r: Raster)
        requires
            width * height <= usize::MAX,
        ensures
            r.wf(),
            r.width == width,
            r.height == height,
            forall|x: int, y: int|
                0 <= x < width && 0 <= y < height ==> r.color_at(x, y) == Color::spec_black(),
    {
        let total: usize = width * height;
        let mut pixels: Vec<Color> = Vec::new();
        let mut i: usize = 0;
        while i < total
            invariant
                total == width * height,
                i <= total,
                pixels@.len() == i,
                forall|j: int| 0 <= j < i ==> pixels@[j] == Color::spec_black(),
            decreases total - i,
        {
            pixels.push(Color::black());
            i = i + 1;
        }
        let r = Raster { width, height, pixels };
        proof {
            assert forall|x: int, y: int|
                0 <= x < width && 0 <= y < height implies r.color_at(x, y) == Color::spec_black() by {
                lemma_row_major_index(x, y, width as int, height as int);
            }
        }
        r
    }

    /// Read the color of the cell (x, y).
    pub fn get(&self, x: usize, y: usize) -> (c: Color)
        requires
            self.wf(),
            x < self.width,
            y < self.height,
        ensures
            c == self.color_at(x as int, y as int),
    {
        proof {
            lemma_row_major_index(x as int, y as int, self.width as int, self.height as int);
        }
        let n: usize = self.pixels.len();
        assert((y as int) * (self.width as int) + (x as int) < n as int);
        let idx: usize = y * self.width + x;
        self.pixels[idx]
    }

    /// Write the color of the cell (x, y); every other cell keeps its color.
    pub fn set(&mut self, x: usize, y: usize, c: Color)
        requires
            old(self).wf(),
            x < old(self).width,
            y < old(self).height,
        ensures
            final(self).wf(),
            final(self).width == old(self).width,
            final(self).height == old(self).height,
            final(self).color_at(x as int, y as int) == c,
            forall|i: int, j: int|
                0 <= i < old(self).width && 0 <= j < old(self).height
                    && !(i == x as int && j == y as int)
                    ==> final(self).color_at(i, j) == old(self).color_at(i, j),
    {
        proof {
            lemma_row_major_index(x as int, y as int, self.width as int, self.height as int);
        }
        let n: usize = self.pixels.len();
        assert((y as int) * (self.width as int) + (x as int) < n as int);
        let idx: usize = y * self.width + x;
        self.pixels.set(idx, c);
        proof {
            assert forall|i: int, j: int|
                0 <= i < old(self).width && 0 <= j < old(self).height
                    && !(i == x as int && j == y as int)
                    implies self.color_at(i, j) == old(self).color_at(i, j) by {
                lemma_row_major_index(i, j, self.width as int, self.height as int);
                if j * (self.width as int) + i == idx as int {
                    lemma_row_major_injective(i, j, x as int, y as int, self.width as int);
                }
            }
        }
    }
}

} // verus!
