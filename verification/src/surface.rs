//! A fixed-size, row-major, in-memory grid of packed 16-bit colors: the
//! picture that should be on the panel once the next flush completes.

use vstd::prelude::*;

verus! {

/// Row-major pixel grid with fixed dimensions. Position `(x, y)` lives at
/// index `y * width + x`; every index stays inside `[0, width * height)`.
pub struct PixelSurface {
    width: usize,
    height: usize,
    pixels: Vec<u16>,
}

impl View for PixelSurface {
    type V = Seq<u16>;

    closed spec fn view(&self) -> Seq<u16> {
        self.pixels@
    }
}

impl PixelSurface {
    /// Number of columns.
    pub closed spec fn spec_width(&self) -> int {
        self.width as int
    }

    /// Number of rows.
    pub closed spec fn spec_height(&self) -> int {
        self.height as int
    }

    /// Index of position `(x, y)` in the row-major grid.
    pub open spec fn spec_index(&self, x: int, y: int) -> int {
        y * self.spec_width() + x
    }

    /// The grid holds exactly one packed color per position, and a full
    /// serialization of it (two bytes per pixel) fits in memory.
    pub open spec fn wf(&self) -> bool {
        &&& 0 <= self.spec_width() <= usize::MAX
        &&& 0 <= self.spec_height() <= usize::MAX
        &&& self@.len() == self.spec_width() * self.spec_height()
        &&& 2 * (self.spec_width() * self.spec_height()) <= usize::MAX
    }

    /// A fresh surface of the given size with every position black.
    pub fn new(width: usize, height: usize) -> (s: PixelSurface)
        requires
            2 * ((width as int) * (height as int)) <= usize::MAX,
        ensures
            s.wf(),
            s.spec_width() == width,
            s.spec_height() == height,
            s@ == Seq::new((width * height) as nat, |i: int| crate::color::COLOR_BLACK),
    {
        proof {
            assert((width as int) * (height as int) <= usize::MAX) by (nonlinear_arith)
                requires
                    2 * ((width as int) * (height as int)) <= usize::MAX,
            ;
        }
        let n: usize = width * height;
        let mut pixels: Vec<u16> = Vec::new();
        let mut i: usize = 0;
        while i < n
            invariant
                i <= n,
                pixels@.len() == i,
                forall|j: int| 0 <= j < i ==> pixels@[j] == crate::color::COLOR_BLACK,
            decreases n - i,
        {
            pixels.push(crate::color::COLOR_BLACK);
            i += 1;
        }
        let s = PixelSurface { width, height, pixels };
        proof {
            assert(s@ =~= Seq::new((width * height) as nat, |i: int| crate::color::COLOR_BLACK));
        }
        s
    }

    /// Both dimensions, columns first.
    pub fn size(&self) -> (r: (usize, usize))
        ensures
            r.0 == self.spec_width(),
            r.1 == self.spec_height(),
    {
        (self.width, self.height)
    }

    /// Store `color` at position `(x, y)`; every other position keeps its
    /// value.
    pub fn draw_pixel(&mut self, x: usize, y: usize, color: u16)
        requires
            old(self).wf(),
            x < old(self).spec_width(),
            y < old(self).spec_height(),
        ensures
            final(self).wf(),
            final(self).spec_width() == old(self).spec_width(),
            final(self).spec_height() == old(self).spec_height(),
            final(self)@ == old(self)@.update(old(self).spec_index(x as int, y as int), color),
    {
        proof {
            lemma_grid_index_bounds(
                self.spec_width(),
                self.spec_height(),
                x as int,
                y as int,
            );
        }
        let idx: usize = y * self.width + x;
        self.pixels.set(idx, color);
    }

    /// The color stored at position `(x, y)`.
    pub fn get_pixel(&self, x: usize, y: usize) -> (c: u16)
        requires
            self.wf(),
            x < self.spec_width(),
            y < self.spec_height(),
        ensures
            c == self@[self.spec_index(x as int, y as int)],
    {
        proof {
            lemma_grid_index_bounds(
                self.spec_width(),
                self.spec_height(),
                x as int,
                y as int,
            );
        }
        self.pixels[y * self.width + x]
    }

    /// Fill every position with `color`.
    pub fn clear(&mut self, color: u16)
        requires
            old(self).wf(),
        ensures
            final(self).wf(),
            final(self).spec_width() == old(self).spec_width(),
            final(self).spec_height() == old(self).spec_height(),
            final(self)@ == Seq::new(old(self)@.len(), |i: int| color),
    {
        let n: usize = self.pixels.len();
        let mut i: usize = 0;
        while i < n
            invariant
                i <= n,
                self.wf(),
                self.pixels@.len() == n,
                self.spec_width() == old(self).spec_width(),
                self.spec_height() == old(self).spec_height(),
                forall|j: int| 0 <= j < i ==> self.pixels@[j] == color,
            decreases n - i,
        {
            self.pixels.set(i, color);
            i += 1;
        }
        proof {
            assert(self@ =~= Seq::new(old(self)@.len(), |i: int| color));
        }
    }
}

impl Clone for PixelSurface {
    /// A clone carries the same dimensions and, pixel for pixel, the same
    /// packed colors.
    fn clone(&self) -> (s: Self)
        ensures
            s.wf() == self.wf(),
            s.spec_width() == self.spec_width(),
            s.spec_height() == self.spec_height(),
            s@ == self@,
    {
        let mut pixels: Vec<u16> = Vec::new();
        let n: usize = self.pixels.len();
        let mut i: usize = 0;
        while i < n
            invariant
                i <= n,
                n == self.pixels@.len(),
                pixels@.len() == i,
                forall|j: int| 0 <= j < i ==> pixels@[j] == self.pixels@[j],
            decreases n - i,
        {
            pixels.push(self.pixels[i]);
            i += 1;
        }
        let s = PixelSurface { width: self.width, height: self.height, pixels };
        proof {
            assert(s@ =~= self@);
        }
        s
    }
}

/// Row-major indexing stays inside the grid: with `x < w` and `y < h`,
/// the index `y * w + x` lies below `w * h`.
pub proof fn lemma_grid_index_bounds(w: int, h: int, x: int, y: int)
    requires
        0 <= x < w,
        0 <= y < h,
    ensures
        0 <= y * w + x < w * h,
{
    assert(y * w + x < w * h) by (nonlinear_arith)
        requires
            0 <= x < w,
            0 <= y < h,
    ;
    assert(y * w + x >= 0) by (nonlinear_arith)
        requires
            0 <= x,
            0 <= y,
            w > 0,
    ;
}

} // verus!
