//! The drawing interface: anything a widget drawer can render into. Both
//! the bare pixel surface and the damage tracker implement it, so drawing
//! code can target either one unchanged.

use vstd::prelude::*;

use crate::surface::PixelSurface;
use crate::tracker::DamageTracker;

verus! {

/// A fixed-size grid of packed 16-bit colors that accepts pixel writes.
pub trait DrawTarget: Sized {
    /// Number of columns.
    spec fn target_width(&self) -> int;

    /// Number of rows.
    spec fn target_height(&self) -> int;

    /// The colors the target holds, row-major.
    spec fn target_grid(&self) -> Seq<u16>;

    /// The target's internal invariant.
    spec fn target_inv(&self) -> bool;

    /// Store `color` at position `(x, y)`; every other position keeps its
    /// value.
    fn draw_pixel(&mut self, x: usize, y: usize, color: u16)
        requires
            old(self).target_inv(),
            x < old(self).target_width(),
            y < old(self).target_height(),
        ensures
            final(self).target_inv(),
            final(self).target_width() == old(self).target_width(),
            final(self).target_height() == old(self).target_height(),
            final(self).target_grid() == old(self).target_grid().update(
                y as int * old(self).target_width() + x as int,
                color,
            ),
    ;

    /// Both dimensions, columns first.
    fn size(&self) -> (r: (usize, usize))
        requires
            self.target_inv(),
        ensures
            r.0 == self.target_width(),
            r.1 == self.target_height(),
    ;

    /// Fill every position with `color`.
    fn clear(&mut self, color: u16)
        requires
            old(self).target_inv(),
        ensures
            final(self).target_inv(),
            final(self).target_width() == old(self).target_width(),
            final(self).target_height() == old(self).target_height(),
            final(self).target_grid() == Seq::new(old(self).target_grid().len(), |i: int| color),
    ;
}

impl DrawTarget for PixelSurface {
    open spec fn target_width(&self) -> int {
        self.spec_width()
    }

    open spec fn target_height(&self) -> int {
        self.spec_height()
    }

    open spec fn target_grid(&self) -> Seq<u16> {
        self@
    }

    open spec fn target_inv(&self) -> bool {
        self.wf()
    }

    fn draw_pixel(&mut self, x: usize, y: usize, color: u16) {
        PixelSurface::draw_pixel(self, x, y, color);
    }

    fn size(&self) -> (r: (usize, usize)) {
        PixelSurface::size(self)
    }

    fn clear(&mut self, color: u16) {
        PixelSurface::clear(self, color);
    }
}

impl DrawTarget for DamageTracker {
    open spec fn target_width(&self) -> int {
        self.spec_width()
    }

    open spec fn target_height(&self) -> int {
        self.spec_height()
    }

    open spec fn target_grid(&self) -> Seq<u16> {
        self.spec_grid()
    }

    open spec fn target_inv(&self) -> bool {
        self.wf()
    }

    fn draw_pixel(&mut self, x: usize, y: usize, color: u16) {
        self.write(x, y, color);
    }

    fn size(&self) -> (r: (usize, usize)) {
        DamageTracker::size(self)
    }

    fn clear(&mut self, color: u16) {
        DamageTracker::clear(self, color);
    }
}

} // verus!
