//! Axis-aligned rectangles over surface coordinates, inclusive on all four
//! edges, and the running bounding rectangle of a set of points.

use vstd::prelude::*;
use vstd::math::{max, min};

verus! {

/// An axis-aligned rectangle of pixel positions. All four bounds are
/// inclusive, so a rectangle always holds at least one position.
#[derive(Clone, Copy, PartialEq, Eq, Structural, Debug)]
pub struct Rect {
    pub left: usize,
    pub top: usize,
    pub right: usize,
    pub bottom: usize,
}

impl Rect {
    /// A rectangle is well formed when each lower bound is at most the
    /// matching upper bound.
    pub open spec fn wf(self) -> bool {
        self.left <= self.right && self.top <= self.bottom
    }

    /// Whether position `(x, y)` lies inside the rectangle.
    pub open spec fn contains(self, x: int, y: int) -> bool {
        self.left <= x <= self.right && self.top <= y <= self.bottom
    }

    /// Number of columns the rectangle spans.
    pub open spec fn spec_width(self) -> int {
        self.right - self.left + 1
    }

    /// Number of rows the rectangle spans.
    pub open spec fn spec_height(self) -> int {
        self.bottom - self.top + 1
    }

    /// The rectangle holding exactly one position.
    pub open spec fn spec_point(x: usize, y: usize) -> Rect {
        Rect { left: x, top: y, right: x, bottom: y }
    }

    /// The smallest rectangle holding everything in `self` plus `(x, y)`.
    pub open spec fn spec_expand(self, x: usize, y: usize) -> Rect {
        Rect {
            left: min(self.left as int, x as int) as usize,
            top: min(self.top as int, y as int) as usize,
            right: max(self.right as int, x as int) as usize,
            bottom: max(self.bottom as int, y as int) as usize,
        }
    }

    /// Build the rectangle holding exactly one position.
    pub fn point(x: usize, y: usize) -> (r: Rect)
        ensures
            r == Rect::spec_point(x, y),
    {
        Rect { left: x, top: y, right: x, bottom: y }
    }

    /// Grow the rectangle just enough to take in `(x, y)`.
    pub fn expand(&self, x: usize, y: usize) -> (r: Rect)
        ensures
            r == self.spec_expand(x, y),
    {
        Rect {
            left: if x < self.left { x } else { self.left },
            top: if y < self.top { y } else { self.top },
            right: if x > self.right { x } else { self.right },
            bottom: if y > self.bottom { y } else { self.bottom },
        }
    }

    /// Number of columns, as a machine integer.
    pub fn width(&self) -> (w: usize)
        requires
            self.wf(),
            self.right < usize::MAX,
        ensures
            w == self.spec_width(),
    {
        self.right - self.left + 1
    }

    /// Number of rows, as a machine integer.
    pub fn height(&self) -> (h: usize)
        requires
            self.wf(),
            self.bottom < usize::MAX,
        ensures
            h == self.spec_height(),
    {
        self.bottom - self.top + 1
    }
}

/// The bounding rectangle of a non-empty sequence of positions: the single
/// point of the first entry, expanded once for each later entry.
pub open spec fn spec_enclosing(ps: Seq<(usize, usize)>) -> Rect
    recommends
        ps.len() > 0,
    decreases ps.len(),
{
    if ps.len() <= 1 {
        Rect::spec_point(ps[0].0, ps[0].1)
    } else {
        spec_enclosing(ps.drop_last()).spec_expand(ps.last().0, ps.last().1)
    }
}

/// One step of the running bounding rectangle: start a rectangle at the
/// position when none exists yet, else grow the existing one to take the
/// position in. This is exactly how one tracked write updates the frame's
/// rectangle.
pub open spec fn bbox_take_in(b: Option<Rect>, x: usize, y: usize) -> Option<Rect> {
    match b {
        None => Some(Rect::spec_point(x, y)),
        Some(r) => Some(r.spec_expand(x, y)),
    }
}

/// The running bounding rectangle after a whole sequence of positions has
/// been taken in, one `bbox_take_in` step per position, starting from `b`.
pub open spec fn bbox_after_points(b: Option<Rect>, ps: Seq<(usize, usize)>) -> Option<Rect>
    decreases ps.len(),
{
    if ps.len() == 0 {
        b
    } else {
        bbox_take_in(bbox_after_points(b, ps.drop_last()), ps.last().0, ps.last().1)
    }
}

/// A frame's running rectangle is the bounding rectangle of the recorded
/// positions: starting from no rectangle and taking in each position in
/// turn lands exactly on `spec_enclosing` — which `lemma_enclosing_contains`
/// and `lemma_enclosing_minimal` show to be the smallest axis-aligned
/// rectangle containing them all.
pub proof fn lemma_bbox_after_points_is_enclosing(ps: Seq<(usize, usize)>)
    requires
        ps.len() > 0,
    ensures
        bbox_after_points(None, ps) == Some(spec_enclosing(ps)),
    decreases ps.len(),
{
    if ps.len() == 1 {
        assert(bbox_after_points(None, ps.drop_last()) == None::<Rect>);
    } else {
        lemma_bbox_after_points_is_enclosing(ps.drop_last());
    }
}

/// Expanding never evicts a position the rectangle already held.
pub proof fn lemma_expand_monotone(r: Rect, x: usize, y: usize, px: int, py: int)
    requires
        r.contains(px, py),
    ensures
        r.spec_expand(x, y).contains(px, py),
{
}

/// The bounding rectangle of a set of positions holds every one of them,
/// and is well formed.
pub proof fn lemma_enclosing_contains(ps: Seq<(usize, usize)>)
    requires
        ps.len() > 0,
    ensures
        spec_enclosing(ps).wf(),
        forall|i: int|
            0 <= i < ps.len() ==> spec_enclosing(ps).contains(ps[i].0 as int, ps[i].1 as int),
    decreases ps.len(),
{
    if ps.len() > 1 {
        lemma_enclosing_contains(ps.drop_last());
        assert forall|i: int|
            0 <= i < ps.len() implies spec_enclosing(ps).contains(
            ps[i].0 as int,
            ps[i].1 as int,
        ) by {
            if i < ps.len() - 1 {
                assert(ps.drop_last()[i] == ps[i]);
                lemma_expand_monotone(
                    spec_enclosing(ps.drop_last()),
                    ps.last().0,
                    ps.last().1,
                    ps[i].0 as int,
                    ps[i].1 as int,
                );
            }
        }
    }
}

/// No rectangle smaller than the bounding rectangle holds all the positions:
/// any well-formed rectangle holding every position encloses the bounding
/// rectangle on all four sides.
pub proof fn lemma_enclosing_minimal(ps: Seq<(usize, usize)>, q: Rect)
    requires
        ps.len() > 0,
        forall|i: int| 0 <= i < ps.len() ==> q.contains(ps[i].0 as int, ps[i].1 as int),
    ensures
        q.left <= spec_enclosing(ps).left,
        spec_enclosing(ps).right <= q.right,
        q.top <= spec_enclosing(ps).top,
        spec_enclosing(ps).bottom <= q.bottom,
    decreases ps.len(),
{
    if ps.len() > 1 {
        assert forall|i: int|
            0 <= i < ps.drop_last().len() implies q.contains(
            ps.drop_last()[i].0 as int,
            ps.drop_last()[i].1 as int,
        ) by {
            assert(ps.drop_last()[i] == ps[i]);
        }
        lemma_enclosing_minimal(ps.drop_last(), q);
    }
}

} // verus!
