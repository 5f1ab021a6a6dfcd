//! The damage tracker: owns the current surface and an optional snapshot of
//! what the panel already shows, records which positions changed since the
//! last flush, and computes the minimal transfer payload.

use vstd::prelude::*;

use crate::payload::{
    payload_byte_len, region_bytes, BlockTransfer, FlushPayload, PayloadModel, PixelWrite,
};
use crate::rect::{bbox_after_points, bbox_take_in, Rect};
use crate::sink::{OutputSink, TransferError};
use crate::surface::{lemma_grid_index_bounds, PixelSurface};
use vstd::math::min;

verus! {

/// Default bound on the per-pixel dirty list: one frame touching more
/// distinct positions than this downgrades that flush to a full scan.
pub const DIRTY_LIST_CAPACITY: usize = 10000;

/// How changed positions are tracked between flushes, and in what shape the
/// payload is emitted.
#[derive(Clone, Copy, PartialEq, Eq, Structural, Debug)]
pub enum Strategy {
    /// Record each differing write, capped; emit discrete pixel writes.
    PixelList,
    /// Track nothing; compare every position on flush and emit discrete
    /// pixel writes for each mismatch.
    FullScan,
    /// Keep one running bounding rectangle; emit it as a single block.
    BoundingBox,
}

/// Tracks damage to a pixel surface and synchronizes it with a physical
/// panel through an output sink.
pub struct DamageTracker {
    current: PixelSurface,
    previous: Option<PixelSurface>,
    strategy: Strategy,
    dirty: Vec<(usize, usize)>,
    overflow: bool,
    bbox: Option<Rect>,
    anchor_x: usize,
    anchor_y: usize,
    capacity: usize,
}

impl DamageTracker {
    /// The colors the caller has drawn: what should be on the panel.
    pub closed spec fn spec_grid(&self) -> Seq<u16> {
        self.current@
    }

    /// Whether a flush has ever completed.
    pub closed spec fn has_prev(&self) -> bool {
        self.previous is Some
    }

    /// The snapshot taken by the last flush: what the panel shows now.
    /// Empty before the first flush.
    pub closed spec fn prev_grid(&self) -> Seq<u16> {
        match self.previous {
            Some(p) => p@,
            None => Seq::empty(),
        }
    }

    /// Number of columns.
    pub closed spec fn spec_width(&self) -> int {
        self.current.spec_width()
    }

    /// Number of rows.
    pub closed spec fn spec_height(&self) -> int {
        self.current.spec_height()
    }

    /// Device-space column of the surface's leftmost column.
    pub closed spec fn spec_anchor_x(&self) -> int {
        self.anchor_x as int
    }

    /// Device-space row of the surface's topmost row.
    pub closed spec fn spec_anchor_y(&self) -> int {
        self.anchor_y as int
    }

    /// The configured diff strategy.
    pub closed spec fn spec_strategy(&self) -> Strategy {
        self.strategy
    }

    /// Positions recorded as differing since the last flush (pixel-list
    /// strategy only).
    pub closed spec fn spec_dirty(&self) -> Seq<(usize, usize)> {
        self.dirty@
    }

    /// Whether the dirty list would have outgrown its capacity this frame.
    pub closed spec fn spec_overflowed(&self) -> bool {
        self.overflow
    }

    /// The running bounding rectangle of the frame, if one has been
    /// started (bounding-box strategy only).
    pub closed spec fn spec_bbox(&self) -> Option<Rect> {
        self.bbox
    }

    /// Whether a bounding rectangle has been started this frame.
    pub open spec fn has_bbox(&self) -> bool {
        self.spec_bbox() is Some
    }

    /// The running bounding rectangle (bounding-box strategy only);
    /// a dummy single point when none has been started.
    pub open spec fn bbox_rect(&self) -> Rect {
        match self.spec_bbox() {
            Some(r) => r,
            None => Rect::spec_point(0, 0),
        }
    }

    /// Capacity of the dirty list.
    pub closed spec fn spec_capacity(&self) -> int {
        self.capacity as int
    }

    /// The snapshot surface, when present, is itself well formed and has the
    /// same dimensions as the drawing surface.
    pub closed spec fn prev_wf(&self) -> bool {
        match self.previous {
            Some(p) => p.wf() && p.spec_width() == self.spec_width() && p.spec_height()
                == self.spec_height(),
            None => true,
        }
    }

    /// Whether `(x, y)` is a position of the surface.
    pub open spec fn in_bounds(&self, x: int, y: int) -> bool {
        0 <= x < self.spec_width() && 0 <= y < self.spec_height()
    }

    /// Row-major index of position `(x, y)`.
    pub open spec fn spec_index(&self, x: int, y: int) -> int {
        y * self.spec_width() + x
    }

    /// Whether the drawn color at `(x, y)` disagrees with what the panel
    /// shows there. Never true before the first flush.
    pub open spec fn differs(&self, x: int, y: int) -> bool {
        self.has_prev() && self.spec_grid()[self.spec_index(x, y)] != self.prev_grid()[
            self.spec_index(x, y)
        ]
    }

    /// Every differing position is recorded in the dirty list.
    pub open spec fn dirty_covers(&self) -> bool {
        forall|x: int, y: int|
            self.in_bounds(x, y) && #[trigger] self.differs(x, y) ==> self.spec_dirty().contains(
                (x as usize, y as usize),
            )
    }

    /// Every differing position lies inside the bounding rectangle.
    pub open spec fn bbox_covers(&self) -> bool {
        forall|x: int, y: int|
            self.in_bounds(x, y) && #[trigger] self.differs(x, y) ==> self.has_bbox()
                && self.bbox_rect().contains(x, y)
    }

    /// Internal invariant: the surfaces agree in size, device coordinates
    /// cannot overflow, per-strategy state is clean, and whichever tracking
    /// state the strategy keeps covers every differing position.
    pub open spec fn wf(&self) -> bool {
        &&& 0 <= self.spec_width() <= usize::MAX
        &&& 0 <= self.spec_height() <= usize::MAX
        &&& self.spec_grid().len() == self.spec_width() * self.spec_height()
        &&& 2 * (self.spec_width() * self.spec_height()) <= usize::MAX
        &&& self.prev_wf()
        &&& self.has_prev() ==> self.prev_grid().len() == self.spec_grid().len()
        &&& 0 <= self.spec_anchor_x()
        &&& 0 <= self.spec_anchor_y()
        &&& self.spec_anchor_x() + self.spec_width() <= usize::MAX
        &&& self.spec_anchor_y() + self.spec_height() <= usize::MAX
        &&& match self.spec_strategy() {
            Strategy::PixelList => {
                &&& !self.has_bbox()
                &&& self.spec_dirty().len() <= self.spec_capacity()
                &&& forall|j: int|
                    0 <= j < self.spec_dirty().len() ==> self.in_bounds(
                        #[trigger] self.spec_dirty()[j].0 as int,
                        self.spec_dirty()[j].1 as int,
                    )
                &&& !self.has_prev() ==> self.spec_dirty().len() == 0 && !self.spec_overflowed()
                &&& !self.spec_overflowed() ==> self.dirty_covers()
            },
            Strategy::FullScan => {
                &&& !self.has_bbox()
                &&& self.spec_dirty().len() == 0
                &&& !self.spec_overflowed()
            },
            Strategy::BoundingBox => {
                &&& self.spec_dirty().len() == 0
                &&& !self.spec_overflowed()
                &&& self.has_bbox() ==> {
                    &&& self.bbox_rect().wf()
                    &&& self.bbox_rect().right < self.spec_width()
                    &&& self.bbox_rect().bottom < self.spec_height()
                }
                &&& !self.has_prev() ==> !self.has_bbox()
                &&& self.bbox_covers()
            },
        }
    }

    /// Width, height, anchor, strategy and capacity agree between `a` and
    /// `b`: everything fixed at construction time.
    pub open spec fn same_config(a: DamageTracker, b: DamageTracker) -> bool {
        &&& a.spec_width() == b.spec_width()
        &&& a.spec_height() == b.spec_height()
        &&& a.spec_anchor_x() == b.spec_anchor_x()
        &&& a.spec_anchor_y() == b.spec_anchor_y()
        &&& a.spec_strategy() == b.spec_strategy()
        &&& a.spec_capacity() == b.spec_capacity()
    }

    /// A fresh tracker: all-black surface, no snapshot yet (the first flush
    /// treats every position as new), no damage recorded, bounding-box
    /// strategy with the default dirty-list capacity.
    pub fn new(width: usize, height: usize, anchor_x: usize, anchor_y: usize) -> (t: DamageTracker)
        requires
            2 * ((width as int) * (height as int)) <= usize::MAX,
            anchor_x + width <= usize::MAX,
            anchor_y + height <= usize::MAX,
        ensures
            t.wf(),
            t.spec_width() == width,
            t.spec_height() == height,
            t.spec_anchor_x() == anchor_x,
            t.spec_anchor_y() == anchor_y,
            t.spec_strategy() == Strategy::BoundingBox,
            t.spec_capacity() == DIRTY_LIST_CAPACITY,
            !t.has_prev(),
            t.spec_dirty().len() == 0,
            !t.spec_overflowed(),
            !t.has_bbox(),
            t.spec_grid() == Seq::new((width * height) as nat, |i: int| crate::color::COLOR_BLACK),
    {
        DamageTracker::with_strategy(
            width,
            height,
            anchor_x,
            anchor_y,
            Strategy::BoundingBox,
            DIRTY_LIST_CAPACITY,
        )
    }

    /// A fresh tracker with an explicit strategy and dirty-list capacity.
    pub fn with_strategy(
        width: usize,
        height: usize,
        anchor_x: usize,
        anchor_y: usize,
        strategy: Strategy,
        capacity: usize,
    ) -> (t: DamageTracker)
        requires
            2 * ((width as int) * (height as int)) <= usize::MAX,
            anchor_x + width <= usize::MAX,
            anchor_y + height <= usize::MAX,
        ensures
            t.wf(),
            t.spec_width() == width,
            t.spec_height() == height,
            t.spec_anchor_x() == anchor_x,
            t.spec_anchor_y() == anchor_y,
            t.spec_strategy() == strategy,
            t.spec_capacity() == capacity,
            !t.has_prev(),
            t.spec_dirty().len() == 0,
            !t.spec_overflowed(),
            !t.has_bbox(),
            t.spec_grid() == Seq::new((width * height) as nat, |i: int| crate::color::COLOR_BLACK),
    {
        DamageTracker {
            current: PixelSurface::new(width, height),
            previous: None,
            strategy,
            dirty: Vec::new(),
            overflow: false,
            bbox: None,
            anchor_x,
            anchor_y,
            capacity,
        }
    }

    /// Both dimensions, columns first.
    pub fn size(&self) -> (r: (usize, usize))
        ensures
            r.0 == self.spec_width(),
            r.1 == self.spec_height(),
    {
        self.current.size()
    }
}

/// How one `write` changes the tracking state: nothing is recorded before
/// the first flush or when the written color already matches the panel;
/// otherwise the pixel-list strategy appends the position while the list has
/// room and raises the overflow flag once it has none, and the bounding-box
/// strategy starts or grows its rectangle to take the position in. The
/// full-scan strategy records nothing at all.
pub open spec fn tracking_after_write(
    pre: DamageTracker,
    post: DamageTracker,
    x: usize,
    y: usize,
    color: u16,
) -> bool {
    let was_diff = pre.has_prev() && color != pre.prev_grid()[pre.spec_index(x as int, y as int)];
    &&& post.spec_dirty() == if was_diff && pre.spec_strategy() is PixelList
        && pre.spec_dirty().len() < pre.spec_capacity() {
        pre.spec_dirty().push((x, y))
    } else {
        pre.spec_dirty()
    }
    &&& post.spec_overflowed() == (pre.spec_overflowed() || (was_diff
        && pre.spec_strategy() is PixelList && pre.spec_dirty().len() >= pre.spec_capacity()))
    &&& post.spec_bbox() == (if was_diff && pre.spec_strategy() is BoundingBox {
        bbox_take_in(pre.spec_bbox(), x, y)
    } else {
        pre.spec_bbox()
    })
}

/// Distinct in-bounds positions occupy distinct row-major indices.
proof fn lemma_index_distinct(w: int, x1: int, y1: int, x2: int, y2: int)
    requires
        0 <= x1 < w,
        0 <= x2 < w,
        0 <= y1,
        0 <= y2,
        !(x1 == x2 && y1 == y2),
    ensures
        y1 * w + x1 != y2 * w + x2,
{
    assert(y1 * w + x1 != y2 * w + x2) by (nonlinear_arith)
        requires
            0 <= x1 < w,
            0 <= x2 < w,
            0 <= y1,
            0 <= y2,
            !(x1 == x2 && y1 == y2),
    ;
}

/// A sequence keeps everything it contains when a value is pushed.
proof fn lemma_push_keeps_contains<T>(s: Seq<T>, v: T, e: T)
    requires
        s.contains(e),
    ensures
        s.push(v).contains(e),
{
    let j = choose|j: int| 0 <= j < s.len() && s[j] == e;
    assert(s.push(v)[j] == e);
}

impl DamageTracker {
    /// Write `color` at `(x, y)` into the drawing surface and record the
    /// damage as the strategy asks. Never fails for in-range coordinates.
    pub fn write(&mut self, x: usize, y: usize, color: u16)
        requires
            old(self).wf(),
            x < old(self).spec_width(),
            y < old(self).spec_height(),
        ensures
            final(self).wf(),
            DamageTracker::same_config(*old(self), *final(self)),
            final(self).has_prev() == old(self).has_prev(),
            final(self).prev_grid() == old(self).prev_grid(),
            final(self).spec_grid() == old(self).spec_grid().update(
                old(self).spec_index(x as int, y as int),
                color,
            ),
            tracking_after_write(*old(self), *final(self), x, y, color),
    {
        proof {
            lemma_grid_index_bounds(self.spec_width(), self.spec_height(), x as int, y as int);
        }
        self.current.draw_pixel(x, y, color);
        match &self.previous {
            None => {},
            Some(p) => {
                let prev_color = p.get_pixel(x, y);
                if color != prev_color {
                    match self.strategy {
                        Strategy::PixelList => {
                            if self.dirty.len() < self.capacity {
                                self.dirty.push((x, y));
                            } else {
                                self.overflow = true;
                            }
                        },
                        Strategy::FullScan => {},
                        Strategy::BoundingBox => {
                            let nb = match &self.bbox {
                                None => Rect::point(x, y),
                                Some(r) => r.expand(x, y),
                            };
                            self.bbox = Some(nb);
                        },
                    }
                }
            },
        }
        proof {
            lemma_write_preserves_wf(*old(self), *self, x, y, color);
        }
    }
}

impl DamageTracker {
    /// The tracker is in the state a successful flush leaves behind: the
    /// panel shows exactly the drawn surface and no damage is recorded.
    pub open spec fn is_flushed(&self) -> bool {
        &&& self.has_prev()
        &&& self.prev_grid() == self.spec_grid()
        &&& self.spec_dirty().len() == 0
        &&& !self.spec_overflowed()
        &&& !self.has_bbox()
    }

    /// The rectangle covering the whole surface.
    pub open spec fn full_rect(&self) -> Rect {
        Rect {
            left: 0,
            top: 0,
            right: (self.spec_width() - 1) as usize,
            bottom: (self.spec_height() - 1) as usize,
        }
    }

    /// The block payload that carries rectangle `r` of the drawn surface,
    /// anchored into device space.
    pub open spec fn block_emission(&self, r: Rect) -> PayloadModel {
        PayloadModel::Block {
            x: (self.spec_anchor_x() + r.left) as usize,
            y: (self.spec_anchor_y() + r.top) as usize,
            width: r.spec_width() as usize,
            height: r.spec_height() as usize,
            bytes: region_bytes(self.spec_grid(), self.spec_width(), r),
        }
    }

    /// Every emitted pixel write is genuine: its device position maps back
    /// onto the surface, the position really differs from what the panel
    /// shows, and it carries the drawn color.
    pub open spec fn pixels_sound(&self, s: Seq<PixelWrite>) -> bool {
        forall|k: int|
            0 <= k < s.len() ==> {
                let px = (#[trigger] s[k]).x - self.spec_anchor_x();
                let py = s[k].y - self.spec_anchor_y();
                &&& self.in_bounds(px, py)
                &&& self.differs(px, py)
                &&& s[k].color == self.spec_grid()[self.spec_index(px, py)]
            }
    }

    /// Every position that differs from what the panel shows is among the
    /// emitted pixel writes, with the drawn color, at its device position.
    pub open spec fn pixels_complete(&self, s: Seq<PixelWrite>) -> bool {
        forall|x: int, y: int|
            self.in_bounds(x, y) && #[trigger] self.differs(x, y) ==> s.contains(
                PixelWrite {
                    x: (self.spec_anchor_x() + x) as usize,
                    y: (self.spec_anchor_y() + y) as usize,
                    color: self.spec_grid()[self.spec_index(x, y)],
                },
            )
    }

    /// What a flush of this tracker state must emit.
    ///
    /// Before the first flush everything is new: the whole surface goes out
    /// as one block (nothing, when the surface is empty). After that the
    /// bounding-box strategy sends the recorded rectangle as one block, or
    /// nothing when no damage was recorded; the two pixel strategies send
    /// exactly the genuinely differing positions as discrete writes.
    pub open spec fn valid_emission(&self, p: PayloadModel) -> bool {
        if !self.has_prev() {
            if self.spec_width() * self.spec_height() == 0 {
                p == PayloadModel::Nothing
            } else {
                p == self.block_emission(self.full_rect())
            }
        } else {
            match self.spec_strategy() {
                Strategy::BoundingBox => if !self.has_bbox() {
                    p == PayloadModel::Nothing
                } else {
                    p == self.block_emission(self.bbox_rect())
                },
                _ => {
                    &&& p is Pixels
                    &&& self.pixels_sound(p->Pixels_0)
                    &&& self.pixels_complete(p->Pixels_0)
                },
            }
        }
    }
}

/// After a tracked write, the covering invariants still hold, so the whole
/// tracker is still well formed.
proof fn lemma_write_preserves_wf(
    pre: DamageTracker,
    post: DamageTracker,
    x: usize,
    y: usize,
    color: u16,
)
    requires
        pre.wf(),
        x < pre.spec_width(),
        y < pre.spec_height(),
        DamageTracker::same_config(pre, post),
        post.has_prev() == pre.has_prev(),
        post.prev_grid() == pre.prev_grid(),
        post.prev_wf(),
        post.spec_grid() == pre.spec_grid().update(pre.spec_index(x as int, y as int), color),
        tracking_after_write(pre, post, x, y, color),
    ensures
        post.wf(),
{
    let w = pre.spec_width();
    let idx = pre.spec_index(x as int, y as int);
    lemma_grid_index_bounds(pre.spec_width(), pre.spec_height(), x as int, y as int);
    assert forall|x2: int, y2: int|
        post.in_bounds(x2, y2) && #[trigger] post.differs(x2, y2) && !(x2 == x && y2
            == y) implies pre.differs(x2, y2) by {
        lemma_grid_index_bounds(pre.spec_width(), pre.spec_height(), x2, y2);
        lemma_index_distinct(w, x as int, y as int, x2, y2);
        assert(post.spec_grid()[post.spec_index(x2, y2)] == pre.spec_grid()[pre.spec_index(
            x2,
            y2,
        )]);
    }
    match pre.spec_strategy() {
        Strategy::PixelList => {
            if !post.spec_overflowed() {
                assert forall|x2: int, y2: int|
                    post.in_bounds(x2, y2) && #[trigger] post.differs(
                        x2,
                        y2,
                    ) implies post.spec_dirty().contains((x2 as usize, y2 as usize)) by {
                    if x2 == x && y2 == y {
                        assert(post.differs(x2, y2));
                        assert(post.spec_grid()[idx] == color);
                        assert(post.spec_dirty() == pre.spec_dirty().push((x, y)));
                        assert(post.spec_dirty()[post.spec_dirty().len() - 1] == (
                        x2 as usize,
                        y2 as usize,
                        ));
                    } else {
                        assert(pre.differs(x2, y2));
                        assert(pre.spec_dirty().contains((x2 as usize, y2 as usize)));
                        if post.spec_dirty() == pre.spec_dirty().push((x, y)) {
                            lemma_push_keeps_contains(
                                pre.spec_dirty(),
                                (x, y),
                                (x2 as usize, y2 as usize),
                            );
                        }
                    }
                }
            }
        },
        Strategy::FullScan => {},
        Strategy::BoundingBox => {
            assert forall|x2: int, y2: int|
                post.in_bounds(x2, y2) && #[trigger] post.differs(x2, y2) implies post.has_bbox()
                && post.bbox_rect().contains(x2, y2) by {
                if x2 == x && y2 == y {
                    assert(post.spec_grid()[idx] == color);
                } else {
                    assert(pre.differs(x2, y2));
                    assert(pre.has_bbox() && pre.bbox_rect().contains(x2, y2));
                    if post.bbox_rect() == pre.bbox_rect().spec_expand(x, y) {
                        crate::rect::lemma_expand_monotone(pre.bbox_rect(), x, y, x2, y2);
                    }
                }
            }
        },
    }
}

impl DamageTracker {
    /// Re-verify each recorded position against the snapshot — a pixel may
    /// have been written twice and ended unchanged — and emit only those
    /// that still differ, as positioned writes in device space.
    fn emit_dirty_list(&self) -> (out: Vec<PixelWrite>)
        requires
            self.wf(),
            self.has_prev(),
            self.spec_strategy() is PixelList,
            !self.spec_overflowed(),
        ensures
            self.pixels_sound(out@),
            self.pixels_complete(out@),
    {
        let mut out: Vec<PixelWrite> = Vec::new();
        match &self.previous {
            None => vstd::pervasive::unreached(),
            Some(prev) => {
                let n: usize = self.dirty.len();
                let mut j: usize = 0;
                while j < n
                    invariant
                        j <= n,
                        self.wf(),
                        self.has_prev(),
                        self.spec_strategy() is PixelList,
                        n == self.spec_dirty().len(),
                        prev@ == self.prev_grid(),
                        prev.wf(),
                        prev.spec_width() == self.spec_width(),
                        prev.spec_height() == self.spec_height(),
                        self.pixels_sound(out@),
                        forall|jj: int|
                            0 <= jj < j && self.differs(
                                #[trigger] self.spec_dirty()[jj].0 as int,
                                self.spec_dirty()[jj].1 as int,
                            ) ==> out@.contains(
                                PixelWrite {
                                    x: (self.spec_anchor_x() + self.spec_dirty()[jj].0) as usize,
                                    y: (self.spec_anchor_y() + self.spec_dirty()[jj].1) as usize,
                                    color: self.spec_grid()[self.spec_index(
                                        self.spec_dirty()[jj].0 as int,
                                        self.spec_dirty()[jj].1 as int,
                                    )],
                                },
                            ),
                    decreases n - j,
                {
                    let (x, y) = self.dirty[j];
                    proof {
                        assert(self.in_bounds(
                            self.spec_dirty()[j as int].0 as int,
                            self.spec_dirty()[j as int].1 as int,
                        ));
                    }
                    let c = self.current.get_pixel(x, y);
                    let pc = prev.get_pixel(x, y);
                    if c != pc {
                        let ghost old_out = out@;
                        let pw = PixelWrite { x: self.anchor_x + x, y: self.anchor_y + y, color: c };
                        out.push(pw);
                        proof {
                            assert forall|jj: int|
                                0 <= jj < j + 1 && self.differs(
                                    #[trigger] self.spec_dirty()[jj].0 as int,
                                    self.spec_dirty()[jj].1 as int,
                                ) implies out@.contains(
                                PixelWrite {
                                    x: (self.spec_anchor_x() + self.spec_dirty()[jj].0) as usize,
                                    y: (self.spec_anchor_y() + self.spec_dirty()[jj].1) as usize,
                                    color: self.spec_grid()[self.spec_index(
                                        self.spec_dirty()[jj].0 as int,
                                        self.spec_dirty()[jj].1 as int,
                                    )],
                                },
                            ) by {
                                let e = PixelWrite {
                                    x: (self.spec_anchor_x() + self.spec_dirty()[jj].0) as usize,
                                    y: (self.spec_anchor_y() + self.spec_dirty()[jj].1) as usize,
                                    color: self.spec_grid()[self.spec_index(
                                        self.spec_dirty()[jj].0 as int,
                                        self.spec_dirty()[jj].1 as int,
                                    )],
                                };
                                if jj < j {
                                    lemma_push_keeps_contains(old_out, pw, e);
                                } else {
                                    assert(out@[out@.len() - 1] == e);
                                }
                            }
                        }
                    }
                    j += 1;
                }
                proof {
                    assert forall|x: int, y: int|
                        self.in_bounds(x, y) && #[trigger] self.differs(x, y) implies out@.contains(
                        PixelWrite {
                            x: (self.spec_anchor_x() + x) as usize,
                            y: (self.spec_anchor_y() + y) as usize,
                            color: self.spec_grid()[self.spec_index(x, y)],
                        },
                    ) by {
                        assert(self.spec_dirty().contains((x as usize, y as usize)));
                        let jj = choose|jj: int|
                            0 <= jj < self.spec_dirty().len() && self.spec_dirty()[jj] == (
                            x as usize,
                            y as usize,
                            );
                        assert(self.differs(
                            self.spec_dirty()[jj].0 as int,
                            self.spec_dirty()[jj].1 as int,
                        ));
                    }
                }
                out
            },
        }
    }

    /// Compare every position of the surface against the snapshot and emit
    /// a positioned write for each mismatch, in row-major order.
    fn emit_full_scan(&self) -> (out: Vec<PixelWrite>)
        requires
            self.wf(),
            self.has_prev(),
        ensures
            self.pixels_sound(out@),
            self.pixels_complete(out@),
    {
        let mut out: Vec<PixelWrite> = Vec::new();
        match &self.previous {
            None => vstd::pervasive::unreached(),
            Some(prev) => {
                let (w, h) = self.current.size();
                let mut y: usize = 0;
                while y < h
                    invariant
                        y <= h,
                        self.wf(),
                        self.has_prev(),
                        w == self.spec_width(),
                        h == self.spec_height(),
                        prev@ == self.prev_grid(),
                        prev.wf(),
                        prev.spec_width() == self.spec_width(),
                        prev.spec_height() == self.spec_height(),
                        self.pixels_sound(out@),
                        forall|x2: int, y2: int|
                            self.in_bounds(x2, y2) && #[trigger] self.differs(x2, y2) && y2
                                < y ==> out@.contains(
                                PixelWrite {
                                    x: (self.spec_anchor_x() + x2) as usize,
                                    y: (self.spec_anchor_y() + y2) as usize,
                                    color: self.spec_grid()[self.spec_index(x2, y2)],
                                },
                            ),
                    decreases h - y,
                {
                    let mut x: usize = 0;
                    while x < w
                        invariant
                            x <= w,
                            y < h,
                            self.wf(),
                            self.has_prev(),
                            w == self.spec_width(),
                            h == self.spec_height(),
                            prev@ == self.prev_grid(),
                            prev.wf(),
                            prev.spec_width() == self.spec_width(),
                            prev.spec_height() == self.spec_height(),
                            self.pixels_sound(out@),
                            forall|x2: int, y2: int|
                                self.in_bounds(x2, y2) && #[trigger] self.differs(x2, y2) && (y2
                                    < y || (y2 == y && x2 < x)) ==> out@.contains(
                                    PixelWrite {
                                        x: (self.spec_anchor_x() + x2) as usize,
                                        y: (self.spec_anchor_y() + y2) as usize,
                                        color: self.spec_grid()[self.spec_index(x2, y2)],
                                    },
                                ),
                        decreases w - x,
                    {
                        let c = self.current.get_pixel(x, y);
                        let pc = prev.get_pixel(x, y);
                        let ghost old_out = out@;
                        if c != pc {
                            let pw = PixelWrite {
                                x: self.anchor_x + x,
                                y: self.anchor_y + y,
                                color: c,
                            };
                            out.push(pw);
                        }
                        proof {
                            assert forall|x2: int, y2: int|
                                self.in_bounds(x2, y2) && #[trigger] self.differs(x2, y2) && (y2
                                    < y || (y2 == y && x2 < x + 1)) implies out@.contains(
                                PixelWrite {
                                    x: (self.spec_anchor_x() + x2) as usize,
                                    y: (self.spec_anchor_y() + y2) as usize,
                                    color: self.spec_grid()[self.spec_index(x2, y2)],
                                },
                            ) by {
                                let e = PixelWrite {
                                    x: (self.spec_anchor_x() + x2) as usize,
                                    y: (self.spec_anchor_y() + y2) as usize,
                                    color: self.spec_grid()[self.spec_index(x2, y2)],
                                };
                                if y2 == y && x2 == x {
                                    assert(out@[out@.len() - 1] == e);
                                } else {
                                    assert(old_out.contains(e));
                                    if c != pc {
                                        lemma_push_keeps_contains(
                                            old_out,
                                            PixelWrite {
                                                x: (self.spec_anchor_x() + x) as usize,
                                                y: (self.spec_anchor_y() + y) as usize,
                                                color: self.spec_grid()[self.spec_index(
                                                    x as int,
                                                    y as int,
                                                )],
                                            },
                                            e,
                                        );
                                    }
                                }
                            }
                        }
                        x += 1;
                    }
                    y += 1;
                }
                out
            },
        }
    }

    /// Compute the minimal transfer payload for the current state: what a
    /// flush would send, without sending it.
    pub fn compute_payload(&self) -> (p: FlushPayload)
        requires
            self.wf(),
        ensures
            self.valid_emission(p@),
            self.is_flushed() ==> payload_byte_len(p@) == 0,
    {
        match &self.previous {
            None => {
                let (w, h) = self.current.size();
                if w == 0 || h == 0 {
                    proof {
                        assert(self.spec_width() * self.spec_height() == 0) by (nonlinear_arith)
                            requires
                                self.spec_width() == 0 || self.spec_height() == 0,
                        ;
                    }
                    FlushPayload::Nothing
                } else {
                    proof {
                        assert(self.spec_width() * self.spec_height() > 0) by (nonlinear_arith)
                            requires
                                self.spec_width() >= 1,
                                self.spec_height() >= 1,
                        ;
                    }
                    let r = Rect { left: 0, top: 0, right: w - 1, bottom: h - 1 };
                    let bytes = crate::payload::serialize_region(&self.current, &r);
                    let b = BlockTransfer {
                        x: self.anchor_x,
                        y: self.anchor_y,
                        width: w,
                        height: h,
                        bytes,
                    };
                    proof {
                        assert(b.model() == self.block_emission(self.full_rect()));
                    }
                    FlushPayload::Block(b)
                }
            },
            Some(_) => {
                match self.strategy {
                    Strategy::BoundingBox => {
                        match &self.bbox {
                            None => FlushPayload::Nothing,
                            Some(r) => {
                                proof {
                                    assert(self.spec_width() <= self.spec_width()
                                        * self.spec_height() && self.spec_height()
                                        <= self.spec_width() * self.spec_height())
                                        by (nonlinear_arith)
                                        requires
                                            self.spec_width() >= 1,
                                            self.spec_height() >= 1,
                                    ;
                                }
                                let rr = *r;
                                let bytes = crate::payload::serialize_region(&self.current, &rr);
                                let bw = rr.width();
                                let bh = rr.height();
                                let b = BlockTransfer {
                                    x: self.anchor_x + rr.left,
                                    y: self.anchor_y + rr.top,
                                    width: bw,
                                    height: bh,
                                    bytes,
                                };
                                proof {
                                    assert(b.model() == self.block_emission(self.bbox_rect()));
                                }
                                FlushPayload::Block(b)
                            },
                        }
                    },
                    Strategy::PixelList => {
                        let pixels = if !self.overflow {
                            self.emit_dirty_list()
                        } else {
                            self.emit_full_scan()
                        };
                        proof {
                            lemma_no_mismatch_means_empty(*self, pixels@);
                        }
                        FlushPayload::Pixels(pixels)
                    },
                    Strategy::FullScan => {
                        let pixels = self.emit_full_scan();
                        proof {
                            lemma_no_mismatch_means_empty(*self, pixels@);
                        }
                        FlushPayload::Pixels(pixels)
                    },
                }
            },
        }
    }
}

impl DamageTracker {
    /// A flush of this state transfers nothing at all: either the very
    /// first flush of an empty surface, or a bounding-box frame in which no
    /// differing write was recorded.
    pub open spec fn emits_nothing(&self) -> bool {
        ||| !self.has_prev() && self.spec_width() * self.spec_height() == 0
        ||| self.has_prev() && self.spec_strategy() is BoundingBox && !self.has_bbox()
    }

    /// Record that the payload computed for this state reached the panel:
    /// the snapshot becomes a bit-for-bit copy of the drawn surface and all
    /// change tracking is cleared. For callers that perform the transfer
    /// themselves instead of handing a sink to `flush`; calling it without
    /// having transferred the payload leaves the panel stale until some
    /// later frame redraws the same positions.
    pub fn mark_synced(&mut self)
        requires
            old(self).wf(),
        ensures
            final(self).wf(),
            final(self).is_flushed(),
            final(self).spec_grid() == old(self).spec_grid(),
            DamageTracker::same_config(*old(self), *final(self)),
    {
        self.previous = Some(self.current.clone());
        self.dirty = Vec::new();
        self.overflow = false;
        self.bbox = None;
    }

    /// Compute the minimal payload, send it through the sink, and on
    /// success reconcile: the snapshot becomes a bit-for-bit copy of the
    /// drawn surface and all change tracking is cleared, so a flush with no
    /// intervening writes transfers zero bytes. A frame that owes the panel
    /// nothing never touches the sink and always succeeds. A transfer error
    /// is the sink's own, handed back unmodified — exactly one attempt was
    /// refused, so nothing is swallowed and nothing retried — and leaves
    /// the tracker exactly as it was; retry policy belongs to the caller.
    pub fn flush<S: OutputSink>(&mut self, sink: &mut S) -> (r: Result<(), TransferError>)
        requires
            old(self).wf(),
        ensures
            old(self).emits_nothing() ==> r is Ok,
            r is Ok ==> {
                &&& final(self).wf()
                &&& final(self).is_flushed()
                &&& final(self).spec_grid() == old(self).spec_grid()
                &&& DamageTracker::same_config(*old(self), *final(self))
                &&& final(sink).rejections() == old(sink).rejections()
                &&& old(self).emits_nothing() ==> final(sink).log() == old(sink).log()
                &&& !old(self).emits_nothing() ==> {
                    &&& final(sink).log().len() == old(sink).log().len() + 1
                    &&& old(self).valid_emission(final(sink).log().last())
                }
            },
            r matches Err(e) ==> {
                &&& *final(self) == *old(self)
                &&& final(sink).log() == old(sink).log()
                &&& final(sink).rejections() == old(sink).rejections().push(e)
            },
    {
        let payload = self.compute_payload();
        let sent: Result<(), TransferError> = match &payload {
            FlushPayload::Nothing => Ok(()),
            FlushPayload::Pixels(v) => sink.send_pixels(v),
            FlushPayload::Block(b) => sink.send_block(b),
        };
        match sent {
            Ok(()) => {
                self.mark_synced();
                Ok(())
            },
            Err(e) => Err(e),
        }
    }
}

impl DamageTracker {
    /// The position at row-major index `i`.
    pub open spec fn pos_at(&self, i: int) -> (usize, usize) {
        (((i % self.spec_width()) as usize), ((i / self.spec_width()) as usize))
    }

    /// Among the first `n` row-major positions, those whose snapshot color
    /// disagrees with `color`: the damage a fill with `color` creates, in
    /// the order the fill visits it. Empty before the first flush.
    pub open spec fn clear_damage_prefix(&self, color: u16, n: int) -> Seq<(usize, usize)>
        decreases n,
    {
        if n <= 0 {
            Seq::empty()
        } else if self.has_prev() && color != self.prev_grid()[n - 1] {
            self.clear_damage_prefix(color, n - 1).push(self.pos_at(n - 1))
        } else {
            self.clear_damage_prefix(color, n - 1)
        }
    }

    /// The damage a fill with `color` creates over the whole surface.
    pub open spec fn clear_damage(&self, color: u16) -> Seq<(usize, usize)> {
        self.clear_damage_prefix(color, self.spec_width() * self.spec_height())
    }
}

/// A fill with a color the panel already shows on each of the first `n`
/// positions creates no damage there, so a clear with it records nothing.
pub proof fn lemma_clear_damage_empty(t: DamageTracker, color: u16, n: int)
    requires
        forall|i: int| 0 <= i < n ==> t.has_prev() ==> #[trigger] t.prev_grid()[i] == color,
    ensures
        t.clear_damage_prefix(color, n).len() == 0,
    decreases n,
{
    if n > 0 {
        lemma_clear_damage_empty(t, color, n - 1);
    }
}

/// How `clear` changes the tracking state: exactly as one tracked write per
/// position, in row-major order. Positions already showing `color` on the
/// panel are not recorded at all. The bounding-box strategy's rectangle
/// takes in exactly the damaged positions; the pixel-list strategy appends
/// them in order while the list has room and raises the overflow flag once
/// one does not fit; the full-scan strategy records nothing.
pub open spec fn tracking_after_clear(
    pre: DamageTracker,
    post: DamageTracker,
    color: u16,
) -> bool {
    let damage = pre.clear_damage(color);
    let room = pre.spec_capacity() - pre.spec_dirty().len();
    &&& post.spec_bbox() == (if pre.spec_strategy() is BoundingBox {
        bbox_after_points(pre.spec_bbox(), damage)
    } else {
        pre.spec_bbox()
    })
    &&& post.spec_dirty() == (if pre.spec_strategy() is PixelList {
        pre.spec_dirty() + damage.take(min(room, damage.len() as int))
    } else {
        pre.spec_dirty()
    })
    &&& post.spec_overflowed() == (pre.spec_overflowed() || (pre.spec_strategy() is PixelList
        && damage.len() > room))
}

/// The tracking state part way through a fill: after the first `i` of the
/// per-position writes, the damage recorded beyond `orig`'s is exactly the
/// damage of the first `i` positions.
spec fn clear_step_state(orig: DamageTracker, cur: DamageTracker, color: u16, i: int) -> bool {
    let damage = orig.clear_damage_prefix(color, i);
    let room = orig.spec_capacity() - orig.spec_dirty().len();
    &&& cur.spec_bbox() == (if orig.spec_strategy() is BoundingBox {
        bbox_after_points(orig.spec_bbox(), damage)
    } else {
        orig.spec_bbox()
    })
    &&& cur.spec_dirty() == (if orig.spec_strategy() is PixelList {
        orig.spec_dirty() + damage.take(min(room, damage.len() as int))
    } else {
        orig.spec_dirty()
    })
    &&& cur.spec_overflowed() == (orig.spec_overflowed() || (orig.spec_strategy() is PixelList
        && damage.len() > room))
}

/// One tracked write at the next row-major position carries the part-way
/// fill state one step further.
proof fn lemma_clear_step(
    orig: DamageTracker,
    pre: DamageTracker,
    post: DamageTracker,
    color: u16,
    x: usize,
    y: usize,
)
    requires
        orig.wf(),
        pre.wf(),
        DamageTracker::same_config(orig, pre),
        pre.has_prev() == orig.has_prev(),
        pre.prev_grid() == orig.prev_grid(),
        x < orig.spec_width(),
        y < orig.spec_height(),
        clear_step_state(orig, pre, color, y * orig.spec_width() + x),
        DamageTracker::same_config(pre, post),
        post.has_prev() == pre.has_prev(),
        post.prev_grid() == pre.prev_grid(),
        tracking_after_write(pre, post, x, y, color),
    ensures
        clear_step_state(orig, post, color, y * orig.spec_width() + x + 1),
{
    let w = orig.spec_width();
    let i = y * w + x;
    lemma_grid_index_bounds(w, orig.spec_height(), x as int, y as int);
    assert(i % w == x && i / w == y) by (nonlinear_arith)
        requires
            i == y * w + x,
            0 <= x < w,
            0 <= y,
    ;
    assert(orig.pos_at(i) == (x, y));
    assert(pre.spec_index(x as int, y as int) == i);
    let dmg_i = orig.clear_damage_prefix(color, i);
    let dmg_i1 = orig.clear_damage_prefix(color, i + 1);
    let was_diff = pre.has_prev() && color != pre.prev_grid()[i];
    let room = orig.spec_capacity() - orig.spec_dirty().len();
    if was_diff {
        assert(dmg_i1 == dmg_i.push((x, y)));
        if orig.spec_strategy() is BoundingBox {
            assert(dmg_i1.drop_last() =~= dmg_i);
            assert(bbox_after_points(orig.spec_bbox(), dmg_i1) == bbox_take_in(
                bbox_after_points(orig.spec_bbox(), dmg_i),
                x,
                y,
            ));
        }
        if orig.spec_strategy() is PixelList {
            let m_i = min(room, dmg_i.len() as int);
            let m_i1 = min(room, dmg_i1.len() as int);
            assert(pre.spec_dirty().len() == orig.spec_dirty().len() + m_i);
            if pre.spec_dirty().len() < pre.spec_capacity() {
                assert(m_i < room);
                assert(m_i == dmg_i.len());
                assert(m_i1 == dmg_i.len() + 1);
                assert(dmg_i.take(dmg_i.len() as int) =~= dmg_i);
                assert(dmg_i1.take(m_i1) =~= dmg_i.push((x, y)));
                assert(orig.spec_dirty() + dmg_i1.take(m_i1) =~= (orig.spec_dirty() + dmg_i.take(
                    m_i,
                )).push((x, y)));
            } else {
                assert(m_i == room);
                assert(dmg_i.len() >= room);
                assert(m_i1 == room);
                assert(dmg_i1.take(room) =~= dmg_i.take(room));
            }
        }
    } else {
        assert(dmg_i1 == dmg_i);
    }
}

impl DamageTracker {
    /// Fill every position of the drawing surface with `color`, tracking
    /// each position like any other write: `tracking_after_clear` pins the
    /// resulting tracking state, so a fill with the color the panel already
    /// shows everywhere records no damage at all.
    pub fn clear(&mut self, color: u16)
        requires
            old(self).wf(),
        ensures
            final(self).wf(),
            DamageTracker::same_config(*old(self), *final(self)),
            final(self).has_prev() == old(self).has_prev(),
            final(self).prev_grid() == old(self).prev_grid(),
            final(self).spec_grid() == Seq::new(old(self).spec_grid().len(), |i: int| color),
            tracking_after_clear(*old(self), *final(self), color),
    {
        let (w, h) = self.current.size();
        let ghost n = old(self).spec_grid().len() as int;
        proof {
            assert(old(self).clear_damage_prefix(color, 0).take(0) =~= Seq::<
                (usize, usize),
            >::empty());
            assert(old(self).spec_dirty() + Seq::<(usize, usize)>::empty() =~= old(
                self,
            ).spec_dirty());
        }
        let mut y: usize = 0;
        while y < h
            invariant
                y <= h,
                w == self.spec_width(),
                h == self.spec_height(),
                old(self).wf(),
                self.wf(),
                DamageTracker::same_config(*old(self), *self),
                self.has_prev() == old(self).has_prev(),
                self.prev_grid() == old(self).prev_grid(),
                self.spec_grid().len() == n,
                forall|i: int| 0 <= i < y * w ==> self.spec_grid()[i] == color,
                clear_step_state(*old(self), *self, color, y * w),
            decreases h - y,
        {
            let mut x: usize = 0;
            while x < w
                invariant
                    x <= w,
                    y < h,
                    w == self.spec_width(),
                    h == self.spec_height(),
                    old(self).wf(),
                    self.wf(),
                    DamageTracker::same_config(*old(self), *self),
                    self.has_prev() == old(self).has_prev(),
                    self.prev_grid() == old(self).prev_grid(),
                    self.spec_grid().len() == n,
                    forall|i: int| 0 <= i < y * w + x ==> self.spec_grid()[i] == color,
                    clear_step_state(*old(self), *self, color, y * w + x),
                decreases w - x,
            {
                let ghost before = *self;
                self.write(x, y, color);
                proof {
                    lemma_grid_index_bounds(w as int, h as int, x as int, y as int);
                    lemma_clear_step(*old(self), before, *self, color, x, y);
                }
                x += 1;
            }
            proof {
                assert((y + 1) * w == y * w + w) by (nonlinear_arith);
            }
            y += 1;
        }
        proof {
            assert(h * w == n) by (nonlinear_arith)
                requires
                    n == w * h,
            ;
            assert(self.spec_grid() =~= Seq::new(old(self).spec_grid().len(), |i: int| color));
        }
    }

    /// Whether the device position `(dx, dy)` is brought up to date by
    /// payload `p`: either a positioned write carrying the drawn color for
    /// that position, or a block whose device rectangle takes it in.
    /// `x` and `y` are the position in surface space.
    pub open spec fn emission_covers(&self, p: PayloadModel, x: int, y: int) -> bool {
        match p {
            PayloadModel::Nothing => false,
            PayloadModel::Pixels(s) => s.contains(
                PixelWrite {
                    x: (self.spec_anchor_x() + x) as usize,
                    y: (self.spec_anchor_y() + y) as usize,
                    color: self.spec_grid()[self.spec_index(x, y)],
                },
            ),
            PayloadModel::Block { x: bx, y: by, width: bw, height: bh, .. } => {
                &&& bx <= self.spec_anchor_x() + x < bx + bw
                &&& by <= self.spec_anchor_y() + y < by + bh
            },
        }
    }

    /// Completeness, under every strategy: any position where the drawn
    /// surface disagrees with what the panel shows — and, before the first
    /// flush, every position — is carried by the emitted payload.
    pub proof fn lemma_emission_complete(t: DamageTracker, p: PayloadModel, x: int, y: int)
        requires
            t.wf(),
            t.valid_emission(p),
            t.in_bounds(x, y),
            t.has_prev() ==> t.differs(x, y),
        ensures
            t.emission_covers(p, x, y),
    {
        if !t.has_prev() {
            assert(t.spec_width() * t.spec_height() > 0) by (nonlinear_arith)
                requires
                    t.spec_width() >= 1,
                    t.spec_height() >= 1,
            ;
        }
    }

    /// A block emission carries every position it covers exactly: at the
    /// position's offset inside the block stand the two wire bytes of the
    /// drawn color, high byte first.
    pub proof fn lemma_block_carries_color(t: DamageTracker, p: PayloadModel, x: int, y: int)
        requires
            t.wf(),
            t.valid_emission(p),
            t.in_bounds(x, y),
            t.emission_covers(p, x, y),
            p is Block,
        ensures
            p matches PayloadModel::Block { x: bx, y: by, width: bw, bytes, .. } ==> {
                let k = (t.spec_anchor_y() + y - by) * bw + (t.spec_anchor_x() + x - bx);
                &&& 0 <= 2 * k + 1 < bytes.len()
                &&& bytes[2 * k] == crate::color::spec_color_hi(
                    t.spec_grid()[t.spec_index(x, y)],
                )
                &&& bytes[2 * k + 1] == crate::color::spec_color_lo(
                    t.spec_grid()[t.spec_index(x, y)],
                )
            },
    {
        let w = t.spec_width();
        let h = t.spec_height();
        let r = if !t.has_prev() {
            t.full_rect()
        } else {
            t.bbox_rect()
        };
        assert(p == t.block_emission(r));
        assert(w * r.bottom + r.right < w * h) by (nonlinear_arith)
            requires
                0 <= r.right < w,
                0 <= r.bottom < h,
        ;
        crate::payload::lemma_region_bytes_at(t.spec_grid(), w, r, x, y);
    }

    /// Idempotence: a tracker in the state a successful flush leaves behind
    /// emits zero bytes, so flushing twice with no intervening write sends
    /// nothing on the second flush.
    pub proof fn lemma_flushed_emits_zero(t: DamageTracker, p: PayloadModel)
        requires
            t.wf(),
            t.valid_emission(p),
            t.is_flushed(),
        ensures
            payload_byte_len(p) == 0,
    {
        match p {
            PayloadModel::Pixels(s) => {
                lemma_no_mismatch_means_empty(t, s);
            },
            _ => {},
        }
    }
}

impl DamageTracker {
    /// The drawn color at position `(x, y)`.
    pub fn get_pixel(&self, x: usize, y: usize) -> (c: u16)
        requires
            self.wf(),
            x < self.spec_width(),
            y < self.spec_height(),
        ensures
            c == self.spec_grid()[self.spec_index(x as int, y as int)],
    {
        self.current.get_pixel(x, y)
    }

    /// Whether a flush has ever completed.
    pub fn has_previous(&self) -> (r: bool)
        ensures
            r == self.has_prev(),
    {
        self.previous.is_some()
    }

    /// What the panel shows at position `(x, y)`, if a flush has ever
    /// completed.
    pub fn previous_pixel(&self, x: usize, y: usize) -> (r: Option<u16>)
        requires
            self.wf(),
            x < self.spec_width(),
            y < self.spec_height(),
        ensures
            self.has_prev() ==> r == Some(self.prev_grid()[self.spec_index(x as int, y as int)]),
            !self.has_prev() ==> r is None,
    {
        match &self.previous {
            Some(p) => Some(p.get_pixel(x, y)),
            None => None,
        }
    }

    /// How many positions the dirty list holds.
    pub fn dirty_len(&self) -> (n: usize)
        ensures
            n == self.spec_dirty().len(),
    {
        self.dirty.len()
    }

    /// Whether this frame outgrew the dirty list, forcing the next flush
    /// onto the full-scan path.
    pub fn is_overflowed(&self) -> (r: bool)
        ensures
            r == self.spec_overflowed(),
    {
        self.overflow
    }

    /// The running bounding rectangle, when one has been started.
    pub fn bounding_box(&self) -> (r: Option<Rect>)
        ensures
            self.has_bbox() ==> r == Some(self.bbox_rect()),
            !self.has_bbox() ==> r is None,
    {
        self.bbox
    }

    /// The configured strategy.
    pub fn strategy(&self) -> (s: Strategy)
        ensures
            s == self.spec_strategy(),
    {
        self.strategy
    }

    /// The configured dirty-list capacity.
    pub fn capacity(&self) -> (n: usize)
        ensures
            n == self.spec_capacity(),
    {
        self.capacity
    }
}

/// When the panel already shows the drawn surface, a sound pixel emission
/// has nothing in it.
proof fn lemma_no_mismatch_means_empty(t: DamageTracker, s: Seq<PixelWrite>)
    requires
        t.pixels_sound(s),
        t.has_prev(),
    ensures
        t.prev_grid() == t.spec_grid() ==> s.len() == 0,
{
    if t.prev_grid() == t.spec_grid() && s.len() > 0 {
        let px = s[0].x - t.spec_anchor_x();
        let py = s[0].y - t.spec_anchor_y();
        assert(t.differs(px, py));
    }
}

} // verus!
