//! What a flush hands to the output sink: nothing, a batch of positioned
//! pixel writes, or one rectangular block of serialized pixel data.

use vstd::prelude::*;

use crate::color::{spec_color_hi, spec_color_lo};
use crate::rect::Rect;
use crate::surface::PixelSurface;

verus! {

/// One positioned pixel write, in device-space coordinates.
#[derive(Clone, Copy, PartialEq, Eq, Structural, Debug)]
pub struct PixelWrite {
    pub x: usize,
    pub y: usize,
    pub color: u16,
}

/// One rectangular block transfer: `bytes` holds `width * height` packed
/// colors, row-major, two bytes per pixel with the high byte first, to be
/// shown with its top-left corner at device position `(x, y)`.
#[derive(Debug)]
pub struct BlockTransfer {
    pub x: usize,
    pub y: usize,
    pub width: usize,
    pub height: usize,
    pub bytes: Vec<u8>,
}

/// Everything a single flush sends across the bus.
#[derive(Debug)]
pub enum FlushPayload {
    /// Nothing changed: zero bytes cross the bus.
    Nothing,
    /// Discrete positioned pixel writes.
    Pixels(Vec<PixelWrite>),
    /// One contiguous rectangular block.
    Block(BlockTransfer),
}

/// Mathematical model of a payload.
pub enum PayloadModel {
    Nothing,
    Pixels(Seq<PixelWrite>),
    Block { x: usize, y: usize, width: usize, height: usize, bytes: Seq<u8> },
}

impl BlockTransfer {
    /// Model of a block transfer.
    pub open spec fn model(&self) -> PayloadModel {
        PayloadModel::Block {
            x: self.x,
            y: self.y,
            width: self.width,
            height: self.height,
            bytes: self.bytes@,
        }
    }
}

impl View for FlushPayload {
    type V = PayloadModel;

    open spec fn view(&self) -> PayloadModel {
        match self {
            FlushPayload::Nothing => PayloadModel::Nothing,
            FlushPayload::Pixels(v) => PayloadModel::Pixels(v@),
            FlushPayload::Block(b) => b.model(),
        }
    }
}

/// How many data bytes a payload carries across the bus: two per positioned
/// pixel write, and the block's own length for a block.
pub open spec fn payload_byte_len(p: PayloadModel) -> int {
    match p {
        PayloadModel::Nothing => 0,
        PayloadModel::Pixels(s) => 2 * s.len() as int,
        PayloadModel::Block { bytes, .. } => bytes.len() as int,
    }
}

/// The packed colors of grid `g` (row length `w`) inside rectangle `r`,
/// row-major.
pub open spec fn region_pixels(g: Seq<u16>, w: int, r: Rect) -> Seq<u16>
    recommends
        r.wf(),
{
    Seq::new(
        (r.spec_width() * r.spec_height()) as nat,
        |k: int| g[(r.top + k / r.spec_width()) * w + r.left + k % r.spec_width()],
    )
}

/// The wire bytes of a sequence of packed colors: two bytes per color,
/// high byte first.
pub open spec fn bytes_of_colors(ps: Seq<u16>) -> Seq<u8> {
    Seq::new(
        2 * ps.len(),
        |i: int|
            if i % 2 == 0 {
                spec_color_hi(ps[i / 2])
            } else {
                spec_color_lo(ps[i / 2])
            },
    )
}

/// The serialized form of the rectangle `r` of grid `g`.
pub open spec fn region_bytes(g: Seq<u16>, w: int, r: Rect) -> Seq<u8> {
    bytes_of_colors(region_pixels(g, w, r))
}

/// Serializing one more color appends exactly its two wire bytes.
proof fn lemma_bytes_of_colors_push(ps: Seq<u16>, c: u16)
    ensures
        bytes_of_colors(ps.push(c)) == bytes_of_colors(ps).push(spec_color_hi(c)).push(
            spec_color_lo(c),
        ),
{
    let lhs = bytes_of_colors(ps.push(c));
    let rhs = bytes_of_colors(ps).push(spec_color_hi(c)).push(spec_color_lo(c));
    assert forall|i: int| 0 <= i < lhs.len() implies lhs[i] == rhs[i] by {
        let n = ps.len() as int;
        if i < 2 * n {
            assert(i / 2 < n) by (nonlinear_arith)
                requires
                    0 <= i < 2 * n,
            ;
            assert(ps.push(c)[i / 2] == ps[i / 2]);
        } else if i == 2 * n {
            assert(i % 2 == 0 && i / 2 == n) by (nonlinear_arith)
                requires
                    i == 2 * n,
                    n >= 0,
            ;
        } else {
            assert(i % 2 == 1 && i / 2 == n) by (nonlinear_arith)
                requires
                    i == 2 * n + 1,
                    n >= 0,
            ;
        }
    }
    assert(lhs =~= rhs);
}

/// The serialized rectangle carries every position it covers exactly: at
/// the position's offset inside the block stand the two wire bytes of the
/// grid's color there, high byte first.
pub proof fn lemma_region_bytes_at(g: Seq<u16>, w: int, r: Rect, x: int, y: int)
    requires
        r.wf(),
        r.contains(x, y),
        r.right < w,
        w * r.bottom + r.right < g.len(),
    ensures
        ({
            let k = (y - r.top) * r.spec_width() + (x - r.left);
            &&& 0 <= 2 * k + 1 < region_bytes(g, w, r).len()
            &&& region_bytes(g, w, r)[2 * k] == spec_color_hi(g[y * w + x])
            &&& region_bytes(g, w, r)[2 * k + 1] == spec_color_lo(g[y * w + x])
        }),
{
    let rw = r.spec_width();
    let rh = r.spec_height();
    let dx = x - r.left;
    let dy = y - r.top;
    let k = dy * rw + dx;
    assert(0 <= k < rw * rh && k / rw == dy && k % rw == dx) by (nonlinear_arith)
        requires
            k == dy * rw + dx,
            0 <= dx < rw,
            0 <= dy < rh,
    ;
    let rp = region_pixels(g, w, r);
    assert((2 * k) % 2 == 0 && (2 * k) / 2 == k && (2 * k + 1) % 2 == 1 && (2 * k + 1) / 2 == k)
        by (nonlinear_arith)
        requires
            k >= 0,
    ;
    assert(y * w + x <= w * r.bottom + r.right) by (nonlinear_arith)
        requires
            y <= r.bottom,
            x <= r.right,
            w > 0,
    ;
    assert(y * w + x >= 0) by (nonlinear_arith)
        requires
            x >= 0,
            y >= 0,
            w > 0,
    ;
    assert(rp[k] == g[(r.top + dy) * w + r.left + dx]);
    assert((r.top + dy) * w + r.left + dx == y * w + x) by (nonlinear_arith)
        requires
            r.top + dy == y,
            r.left + dx == x,
    ;
}

/// Serialize the rectangle `r` of `surface` into wire bytes: row-major,
/// two bytes per pixel, high byte first.
pub fn serialize_region(surface: &PixelSurface, r: &Rect) -> (out: Vec<u8>)
    requires
        surface.wf(),
        r.wf(),
        r.right < surface.spec_width(),
        r.bottom < surface.spec_height(),
    ensures
        out@ == region_bytes(surface@, surface.spec_width(), *r),
        out@.len() == 2 * (r.spec_width() * r.spec_height()),
{
    proof {
        assert(surface.spec_width() <= surface.spec_width() * surface.spec_height()
            && surface.spec_height() <= surface.spec_width() * surface.spec_height())
            by (nonlinear_arith)
            requires
                surface.spec_width() >= 1,
                surface.spec_height() >= 1,
        ;
    }
    let rw: usize = r.width();
    let rh: usize = r.height();
    let ghost g = surface@;
    let ghost w = surface.spec_width();
    let ghost rp = region_pixels(g, w, *r);
    proof {
        assert(rw * rh <= surface.spec_width() * surface.spec_height()) by (nonlinear_arith)
            requires
                0 < rw <= surface.spec_width(),
                0 < rh <= surface.spec_height(),
        ;
        assert(rp.len() == rw * rh);
    }
    let count: usize = rw * rh;
    let mut out: Vec<u8> = Vec::new();
    let mut k: usize = 0;
    while k < count
        invariant
            k <= count,
            count == rw * rh,
            rw == r.spec_width(),
            rh == r.spec_height(),
            surface.wf(),
            r.wf(),
            r.right < surface.spec_width(),
            r.bottom < surface.spec_height(),
            g == surface@,
            w == surface.spec_width(),
            rp == region_pixels(g, w, *r),
            rp.len() == count,
            out@ == bytes_of_colors(rp.take(k as int)),
        decreases count - k,
    {
        let px: usize = k % rw;
        let py: usize = k / rw;
        proof {
            assert(py < rh && px < rw) by (nonlinear_arith)
                requires
                    k < rw * rh,
                    rw > 0,
                    rh > 0,
                    px == k as int % rw as int,
                    py == k as int / rw as int,
            ;
        }
        let c: u16 = surface.get_pixel(r.left + px, r.top + py);
        proof {
            assert(rp[k as int] == g[(r.top + py) * w + r.left + px]);
            assert(rp.take(k as int + 1) =~= rp.take(k as int).push(rp[k as int]));
            lemma_bytes_of_colors_push(rp.take(k as int), c);
        }
        let (hi, lo) = crate::color::color_to_bytes(c);
        out.push(hi);
        out.push(lo);
        k += 1;
    }
    proof {
        assert(rp.take(count as int) =~= rp);
    }
    out
}

} // verus!
