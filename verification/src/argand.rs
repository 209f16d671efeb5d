//! Plane mapper: a bounded window of the complex plane laid over a raster,
//! with the transforms between buffer indices, raster coordinates and
//! fixed-point plane points.

use vstd::prelude::*;

use crate::fixed::fx_ok;

verus! {

/// A complex value in fixed-point units (24 fractional bits).
#[derive(Clone, Copy, Debug, PartialEq, Eq, Structural)]
pub struct Cplx {
    pub re: i64,
    pub im: i64,
}

/// Raster width and height in cells.
pub type ImageSize = (u32, u32);

/// Largest raster dimension the engines accept.
pub const MAX_DIM: u32 = 4096;

/// A raster of `size.0 x size.1` cells laid over the complex-plane window
/// from `zmin` (bottom left) to `zmax` (top right). Cells are row-major:
/// index = row * width + col.
pub struct ZPlane {
    pub zmin: Cplx,
    pub zmax: Cplx,
    pub size: ImageSize,
}

impl ZPlane {
    /// Non-degenerate bounds, positive raster dimensions, values in range.
    pub open spec fn wf(self) -> bool {
        &&& 0 < self.size.0 <= MAX_DIM
        &&& 0 < self.size.1 <= MAX_DIM
        &&& fx_ok(self.zmin.re as int)
        &&& fx_ok(self.zmin.im as int)
        &&& fx_ok(self.zmax.re as int)
        &&& fx_ok(self.zmax.im as int)
        &&& (self.zmin.re as int) < self.zmax.re as int
        &&& (self.zmin.im as int) < self.zmax.im as int
    }

    pub open spec fn ncells(self) -> int {
        self.size.0 as int * self.size.1 as int
    }

    pub open spec fn span_re(self) -> int {
        self.zmax.re - self.zmin.re
    }

    pub open spec fn span_im(self) -> int {
        self.zmax.im - self.zmin.im
    }

    pub fn new(zmin: Cplx, zmax: Cplx, size: ImageSize) -> (p: ZPlane)
        requires
            0 < size.0 <= MAX_DIM,
            0 < size.1 <= MAX_DIM,
            fx_ok(zmin.re as int),
            fx_ok(zmin.im as int),
            fx_ok(zmax.re as int),
            fx_ok(zmax.im as int),
            (zmin.re as int) < zmax.re as int,
            (zmin.im as int) < zmax.im as int,
        ensures
            p == (ZPlane { zmin, zmax, size }),
            p.wf(),
    {
        ZPlane { zmin, zmax, size }
    }

    /// Row-major buffer index of a raster coordinate.
    pub fn index_from_rc(&self, rc: (u32, u32)) -> (idx: usize)
        requires
            self.wf(),
            (rc.0 as int) < self.size.1 as int,
            (rc.1 as int) < self.size.0 as int,
        ensures
            idx as int == rc.0 as int * self.size.0 as int + rc.1 as int,
            (idx as int) < self.ncells(),
    {
        proof {
            assert(rc.0 as int * self.size.0 as int + (rc.1 as int) < self.ncells())
                by (nonlinear_arith)
                requires
                    (rc.0 as int) < self.size.1 as int,
                    (rc.1 as int) < self.size.0 as int,
                    0 < self.size.0,
                    self.ncells() == self.size.0 as int * self.size.1 as int,
            ;
            assert(rc.0 as int * self.size.0 as int <= 4096 * 4096) by (nonlinear_arith)
                requires
                    0 <= rc.0 as int <= 4096,
                    0 < self.size.0 <= 4096,
            ;
        }
        (rc.0 as usize) * (self.size.0 as usize) + (rc.1 as usize)
    }

    /// Raster coordinate (row, col) of a row-major buffer index.
    pub fn rc_from_index(&self, idx: usize) -> (rc: (u32, u32))
        requires
            self.wf(),
            (idx as int) < self.ncells(),
        ensures
            rc.0 as int == idx as int / (self.size.0 as int),
            rc.1 as int == idx as int % (self.size.0 as int),
            (rc.0 as int) < self.size.1 as int,
            (rc.1 as int) < self.size.0 as int,
    {
        proof {
            assert(idx as int / (self.size.0 as int) < self.size.1 as int) by (nonlinear_arith)
                requires
                    0 <= idx as int,
                    (idx as int) < self.size.0 as int * self.size.1 as int,
                    0 < self.size.0,
            ;
        }
        let w = self.size.0 as usize;
        ((idx / w) as u32, (idx % w) as u32)
    }

    /// Real part of the plane point of a raster column: the least fixed-point
    /// value at least `zmin.re + col * span / width`.
    pub open spec fn point_re_s(self, col: int) -> int {
        self.zmin.re + (col * self.span_re() + self.size.0 - 1) / (self.size.0 as int)
    }

    /// Imaginary part of the plane point of a raster row.
    pub open spec fn point_im_s(self, row: int) -> int {
        self.zmin.im + (row * self.span_im() + self.size.1 - 1) / (self.size.1 as int)
    }

    /// Plane point of a raster coordinate (row, col).
    pub fn point_from_rc(&self, rc: (u32, u32)) -> (z: Cplx)
        requires
            self.wf(),
            (rc.0 as int) < self.size.1 as int,
            (rc.1 as int) < self.size.0 as int,
        ensures
            z.re as int == self.point_re_s(rc.1 as int),
            z.im as int == self.point_im_s(rc.0 as int),
            fx_ok(z.re as int),
            fx_ok(z.im as int),
            (self.zmin.re as int) <= z.re as int <= self.zmax.re as int,
            (self.zmin.im as int) <= z.im as int <= self.zmax.im as int,
    {
        let re = axis_point(self.zmin.re, self.zmax.re, self.size.0, rc.1);
        let im = axis_point(self.zmin.im, self.zmax.im, self.size.1, rc.0);
        Cplx { re, im }
    }

    /// Column that a real part falls in: floor((re - zmin.re) * width / span),
    /// saturated below at 0 and above at `u32::MAX`.
    pub open spec fn col_from_re_s(self, re: int) -> int {
        if re <= self.zmin.re {
            0
        } else {
            let q = (re - self.zmin.re) * (self.size.0 as int) / self.span_re();
            if q > u32::MAX as int {
                u32::MAX as int
            } else {
                q
            }
        }
    }

    /// Row that an imaginary part falls in.
    pub open spec fn row_from_im_s(self, im: int) -> int {
        if im <= self.zmin.im {
            0
        } else {
            let q = (im - self.zmin.im) * (self.size.1 as int) / self.span_im();
            if q > u32::MAX as int {
                u32::MAX as int
            } else {
                q
            }
        }
    }

    /// Raster coordinate (row, col) nearest below a plane point. No upper
    /// clamping: callers must keep points inside the window.
    pub fn rc_from_point(&self, z: &Cplx) -> (rc: (u32, u32))
        requires
            self.wf(),
            fx_ok(z.re as int),
            fx_ok(z.im as int),
        ensures
            rc.0 as int == self.row_from_im_s(z.im as int),
            rc.1 as int == self.col_from_re_s(z.re as int),
    {
        let col = axis_cell(self.zmin.re, self.zmax.re, self.size.0, z.re);
        let row = axis_cell(self.zmin.im, self.zmax.im, self.size.1, z.im);
        (row, col)
    }

    /// Buffer index under a plane point; callers must keep the point inside
    /// the window, as the raw mapping does no upper clamping.
    pub fn index_from_point(&self, z: &Cplx) -> (idx: usize)
        requires
            self.wf(),
            fx_ok(z.re as int),
            fx_ok(z.im as int),
            self.row_from_im_s(z.im as int) < self.size.1 as int,
            self.col_from_re_s(z.re as int) < self.size.0 as int,
        ensures
            idx as int == self.row_from_im_s(z.im as int) * self.size.0 as int
                + self.col_from_re_s(z.re as int),
            (idx as int) < self.ncells(),
    {
        let rc = self.rc_from_point(z);
        self.index_from_rc(rc)
    }

    /// Raster coordinate of the cell nearest a plane point, clamped into
    /// `[0,height) x [0,width)` (never wrapped).
    pub open spec fn rc_near_s(self, zre: int, zim: int) -> (int, int) {
        let row = self.row_from_im_s(zim);
        let col = self.col_from_re_s(zre);
        (
            if row >= self.size.1 as int { self.size.1 - 1 } else { row },
            if col >= self.size.0 as int { self.size.0 - 1 } else { col },
        )
    }

    /// Buffer index of the cell nearest a plane point, always in range.
    pub open spec fn index_near_s(self, zre: int, zim: int) -> int {
        let rc = self.rc_near_s(zre, zim);
        rc.0 * self.size.0 + rc.1
    }

    pub fn index_near_point(&self, z: &Cplx) -> (idx: usize)
        requires
            self.wf(),
            fx_ok(z.re as int),
            fx_ok(z.im as int),
        ensures
            idx as int == self.index_near_s(z.re as int, z.im as int),
            (idx as int) < self.ncells(),
    {
        let (row0, col0) = self.rc_from_point(z);
        let row = if row0 >= self.size.1 {
            self.size.1 - 1
        } else {
            row0
        };
        let col = if col0 >= self.size.0 {
            self.size.0 - 1
        } else {
            col0
        };
        self.index_from_rc((row, col))
    }

    /// Plane point of a buffer index.
    pub fn point_from_index(&self, idx: usize) -> (z: Cplx)
        requires
            self.wf(),
            (idx as int) < self.ncells(),
        ensures
            z.re as int == self.point_re_s(idx as int % (self.size.0 as int)),
            z.im as int == self.point_im_s(idx as int / (self.size.0 as int)),
            fx_ok(z.re as int),
            fx_ok(z.im as int),
    {
        let rc = self.rc_from_index(idx);
        self.point_from_rc(rc)
    }
}

/// One axis of `point_from_rc`: `minv + ceil(c * span / w)`, which stays
/// inside `[minv, maxv]`.
fn axis_point(minv: i64, maxv: i64, w: u32, c: u32) -> (r: i64)
    requires
        fx_ok(minv as int),
        fx_ok(maxv as int),
        (minv as int) < maxv as int,
        0 < w <= MAX_DIM,
        (c as int) < w as int,
    ensures
        r as int == minv + (c as int * (maxv - minv) + w - 1) / (w as int),
        (minv as int) <= r as int <= maxv as int,
{
    let span: u64 = (maxv - minv) as u64;
    proof {
        assert(c as int * (span as int) <= 4096 * 0x200_0000_0000) by (nonlinear_arith)
            requires
                0 <= c as int <= 4096,
                0 <= span as int <= 0x200_0000_0000,
        ;
    }
    let num: u64 = (c as u64) * span + (w as u64 - 1);
    proof {
        // The ceiling offset never exceeds the span.
        assert((c as int * (span as int) + w - 1) / (w as int) <= span as int)
            by (nonlinear_arith)
            requires
                0 < w as int,
                0 < span as int,
                0 <= c as int,
                (c as int) < w as int,
        ;
        assert((c as int * (span as int) + w - 1) / (w as int) >= 0) by (nonlinear_arith)
            requires
                0 < w as int,
                0 < span as int,
                0 <= c as int,
        ;
    }
    let off: u64 = num / (w as u64);
    minv + (off as i64)
}

/// One axis of `rc_from_point`: floor((v - minv) * w / span), saturated into
/// `[0, u32::MAX]` exactly as a float-to-unsigned conversion would be.
fn axis_cell(minv: i64, maxv: i64, w: u32, v: i64) -> (r: u32)
    requires
        fx_ok(minv as int),
        fx_ok(maxv as int),
        fx_ok(v as int),
        (minv as int) < maxv as int,
        0 < w <= MAX_DIM,
    ensures
        r as int == ({
            let q = (v - minv) * (w as int) / (maxv - minv);
            if v <= minv {
                0int
            } else if q > u32::MAX as int {
                u32::MAX as int
            } else {
                q
            }
        }),
{
    if v <= minv {
        return 0;
    }
    let dif: u64 = (v - minv) as u64;
    let span: u64 = (maxv - minv) as u64;
    proof {
        assert(dif as int * (w as int) <= 0x400_0000_0000 * 4096) by (nonlinear_arith)
            requires
                0 <= dif as int <= 0x400_0000_0000,
                0 < w as int <= 4096,
        ;
        assert(dif as int * (w as int) / (span as int) >= 0) by (nonlinear_arith)
            requires
                0 < span as int,
                0 <= dif as int,
                0 < w as int,
        ;
    }
    let q: u64 = dif * (w as u64) / span;
    if q > u32::MAX as u64 {
        u32::MAX
    } else {
        q as u32
    }
}

/// Round trip of one axis: the cell representative point maps back to the
/// same cell whenever the axis spans at least one fixed-point unit per cell.
proof fn lemma_axis_round_trip(minv: int, maxv: int, w: int, c: int)
    requires
        minv < maxv,
        0 < w,
        w <= maxv - minv,
        0 <= c < w,
    ensures
        c == 0 ==> (c * (maxv - minv) + w - 1) / w == 0,
        c > 0 ==> (c * (maxv - minv) + w - 1) / w >= 1,
        c > 0 ==> ((c * (maxv - minv) + w - 1) / w) * w / (maxv - minv) == c,
{
    let span = maxv - minv;
    let off = (c * span + w - 1) / w;
    if c == 0 {
        assert((0 * span + w - 1) / w == 0) by (nonlinear_arith)
            requires
                0 < w,
        ;
    } else {
        // ceil bracket: c * span <= off * w <= c * span + w - 1.
        assert(c * span <= off * w && off * w <= c * span + w - 1) by (nonlinear_arith)
            requires
                off == (c * span + w - 1) / w,
                0 < w,
                0 <= c,
                0 < span,
        ;
        assert(off >= 1) by (nonlinear_arith)
            requires
                off * w >= c * span,
                1 <= c,
                w <= span,
                0 < w,
        ;
        assert(off * w / span == c) by (nonlinear_arith)
            requires
                c * span <= off * w,
                off * w <= c * span + w - 1,
                w <= span,
                0 < span,
                0 < w,
                0 <= c,
        ;
    }
}

/// Mapping a raster cell to its plane point and back returns the very same
/// cell, whenever each raster cell covers at least one fixed-point unit on
/// both axes.
pub proof fn lemma_rc_point_round_trip(p: ZPlane, row: u32, col: u32)
    requires
        p.wf(),
        (row as int) < p.size.1 as int,
        (col as int) < p.size.0 as int,
        p.size.0 as int <= p.span_re(),
        p.size.1 as int <= p.span_im(),
    ensures
        p.col_from_re_s(p.point_re_s(col as int)) == col as int,
        p.row_from_im_s(p.point_im_s(row as int)) == row as int,
{
    lemma_axis_round_trip(p.zmin.re as int, p.zmax.re as int, p.size.0 as int, col as int);
    lemma_axis_round_trip(p.zmin.im as int, p.zmax.im as int, p.size.1 as int, row as int);
    let offc = (col as int * p.span_re() + p.size.0 - 1) / (p.size.0 as int);
    if col == 0 {
        assert(p.point_re_s(col as int) == p.zmin.re);
    } else {
        assert(p.point_re_s(col as int) - p.zmin.re == offc);
        assert(offc * (p.size.0 as int) / p.span_re() == col as int);
    }
    let offr = (row as int * p.span_im() + p.size.1 - 1) / (p.size.1 as int);
    if row == 0 {
        assert(p.point_im_s(row as int) == p.zmin.im);
    } else {
        assert(p.point_im_s(row as int) - p.zmin.im == offr);
        assert(offr * (p.size.1 as int) / p.span_im() == row as int);
    }
}

} // verus!
