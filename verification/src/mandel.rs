//! Mandelbrot engine: escape-time iteration counts over the whole raster,
//! with periodicity early-exit, zoom/recenter support, and an RGBA render
//! through the cyclic colour table.

use vstd::prelude::*;

use crate::argand::{Cplx, ImageSize, ZPlane, MAX_DIM};
use crate::fixed::{
    fx_add, fx_add_s, fx_clamp, fx_clip, fx_mul, fx_mul_s, fx_ok, fx_sub, fx_sub_s, FX_LIM,
    FX_ONE,
};
use crate::utils::{cmap_entry_s, colour_map, Rgba};

verus! {

/// Escape threshold: the squared magnitude 4 in fixed-point units.
pub const ESCAPE_FX: i64 = 0x400_0000;

/// Size of the Mandelbrot colour table.
pub const COLOUR_MAP_SIZE: usize = 1024;

/// The periodicity reference value is refreshed every 20 iterations.
pub const PERIOD_WINDOW: u32 = 20;

/// A square of a saturated product is never negative.
pub proof fn lemma_fx_square_nonneg(a: int)
    ensures
        fx_mul_s(a, a) >= 0,
{
    assert(a * a >= 0) by (nonlinear_arith);
}

/// One run of the escape-time loop from the given state: `z` the current
/// value, `r2`/`i2` its squared components, `(pr, pi)` the periodicity
/// reference, `it` the count so far. Returns the final iteration count.
/// An exact repeat of the reference value counts as proof of non-escape and
/// jumps the count to `depth - 1`.
pub open spec fn mandel_steps(
    zr: int,
    zi: int,
    r2: int,
    i2: int,
    pr: int,
    pi: int,
    period: int,
    it: int,
    cr: int,
    ci: int,
    depth: int,
) -> int
    decreases depth - it,
{
    if it < depth - 1 && r2 + i2 < ESCAPE_FX as int {
        let nzi = fx_add_s(fx_mul_s(fx_add_s(zr, zr), zi), ci);
        let nzr = fx_add_s(fx_sub_s(r2, i2), cr);
        let nr2 = fx_mul_s(nzr, nzr);
        let ni2 = fx_mul_s(nzi, nzi);
        if nzr == pr && nzi == pi {
            depth - 1
        } else if period + 1 > PERIOD_WINDOW as int {
            mandel_steps(nzr, nzi, nr2, ni2, nzr, nzi, 0, it + 1, cr, ci, depth)
        } else {
            mandel_steps(nzr, nzi, nr2, ni2, pr, pi, period + 1, it + 1, cr, ci, depth)
        }
    } else {
        it
    }
}

/// Escape-time count of the point `c`, starting from `z = 0`.
pub open spec fn mandel_count(cr: int, ci: int, depth: int) -> int {
    mandel_steps(0, 0, 0, 0, 0, 0, 0, 0, cr, ci, depth)
}

/// The count is never past the depth cap.
pub proof fn lemma_mandel_steps_le(
    zr: int,
    zi: int,
    r2: int,
    i2: int,
    pr: int,
    pi: int,
    period: int,
    it: int,
    cr: int,
    ci: int,
    depth: int,
)
    requires
        it <= depth - 1,
    ensures
        it <= mandel_steps(zr, zi, r2, i2, pr, pi, period, it, cr, ci, depth) <= depth - 1,
    decreases depth - it,
{
    if it < depth - 1 && r2 + i2 < ESCAPE_FX as int {
        let nzi = fx_add_s(fx_mul_s(fx_add_s(zr, zr), zi), ci);
        let nzr = fx_add_s(fx_sub_s(r2, i2), cr);
        let nr2 = fx_mul_s(nzr, nzr);
        let ni2 = fx_mul_s(nzi, nzi);
        if nzr == pr && nzi == pi {
        } else if period + 1 > PERIOD_WINDOW as int {
            lemma_mandel_steps_le(nzr, nzi, nr2, ni2, nzr, nzi, 0, it + 1, cr, ci, depth);
        } else {
            lemma_mandel_steps_le(nzr, nzi, nr2, ni2, pr, pi, period + 1, it + 1, cr, ci, depth);
        }
    }
}

/// Count of raster cell `i` of a plane, row-major.
pub open spec fn mandel_cell_s(z: ZPlane, i: int, depth: int) -> int {
    mandel_count(
        z.point_re_s(i % (z.size.0 as int)),
        z.point_im_s(i / (z.size.0 as int)),
        depth,
    )
}

/// Whole-buffer agreement with the escape-time counts.
pub open spec fn mandel_buf_ok(z: ZPlane, depth: int, cells: Seq<u16>) -> bool {
    &&& cells.len() == z.ncells()
    &&& forall|i: int| 0 <= i < z.ncells() ==> cells[i] as int == mandel_cell_s(z, i, depth)
}

/// One RGBA quad of the rendered image matches the colour-table entry of its
/// cell count, taken modulo the table size.
pub open spec fn pixel_match(img: Seq<u8>, cmap: Seq<Rgba>, count: int, i: int) -> bool {
    let e = cmap[count % (cmap.len() as int)];
    &&& img[4 * i] == e.r
    &&& img[4 * i + 1] == e.g
    &&& img[4 * i + 2] == e.b
    &&& img[4 * i + 3] == e.a
}

/// The Mandelbrot engine: a plane window, a depth cap, the cell buffer of
/// iteration counts, the colour table and the rendered RGBA image.
pub struct Mandel {
    pub z: ZPlane,
    pub depth: u16,
    pub cells: Vec<u16>,
    pub image: Vec<u8>,
    pub cmap: Vec<Rgba>,
}

impl Mandel {
    pub open spec fn wf(self) -> bool {
        &&& self.z.wf()
        &&& self.depth >= 1
        &&& self.cells@.len() == self.z.ncells()
        &&& self.image@.len() == 4 * self.z.ncells()
        &&& 1 <= self.cmap@.len() <= 65536
    }

    /// The cell buffer holds exactly the escape-time counts of the current
    /// plane and depth.
    pub open spec fn synced(self) -> bool {
        mandel_buf_ok(self.z, self.depth as int, self.cells@)
    }

    /// Escape-time count of one cell under the current plane and depth.
    fn iterate(&self, i: usize) -> (count: u16)
        requires
            self.z.wf(),
            self.depth >= 1,
            (i as int) < self.z.ncells(),
        ensures
            count as int == mandel_cell_s(self.z, i as int, self.depth as int),
            count < self.depth,
    {
        let c = self.z.point_from_index(i);
        let ghost target = mandel_count(c.re as int, c.im as int, self.depth as int);
        let depth: u16 = self.depth;
        let mut zr: i64 = 0;
        let mut zi: i64 = 0;
        let mut r2: i64 = 0;
        let mut i2: i64 = 0;
        let mut pr: i64 = 0;
        let mut pi: i64 = 0;
        let mut period: u32 = 0;
        let mut it: u16 = 0;
        proof {
            lemma_mandel_steps_le(0, 0, 0, 0, 0, 0, 0, 0, c.re as int, c.im as int, depth as int);
        }
        while it < depth - 1 && r2 + i2 < ESCAPE_FX
            invariant_except_break
                depth >= 1,
                fx_ok(c.re as int),
                fx_ok(c.im as int),
                fx_ok(zr as int),
                fx_ok(zi as int),
                0 <= r2 <= FX_LIM,
                0 <= i2 <= FX_LIM,
                fx_ok(pr as int),
                fx_ok(pi as int),
                it <= depth - 1,
                mandel_steps(
                    zr as int,
                    zi as int,
                    r2 as int,
                    i2 as int,
                    pr as int,
                    pi as int,
                    period as int,
                    it as int,
                    c.re as int,
                    c.im as int,
                    depth as int,
                ) == target,
                period <= PERIOD_WINDOW,
            ensures
                it as int == target,
                it <= depth - 1,
            decreases depth - it,
        {
            let t = fx_add(zr, zr);
            let nzi = fx_add(fx_mul(t, zi), c.im);
            let nzr = fx_add(fx_sub(r2, i2), c.re);
            proof {
                lemma_fx_square_nonneg(nzr as int);
                lemma_fx_square_nonneg(nzi as int);
            }
            let nr2 = fx_mul(nzr, nzr);
            let ni2 = fx_mul(nzi, nzi);
            zr = nzr;
            zi = nzi;
            r2 = nr2;
            i2 = ni2;
            it = it + 1;
            if zr == pr && zi == pi {
                it = depth - 1;
                break ;
            }
            period = period + 1;
            if period > PERIOD_WINDOW {
                period = 0;
                pr = zr;
                pi = zi;
            }
        }
        it
    }

    /// Recompute the whole cell buffer from the current plane and depth.
    #[verifier::loop_isolation(false)]
    pub fn draw(&mut self)
        requires
            old(self).z.wf(),
            old(self).depth >= 1,
        ensures
            final(self).z == old(self).z,
            final(self).depth == old(self).depth,
            final(self).image == old(self).image,
            final(self).cmap == old(self).cmap,
            final(self).synced(),
    {
        proof {
            assert(self.z.size.0 as int * (self.z.size.1 as int) <= 4096 * 4096)
                by (nonlinear_arith)
                requires
                    0 < self.z.size.0 as int <= 4096,
                    0 < self.z.size.1 as int <= 4096,
            ;
        }
        let n: usize = (self.z.size.0 as usize) * (self.z.size.1 as usize);
        let mut next: Vec<u16> = Vec::new();
        let mut i: usize = 0;
        while i < n
            invariant
                i <= n,
                next@.len() == i,
                forall|j: int|
                    0 <= j < i ==> next@[j] as int == mandel_cell_s(
                        self.z,
                        j,
                        self.depth as int,
                    ),
            decreases n - i,
        {
            let count = self.iterate(i);
            next.push(count);
            i = i + 1;
        }
        self.cells = next;
    }

    /// Build an engine over explicit bounds, depth and colour-table shape,
    /// and fill its cell buffer.
    pub fn custom(
        zmin: Cplx,
        zmax: Cplx,
        size: ImageSize,
        maxiter: u16,
        cmap_size: usize,
        cmap_cycles: (usize, usize, usize),
        alpha: u8,
    ) -> (m: Mandel)
        requires
            0 < size.0 <= MAX_DIM,
            0 < size.1 <= MAX_DIM,
            fx_ok(zmin.re as int),
            fx_ok(zmin.im as int),
            fx_ok(zmax.re as int),
            fx_ok(zmax.im as int),
            (zmin.re as int) < zmax.re as int,
            (zmin.im as int) < zmax.im as int,
            maxiter >= 1,
            2 <= cmap_size <= 65536,
            cmap_cycles.0 <= 1024,
            cmap_cycles.1 <= 1024,
            cmap_cycles.2 <= 1024,
        ensures
            m.wf(),
            m.z == (ZPlane { zmin, zmax, size }),
            m.depth == maxiter,
            m.synced(),
            m.cmap@.len() == cmap_size,
            forall|i: int|
                0 <= i < cmap_size ==> m.cmap@[i] == cmap_entry_s(
                    i,
                    cmap_cycles.0 as int,
                    cmap_cycles.1 as int,
                    cmap_cycles.2 as int,
                    alpha,
                    cmap_size as int,
                ),
            forall|i: int| 0 <= i < m.image@.len() ==> m.image@[i] == 0u8,
    {
        let z = ZPlane::new(zmin, zmax, size);
        let image = zero_image(size);
        let cmap = colour_map(cmap_size, cmap_cycles, alpha);
        let mut m = Mandel { z, depth: maxiter, cells: Vec::new(), image, cmap };
        m.draw();
        m
    }

    /// Build the standard view: real axis from -2 to 0.5, imaginary span
    /// scaled by the aspect ratio, 1024-entry colour table.
    pub fn new(width: u32, height: u32, maxiter: u16) -> (m: Mandel)
        requires
            0 < width <= MAX_DIM,
            0 < height <= MAX_DIM,
            maxiter >= 1,
        ensures
            m.wf(),
            m.depth == maxiter,
            m.z == standard_plane(width, height),
            m.synced(),
            m.cmap@.len() == COLOUR_MAP_SIZE,
            forall|i: int|
                0 <= i < COLOUR_MAP_SIZE ==> m.cmap@[i] == cmap_entry_s(
                    i,
                    3,
                    3,
                    1,
                    255,
                    COLOUR_MAP_SIZE as int,
                ),
    {
        // fit to width and adjust the imaginary span by the aspect ratio
        let ylim: i64 = (((YLIM_NUM as u64) * (height as u64)) / (width as u64)) as i64;
        proof {
            assert((YLIM_NUM as int) * (height as int) >= YLIM_NUM as int) by (nonlinear_arith)
                requires
                    height >= 1,
                    YLIM_NUM > 0,
            ;
            assert((YLIM_NUM as int) * (height as int) <= (YLIM_NUM as int) * 4096)
                by (nonlinear_arith)
                requires
                    1 <= height as int <= 4096,
                    YLIM_NUM > 0,
            ;
            assert((YLIM_NUM as int) * (height as int) / (width as int) >= 1) by (nonlinear_arith)
                requires
                    (YLIM_NUM as int) * (height as int) >= YLIM_NUM as int,
                    1 <= width as int <= 4096,
                    YLIM_NUM == 20971520,
            ;
        }
        let zmin = Cplx { re: -2 * FX_ONE, im: -ylim };
        let zmax = Cplx { re: FX_ONE / 2, im: ylim };
        Mandel::custom(zmin, zmax, (width, height), maxiter, COLOUR_MAP_SIZE, (3, 3, 1), 255)
    }

    /// The raw iteration counts, cloned.
    #[verifier::loop_isolation(false)]
    pub fn iterations(&self) -> (v: Vec<u16>)
        ensures
            v@ == self.cells@,
    {
        let n = self.cells.len();
        let mut v: Vec<u16> = Vec::new();
        let mut i: usize = 0;
        while i < n
            invariant
                i <= n,
                v@ == self.cells@.subrange(0, i as int),
            decreases n - i,
        {
            let x = self.cells[i];
            v.push(x);
            proof {
                assert(v@ =~= self.cells@.subrange(0, i + 1));
            }
            i = i + 1;
        }
        proof {
            assert(v@ =~= self.cells@);
        }
        v
    }

    /// The rendered RGBA bytes, cloned.
    #[verifier::loop_isolation(false)]
    pub fn raw_image(&self) -> (v: Vec<u8>)
        ensures
            v@ == self.image@,
    {
        let n = self.image.len();
        let mut v: Vec<u8> = Vec::new();
        let mut i: usize = 0;
        while i < n
            invariant
                i <= n,
                v@ == self.image@.subrange(0, i as int),
            decreases n - i,
        {
            let x = self.image[i];
            v.push(x);
            proof {
                assert(v@ =~= self.image@.subrange(0, i + 1));
            }
            i = i + 1;
        }
        proof {
            assert(v@ =~= self.image@);
        }
        v
    }

    /// Midpoint of the real axis, in fixed-point units.
    pub fn mid_r(&self) -> (r: i64)
        requires
            self.z.wf(),
        ensures
            r as int == self.z.zmin.re + self.z.span_re() / 2,
    {
        self.z.zmin.re + (((self.z.zmax.re - self.z.zmin.re) as u64) / 2) as i64
    }

    /// Midpoint of the imaginary axis, in fixed-point units.
    pub fn mid_i(&self) -> (r: i64)
        requires
            self.z.wf(),
        ensures
            r as int == self.z.zmin.im + self.z.span_im() / 2,
    {
        self.z.zmin.im + (((self.z.zmax.im - self.z.zmin.im) as u64) / 2) as i64
    }

    /// Width of the real-axis window, in fixed-point units.
    pub fn scale(&self) -> (r: i64)
        requires
            self.z.wf(),
        ensures
            r as int == self.z.span_re(),
    {
        self.z.zmax.re - self.z.zmin.re
    }

    /// Render the cell buffer through the colour table, modulo its size.
    #[verifier::loop_isolation(false)]
    pub fn render(&mut self)
        requires
            old(self).wf(),
        ensures
            final(self).z == old(self).z,
            final(self).depth == old(self).depth,
            final(self).cells == old(self).cells,
            final(self).cmap == old(self).cmap,
            final(self).wf(),
            forall|i: int|
                0 <= i < final(self).z.ncells() ==> pixel_match(
                    final(self).image@,
                    final(self).cmap@,
                    final(self).cells@[i] as int,
                    i,
                ),
    {
        let n: usize = self.cells.len();
        let mut img: Vec<u8> = Vec::new();
        let mut i: usize = 0;
        while i < n
            invariant
                i <= n,
                img@.len() == 4 * i,
                forall|j: int|
                    0 <= j < i ==> pixel_match(img@, self.cmap@, self.cells@[j] as int, j),
            decreases n - i,
        {
            let e = self.cmap[(self.cells[i] as usize) % self.cmap.len()];
            img.push(e.r);
            img.push(e.g);
            img.push(e.b);
            img.push(e.a);
            i = i + 1;
        }
        self.image = img;
    }

    /// The rendered RGBA buffer.
    pub fn image_buffer(&self) -> (v: &Vec<u8>)
        ensures
            v@ == self.image@,
    {
        &self.image
    }

    /// Recenter on the point of the given cell, shrink the span by the given
    /// fixed-point factor, and recompute the whole buffer.
    pub fn zoom(&mut self, row: u32, col: u32, factor: i64)
        requires
            old(self).wf(),
            (row as int) < old(self).z.size.1 as int,
            (col as int) < old(self).z.size.0 as int,
            factor >= 1,
            2 * (factor as int) <= old(self).z.span_re() * (FX_ONE as int),
            2 * (factor as int) <= old(self).z.span_im() * (FX_ONE as int),
        ensures
            final(self).depth == old(self).depth,
            final(self).image == old(self).image,
            final(self).cmap == old(self).cmap,
            final(self).z == zoom_plane_s(old(self).z, row as int, col as int, factor as int),
            final(self).z.wf(),
            final(self).synced(),
    {
        let c = self.z.point_from_rc((row, col));
        let dr = zoom_half_span(self.z.zmax.re - self.z.zmin.re, factor);
        let di = zoom_half_span(self.z.zmax.im - self.z.zmin.im, factor);
        let nzmin = Cplx { re: fx_clamp(c.re - dr), im: fx_clamp(c.im - di) };
        let nzmax = Cplx { re: fx_clamp(c.re + dr), im: fx_clamp(c.im + di) };
        self.z = ZPlane { zmin: nzmin, zmax: nzmax, size: self.z.size };
        self.draw();
    }
}

/// Determinism: two synced engines over the same window and depth hold
/// identical cell buffers, so redrawing with unchanged parameters
/// reproduces the buffer exactly.
pub proof fn lemma_mandel_redraw_identical(m1: Mandel, m2: Mandel)
    requires
        m1.synced(),
        m2.synced(),
        m1.z == m2.z,
        m1.depth == m2.depth,
    ensures
        m1.cells@ == m2.cells@,
{
    assert(m1.cells@ =~= m2.cells@);
}

/// 1.25 in fixed-point units: the standard view's imaginary half-span for a
/// square raster.
pub const YLIM_NUM: i64 = 20971520;

/// The plane window of the standard Mandelbrot view.
pub open spec fn standard_plane(width: u32, height: u32) -> ZPlane {
    let ylim = (YLIM_NUM as int) * (height as int) / (width as int);
    ZPlane {
        zmin: Cplx { re: (-2 * FX_ONE) as i64, im: (-ylim) as i64 },
        zmax: Cplx { re: (FX_ONE / 2) as i64, im: ylim as i64 },
        size: (width, height),
    }
}

/// Half of a span shrunk by a zoom factor, saturated into the fixed-point
/// range: `span / (2 * factor)` in value.
pub open spec fn zoom_half_span_s(span: int, factor: int) -> int {
    let d = span * (FX_ONE as int) / (2 * factor);
    if d > FX_LIM as int {
        FX_LIM as int
    } else {
        d
    }
}

/// The plane that a zoom at (row, col) with the given factor produces.
pub open spec fn zoom_plane_s(z: ZPlane, row: int, col: int, factor: int) -> ZPlane {
    let cre = z.point_re_s(col);
    let cim = z.point_im_s(row);
    let dr = zoom_half_span_s(z.span_re(), factor);
    let di = zoom_half_span_s(z.span_im(), factor);
    ZPlane {
        zmin: Cplx { re: fx_clip(cre - dr) as i64, im: fx_clip(cim - di) as i64 },
        zmax: Cplx { re: fx_clip(cre + dr) as i64, im: fx_clip(cim + di) as i64 },
        size: z.size,
    }
}

fn zoom_half_span(span: i64, factor: i64) -> (d: i64)
    requires
        0 < span <= 2 * (FX_LIM as int),
        factor >= 1,
        2 * (factor as int) <= (span as int) * (FX_ONE as int),
    ensures
        d as int == zoom_half_span_s(span as int, factor as int),
        1 <= d <= FX_LIM,
{
    proof {
        assert((span as int) * (FX_ONE as int) <= 2 * (FX_LIM as int) * (FX_ONE as int))
            by (nonlinear_arith)
            requires
                0 < span as int <= 2 * (FX_LIM as int),
                FX_ONE > 0,
        ;
        assert((span as int) * (FX_ONE as int) / (2 * (factor as int)) >= 1) by (nonlinear_arith)
            requires
                2 * (factor as int) <= (span as int) * (FX_ONE as int),
                factor >= 1,
        ;
    }
    let num: u128 = (span as u128) * (FX_ONE as u128);
    let den: u128 = 2 * (factor as u128);
    let d: u128 = num / den;
    if d > FX_LIM as u128 {
        FX_LIM
    } else {
        d as i64
    }
}

#[verifier::loop_isolation(false)]
pub fn zero_image(size: ImageSize) -> (v: Vec<u8>)
    requires
        0 < size.0 <= MAX_DIM,
        0 < size.1 <= MAX_DIM,
    ensures
        v@.len() == 4 * (size.0 as int * size.1 as int),
        forall|i: int| 0 <= i < v@.len() ==> v@[i] == 0u8,
{
    proof {
        assert(size.0 as int * size.1 as int <= 4096 * 4096) by (nonlinear_arith)
            requires
                0 < size.0 as int <= 4096,
                0 < size.1 as int <= 4096,
        ;
    }
    let n: usize = 4 * ((size.0 as usize) * (size.1 as usize));
    let mut v: Vec<u8> = Vec::new();
    let mut i: usize = 0;
    while i < n
        invariant
            i <= n,
            v@.len() == i,
            forall|j: int| 0 <= j < i ==> v@[j] == 0u8,
        decreases n - i,
    {
        v.push(0);
        i = i + 1;
    }
    v
}

} // verus!
