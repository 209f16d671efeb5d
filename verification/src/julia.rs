//! Julia escape-time engine: per-cell escape counts seeded at the cell's own
//! plane point, the moving parameter `c` pulled toward an attractor, plane
//! symmetry exploited to compute only half the buffer, and a Mandelbrot
//! membership mask used to cut the depth when `c` sits inside the set.

use vstd::prelude::*;

use crate::argand::{Cplx, ZPlane, MAX_DIM};
use crate::fixed::{
    fx_add, fx_add_s, fx_mul, fx_mul_s, fx_ok, fx_sub, fx_sub_s, fx_tdiv, FX_LIM, FX_ONE,
};
use crate::mandel::{
    lemma_fx_square_nonneg, mandel_cell_s, pixel_match, zero_image, Mandel, ESCAPE_FX,
};
use crate::utils::{cmap_entry_s, colour_map, Rgba};

verus! {

/// Nominal maximum count; every promoted cell reports this value.
pub const MAXITER: u8 = 254;

/// Reduced depth cap used while `c` sits inside the Mandelbrot set.
pub const MAXITER_INSIDE: u8 = 63;

/// Speed at which `c` is pulled toward the attractor: 0.01 in fixed-point
/// units.
pub const SPEED_FX: i64 = 167772;

/// Depth of the auxiliary Mandelbrot render behind the membership mask.
pub const MASK_DEPTH: u16 = 512;

/// Size of the Julia colour table and of the mask render's colour table.
pub const JULIA_CMAP_SIZE: usize = 512;

/// The Julia escape-time loop: seeded at the cell's point, it runs until the
/// squared magnitude leaves the threshold or the cap is reached.
pub open spec fn julia_steps(
    zr: int,
    zi: int,
    r2: int,
    i2: int,
    it: int,
    cr: int,
    ci: int,
    maxiter: int,
) -> int
    decreases maxiter - it,
{
    if r2 + i2 < ESCAPE_FX as int && it < maxiter {
        let nzi = fx_add_s(fx_mul_s(fx_add_s(zr, zr), zi), ci);
        let nzr = fx_add_s(fx_sub_s(r2, i2), cr);
        julia_steps(nzr, nzi, fx_mul_s(nzr, nzr), fx_mul_s(nzi, nzi), it + 1, cr, ci, maxiter)
    } else {
        it
    }
}

/// Count of a Julia orbit seeded at `z`, with a count that reaches the cap
/// promoted to the nominal maximum so colours stay consistent across frames.
pub open spec fn julia_count(zr: int, zi: int, cr: int, ci: int, maxiter: int) -> int {
    let raw = julia_steps(
        zr,
        zi,
        fx_mul_s(zr, zr),
        fx_mul_s(zi, zi),
        0,
        cr,
        ci,
        maxiter,
    );
    if raw >= maxiter {
        MAXITER as int
    } else {
        raw
    }
}

/// The raw count never passes the cap.
pub proof fn lemma_julia_steps_le(
    zr: int,
    zi: int,
    r2: int,
    i2: int,
    it: int,
    cr: int,
    ci: int,
    maxiter: int,
)
    requires
        0 <= it <= maxiter,
    ensures
        it <= julia_steps(zr, zi, r2, i2, it, cr, ci, maxiter) <= maxiter,
    decreases maxiter - it,
{
    if r2 + i2 < ESCAPE_FX as int && it < maxiter {
        let nzi = fx_add_s(fx_mul_s(fx_add_s(zr, zr), zi), ci);
        let nzr = fx_add_s(fx_sub_s(r2, i2), cr);
        lemma_julia_steps_le(
            nzr,
            nzi,
            fx_mul_s(nzr, nzr),
            fx_mul_s(nzi, nzi),
            it + 1,
            cr,
            ci,
            maxiter,
        );
    }
}

/// The index whose orbit is actually computed for buffer slot `i`: slots in
/// the upper half mirror the point-reflected slot of the lower half.
pub open spec fn mirror_idx(i: int, n: int) -> int {
    if 2 * i < n {
        i
    } else {
        n - 1 - i
    }
}

/// Count of buffer slot `i`: the direct orbit of the mirrored slot's point.
pub open spec fn julia_cell_s(z: ZPlane, i: int, cr: int, ci: int, maxiter: int) -> int {
    let j = mirror_idx(i, z.ncells());
    julia_count(
        z.point_re_s(j % (z.size.0 as int)),
        z.point_im_s(j / (z.size.0 as int)),
        cr,
        ci,
        maxiter,
    )
}

/// The membership mask records which cells of an auxiliary Mandelbrot render
/// over the same window reached the mask depth.
pub open spec fn mask_ok(z: ZPlane, inside: Seq<bool>) -> bool {
    &&& inside.len() == z.ncells()
    &&& forall|i: int|
        0 <= i < z.ncells() ==> (inside[i] <==> mandel_cell_s(z, i, MASK_DEPTH as int)
            == MASK_DEPTH - 1)
}

/// The colour table of the auxiliary Mandelbrot background render.
pub open spec fn mask_cmap_s() -> Seq<Rgba> {
    Seq::new(512, |i: int| cmap_entry_s(i, 2, 2, 2, 255, 512))
}

/// The background image is the auxiliary Mandelbrot render of the window.
pub open spec fn background_ok(z: ZPlane, overlay: Seq<u8>) -> bool {
    &&& overlay.len() == 4 * z.ncells()
    &&& forall|i: int|
        0 <= i < z.ncells() ==> pixel_match(
            overlay,
            mask_cmap_s(),
            mandel_cell_s(z, i, MASK_DEPTH as int),
            i,
        )
}

/// Clamp one component of `c` into an axis interval, high bound first.
pub open spec fn clamp_axis_s(v: int, lo: int, hi: int) -> int {
    let v1 = if v > hi {
        hi
    } else {
        v
    };
    if v1 < lo {
        lo
    } else {
        v1
    }
}

/// Where one tick moves `c`: a step of `SPEED_FX` toward the attractor,
/// then a clamp of each component into the plane bounds.
pub open spec fn tick_c_s(c: Cplx, a: Cplx, z: ZPlane) -> (int, int) {
    let nre = fx_add_s(c.re as int, fx_mul_s(fx_sub_s(a.re as int, c.re as int), SPEED_FX as int));
    let nim = fx_add_s(c.im as int, fx_mul_s(fx_sub_s(a.im as int, c.im as int), SPEED_FX as int));
    (
        clamp_axis_s(nre, z.zmin.re as int, z.zmax.re as int),
        clamp_axis_s(nim, z.zmin.im as int, z.zmax.im as int),
    )
}

/// All four RGBA bytes of cell `i` hold the marker colour.
pub open spec fn marker_black(img: Seq<u8>, i: int) -> bool {
    &&& img[4 * i] == 0u8
    &&& img[4 * i + 1] == 0u8
    &&& img[4 * i + 2] == 0u8
    &&& img[4 * i + 3] == 255u8
}

/// The Julia engine: plane window, moving parameter `c`, attractor `a`,
/// cell buffer, colour table, rendered image, plus the Mandelbrot
/// background image and membership mask computed once at construction.
pub struct Julia {
    pub z: ZPlane,
    pub c: Cplx,
    pub a: Cplx,
    pub cells: Vec<u8>,
    pub image: Vec<u8>,
    pub cmap: Vec<Rgba>,
    pub overlay_image: Vec<u8>,
    pub inside_mandel: Vec<bool>,
}

impl Julia {
    pub open spec fn wf(self) -> bool {
        &&& self.z.wf()
        &&& fx_ok(self.c.re as int)
        &&& fx_ok(self.c.im as int)
        &&& fx_ok(self.a.re as int)
        &&& fx_ok(self.a.im as int)
        &&& self.cells@.len() == self.z.ncells()
        &&& self.image@.len() == 4 * self.z.ncells()
        &&& self.cmap@.len() == JULIA_CMAP_SIZE
        &&& self.inside_mandel@.len() == self.z.ncells()
        &&& self.overlay_image@.len() == 4 * self.z.ncells()
    }

    /// The depth cap of the current frame: reduced while `c` sits in a cell
    /// the mask marks as interior.
    pub open spec fn eff_maxiter_s(self) -> int {
        if self.inside_mandel@[self.z.index_near_s(self.c.re as int, self.c.im as int)] {
            MAXITER_INSIDE as int
        } else {
            MAXITER as int
        }
    }

    /// The cell buffer holds exactly the per-cell counts of the current
    /// frame parameters.
    pub open spec fn synced(self) -> bool {
        &&& self.cells@.len() == self.z.ncells()
        &&& forall|i: int|
            0 <= i < self.z.ncells() ==> self.cells@[i] as int == julia_cell_s(
                self.z,
                i,
                self.c.re as int,
                self.c.im as int,
                self.eff_maxiter_s(),
            )
    }

    /// Direct escape-time count of cell `i` under the given cap.
    fn iterate(&self, i: usize, maxiter: u8) -> (count: u8)
        requires
            self.z.wf(),
            fx_ok(self.c.re as int),
            fx_ok(self.c.im as int),
            (i as int) < self.z.ncells(),
        ensures
            count as int == julia_count(
                self.z.point_re_s(i as int % (self.z.size.0 as int)),
                self.z.point_im_s(i as int / (self.z.size.0 as int)),
                self.c.re as int,
                self.c.im as int,
                maxiter as int,
            ),
    {
        let zp = self.z.point_from_index(i);
        proof {
            lemma_fx_square_nonneg(zp.re as int);
            lemma_fx_square_nonneg(zp.im as int);
        }
        let mut zr: i64 = zp.re;
        let mut zi: i64 = zp.im;
        let mut r2: i64 = fx_mul(zr, zr);
        let mut i2: i64 = fx_mul(zi, zi);
        let mut iter: u8 = 0;
        let cre = self.c.re;
        let cim = self.c.im;
        let ghost target = julia_steps(
            zr as int,
            zi as int,
            r2 as int,
            i2 as int,
            0,
            cre as int,
            cim as int,
            maxiter as int,
        );
        proof {
            lemma_julia_steps_le(
                zr as int,
                zi as int,
                r2 as int,
                i2 as int,
                0,
                cre as int,
                cim as int,
                maxiter as int,
            );
        }
        while r2 + i2 < ESCAPE_FX && iter < maxiter
            invariant
                fx_ok(zr as int),
                fx_ok(zi as int),
                0 <= r2 <= FX_LIM,
                0 <= i2 <= FX_LIM,
                fx_ok(cre as int),
                fx_ok(cim as int),
                iter <= maxiter,
                julia_steps(
                    zr as int,
                    zi as int,
                    r2 as int,
                    i2 as int,
                    iter as int,
                    cre as int,
                    cim as int,
                    maxiter as int,
                ) == target,
            decreases maxiter - iter,
        {
            let t = fx_add(zr, zr);
            let nzi = fx_add(fx_mul(t, zi), cim);
            let nzr = fx_add(fx_sub(r2, i2), cre);
            proof {
                lemma_fx_square_nonneg(nzr as int);
                lemma_fx_square_nonneg(nzi as int);
            }
            zr = nzr;
            zi = nzi;
            r2 = fx_mul(zr, zr);
            i2 = fx_mul(zi, zi);
            iter = iter + 1;
        }
        // promote a capped count to the nominal maximum
        if iter >= maxiter {
            MAXITER
        } else {
            iter
        }
    }

    /// Recompute the cell buffer: direct counts for the first half, the
    /// second half filled by point reflection, the depth cap reduced while
    /// `c` sits in a mask-interior cell.
    #[verifier::loop_isolation(false)]
    pub fn draw(&mut self)
        requires
            old(self).z.wf(),
            fx_ok(old(self).c.re as int),
            fx_ok(old(self).c.im as int),
            old(self).inside_mandel@.len() == old(self).z.ncells(),
        ensures
            final(self).z == old(self).z,
            final(self).c == old(self).c,
            final(self).a == old(self).a,
            final(self).image == old(self).image,
            final(self).cmap == old(self).cmap,
            final(self).overlay_image == old(self).overlay_image,
            final(self).inside_mandel == old(self).inside_mandel,
            final(self).synced(),
    {
        proof {
            assert(self.z.size.0 as int * (self.z.size.1 as int) <= 4096 * 4096)
                by (nonlinear_arith)
                requires
                    0 < self.z.size.0 as int <= 4096,
                    0 < self.z.size.1 as int <= 4096,
            ;
        }
        let n: usize = (self.z.size.0 as usize) * (self.z.size.1 as usize);
        let half: usize = n / 2;
        let odd: usize = n % 2;

        // membership-based depth reduction for this frame
        let mask_idx = self.z.index_near_point(&self.c);
        let maxiter: u8 = if self.inside_mandel[mask_idx] {
            MAXITER_INSIDE
        } else {
            MAXITER
        };
        let ghost eff = self.eff_maxiter_s();
        assert(maxiter as int == eff);

        let mut cellsv: Vec<u8> = Vec::new();
        let mut i: usize = 0;
        while i < half
            invariant
                i <= half,
                cellsv@.len() == i,
                forall|j: int|
                    0 <= j < i ==> cellsv@[j] as int == julia_cell_s(
                        self.z,
                        j,
                        self.c.re as int,
                        self.c.im as int,
                        eff,
                    ),
            decreases half - i,
        {
            let count = self.iterate(i, maxiter);
            cellsv.push(count);
            i = i + 1;
        }
        if odd == 1 {
            let count = self.iterate(half, maxiter);
            cellsv.push(count);
            proof {
                assert(mirror_idx(half as int, n as int) == half as int);
            }
        }
        let base: usize = half + odd;
        let mut k: usize = 0;
        while k < half
            invariant
                k <= half,
                cellsv@.len() == base + k,
                forall|j: int|
                    0 <= j < base + k ==> cellsv@[j] as int == julia_cell_s(
                        self.z,
                        j,
                        self.c.re as int,
                        self.c.im as int,
                        eff,
                    ),
            decreases half - k,
        {
            let v = cellsv[half - 1 - k];
            cellsv.push(v);
            proof {
                assert(mirror_idx((base + k) as int, n as int) == half - 1 - k);
                assert(mirror_idx((half - 1 - k) as int, n as int) == half - 1 - k);
            }
            k = k + 1;
        }
        self.cells = cellsv;
    }

    /// Point the attractor at the plane point of a raster cell; `c` itself
    /// does not move until the next tick.
    pub fn set_attract(&mut self, row: u32, col: u32)
        requires
            old(self).z.wf(),
            (row as int) < old(self).z.size.1 as int,
            (col as int) < old(self).z.size.0 as int,
        ensures
            final(self).a.re as int == old(self).z.point_re_s(col as int),
            final(self).a.im as int == old(self).z.point_im_s(row as int),
            fx_ok(final(self).a.re as int),
            fx_ok(final(self).a.im as int),
            final(self).z == old(self).z,
            final(self).c == old(self).c,
            final(self).cells == old(self).cells,
            final(self).image == old(self).image,
            final(self).cmap == old(self).cmap,
            final(self).overlay_image == old(self).overlay_image,
            final(self).inside_mandel == old(self).inside_mandel,
    {
        let a = self.z.point_from_rc((row, col));
        self.a = a;
    }

    /// One animation step: move `c` toward the attractor, clamp it into the
    /// plane bounds, and redraw the buffer.
    pub fn tick(&mut self)
        requires
            old(self).z.wf(),
            fx_ok(old(self).c.re as int),
            fx_ok(old(self).c.im as int),
            fx_ok(old(self).a.re as int),
            fx_ok(old(self).a.im as int),
            old(self).inside_mandel@.len() == old(self).z.ncells(),
        ensures
            (final(self).c.re as int, final(self).c.im as int) == tick_c_s(
                old(self).c,
                old(self).a,
                old(self).z,
            ),
            fx_ok(final(self).c.re as int),
            fx_ok(final(self).c.im as int),
            final(self).z == old(self).z,
            final(self).a == old(self).a,
            final(self).image == old(self).image,
            final(self).cmap == old(self).cmap,
            final(self).overlay_image == old(self).overlay_image,
            final(self).inside_mandel == old(self).inside_mandel,
            final(self).synced(),
    {
        let dre = fx_mul(fx_sub(self.a.re, self.c.re), SPEED_FX);
        let dim = fx_mul(fx_sub(self.a.im, self.c.im), SPEED_FX);
        let mut cre = fx_add(self.c.re, dre);
        let mut cim = fx_add(self.c.im, dim);
        if cre > self.z.zmax.re {
            cre = self.z.zmax.re;
        }
        if cre < self.z.zmin.re {
            cre = self.z.zmin.re;
        }
        if cim > self.z.zmax.im {
            cim = self.z.zmax.im;
        }
        if cim < self.z.zmin.im {
            cim = self.z.zmin.im;
        }
        self.c = Cplx { re: cre, im: cim };
        self.draw();
    }

    /// The five buffer slots that carry the marker: the cell nearest `c`
    /// and its four axis-adjacent neighbours, each clamped (never wrapped)
    /// into the raster.
    pub open spec fn is_marker(self, i: int) -> bool {
        let rc = self.z.rc_near_s(self.c.re as int, self.c.im as int);
        let r = rc.0;
        let c = rc.1;
        let w = self.z.size.0 as int;
        let h = self.z.size.1 as int;
        ||| i == r * w + c
        ||| i == (if r + 1 < h { r + 1 } else { h - 1 }) * w + c
        ||| i == (if r >= 1 { r - 1 } else { 0 }) * w + c
        ||| i == r * w + (if c + 1 < w { c + 1 } else { w - 1 })
        ||| i == r * w + (if c >= 1 { c - 1 } else { 0 })
    }

    /// Render the buffer through the colour table, then overlay the marker
    /// colour on the cell nearest `c` and its four clamped neighbours.
    #[verifier::loop_isolation(false)]
    #[verifier::rlimit(100)]
    pub fn render(&mut self)
        requires
            old(self).wf(),
        ensures
            final(self).z == old(self).z,
            final(self).c == old(self).c,
            final(self).a == old(self).a,
            final(self).cells == old(self).cells,
            final(self).cmap == old(self).cmap,
            final(self).overlay_image == old(self).overlay_image,
            final(self).inside_mandel == old(self).inside_mandel,
            final(self).image@.len() == 4 * old(self).z.ncells(),
            forall|i: int|
                0 <= i < final(self).z.ncells() && !final(self).is_marker(i) ==> pixel_match(
                    final(self).image@,
                    final(self).cmap@,
                    final(self).cells@[i] as int,
                    i,
                ),
            forall|i: int|
                0 <= i < final(self).z.ncells() && final(self).is_marker(i) ==> marker_black(
                    final(self).image@,
                    i,
                ),
    {
        let n: usize = self.cells.len();
        let mut img: Vec<u8> = Vec::new();
        let mut i: usize = 0;
        while i < n
            invariant
                i <= n,
                img@.len() == 4 * i,
                forall|j: int|
                    0 <= j < i ==> pixel_match(img@, self.cmap@, self.cells@[j] as int, j),
            decreases n - i,
        {
            let e = self.cmap[(self.cells[i] as usize) % self.cmap.len()];
            img.push(e.r);
            img.push(e.g);
            img.push(e.b);
            img.push(e.a);
            i = i + 1;
        }
        let ghost base = img@;

        // plot the locus of c and its clamped axis neighbours
        let rc = self.z.rc_from_point(&self.c);
        let h = self.z.size.1;
        let w = self.z.size.0;
        let x = if rc.0 >= h {
            h - 1
        } else {
            rc.0
        };
        let y = if rc.1 >= w {
            w - 1
        } else {
            rc.1
        };
        let xu = if x + 1 < h {
            x + 1
        } else {
            h - 1
        };
        let xd = if x >= 1 {
            x - 1
        } else {
            0
        };
        let yu = if y + 1 < w {
            y + 1
        } else {
            w - 1
        };
        let yd = if y >= 1 {
            y - 1
        } else {
            0
        };
        proof {
            assert(self.z.ncells() <= 0x100_0000) by (nonlinear_arith)
                requires
                    0 < self.z.size.0 as int <= 4096,
                    0 < self.z.size.1 as int <= 4096,
                    self.z.ncells() == self.z.size.0 as int * (self.z.size.1 as int),
            ;
        }
        let i0 = self.z.index_from_rc((x, y));
        let i1 = self.z.index_from_rc((xu, y));
        let i2 = self.z.index_from_rc((xd, y));
        let i3 = self.z.index_from_rc((x, yu));
        let i4 = self.z.index_from_rc((x, yd));
        paint_marker(&mut img, i0);
        paint_marker(&mut img, i1);
        paint_marker(&mut img, i2);
        paint_marker(&mut img, i3);
        paint_marker(&mut img, i4);
        self.image = img;
        proof {
            let s = *self;
            let nn = s.z.ncells();
            assert forall|q: int| 0 <= q < nn && !s.is_marker(q) implies pixel_match(
                s.image@,
                s.cmap@,
                s.cells@[q] as int,
                q,
            ) by {
                assert(s.image@[4 * q] == base[4 * q]);
                assert(s.image@[4 * q + 1] == base[4 * q + 1]);
                assert(s.image@[4 * q + 2] == base[4 * q + 2]);
                assert(s.image@[4 * q + 3] == base[4 * q + 3]);
            }
            assert forall|q: int| 0 <= q < nn && s.is_marker(q) implies marker_black(
                s.image@,
                q,
            ) by {
                assert(s.image@[4 * q] == 0u8);
                assert(s.image@[4 * q + 1] == 0u8);
                assert(s.image@[4 * q + 2] == 0u8);
                assert(s.image@[4 * q + 3] == 255u8);
            }
        }
    }

    /// The rendered RGBA buffer.
    pub fn image_buffer(&self) -> (v: &Vec<u8>)
        ensures
            v@ == self.image@,
    {
        &self.image
    }

    /// The precomputed Mandelbrot background image.
    pub fn background_buffer(&self) -> (v: &Vec<u8>)
        ensures
            v@ == self.overlay_image@,
    {
        &self.overlay_image
    }

    /// Build a Julia engine: a symmetric window of half-width `scale`
    /// (fixed-point) fitted to the aspect ratio, an auxiliary Mandelbrot
    /// render over the same window for the membership mask and background,
    /// and a first frame drawn with the starting parameter `(cr, ci)`.
    pub fn new(cr: i64, ci: i64, scale: i64, width: u32, height: u32) -> (j: Julia)
        requires
            0 < width <= MAX_DIM,
            0 < height <= MAX_DIM,
            fx_ok(cr as int),
            fx_ok(ci as int),
            1 <= scale <= FX_LIM,
            (width as int) <= (scale as int) * (height as int),
            (scale as int) * (height as int) <= (FX_LIM as int) * (width as int),
        ensures
            j.wf(),
            j.z == julia_plane_s(scale as int, width, height),
            j.c == (Cplx { re: cr, im: ci }),
            j.a == (Cplx { re: 0i64, im: 0i64 }),
            mask_ok(j.z, j.inside_mandel@),
            background_ok(j.z, j.overlay_image@),
            forall|i: int|
                0 <= i < JULIA_CMAP_SIZE ==> j.cmap@[i] == cmap_entry_s(i, 2, 1, 3, 192, 512),
            j.synced(),
    {
        proof {
            assert((scale as int) * (height as int) / (width as int) >= 1) by (nonlinear_arith)
                requires
                    (width as int) <= (scale as int) * (height as int),
                    0 < width,
            ;
            assert((scale as int) * (height as int) / (width as int) <= FX_LIM as int)
                by (nonlinear_arith)
                requires
                    (scale as int) * (height as int) <= (FX_LIM as int) * (width as int),
                    0 < width,
                    0 < FX_LIM,
            ;
            assert((scale as int) * (height as int) <= (FX_LIM as int) * 4096)
                by (nonlinear_arith)
                requires
                    0 < scale as int <= FX_LIM as int,
                    0 < height as int <= 4096,
            ;
        }
        let yscale: i64 = (((scale as u64) * (height as u64)) / (width as u64)) as i64;
        let bl = Cplx { re: -scale, im: -yscale };
        let tr = Cplx { re: scale, im: yscale };

        let mut mand = Mandel::custom(bl, tr, (width, height), MASK_DEPTH, 512, (2, 2, 2), 255);
        mand.render();
        let iters = mand.iterations();
        let mut inside: Vec<bool> = Vec::new();
        let mut i: usize = 0;
        let ncl = iters.len();
        while i < ncl
            invariant
                i <= ncl,
                ncl == iters@.len(),
                inside@.len() == i,
                forall|k: int| 0 <= k < i ==> inside@[k] == (iters@[k] == MASK_DEPTH - 1),
            decreases ncl - i,
        {
            let flag = iters[i] == MASK_DEPTH - 1;
            inside.push(flag);
            i = i + 1;
        }
        let overlay = mand.raw_image();
        let z = ZPlane::new(bl, tr, (width, height));
        proof {
            assert(mand.cmap@ =~= mask_cmap_s());
            assert forall|q: int| 0 <= q < z.ncells() implies pixel_match(
                overlay@,
                mask_cmap_s(),
                mandel_cell_s(z, q, MASK_DEPTH as int),
                q,
            ) by {
                assert(pixel_match(mand.image@, mand.cmap@, mand.cells@[q] as int, q));
                assert(mand.cells@[q] as int == mandel_cell_s(mand.z, q, MASK_DEPTH as int));
            }
        }

        let image = zero_image((width, height));
        let cmap = colour_map(JULIA_CMAP_SIZE, (2, 1, 3), 192);
        let mut j = Julia {
            z,
            c: Cplx { re: cr, im: ci },
            a: Cplx { re: 0, im: 0 },
            cells: Vec::new(),
            image,
            cmap,
            overlay_image: overlay,
            inside_mandel: inside,
        };
        j.draw();
        j
    }
}

/// The symmetric plane window of a Julia engine: half-width `scale`, the
/// imaginary half-span scaled by the aspect ratio.
pub open spec fn julia_plane_s(scale: int, width: u32, height: u32) -> ZPlane {
    let yscale = scale * (height as int) / (width as int);
    ZPlane {
        zmin: Cplx { re: (-scale) as i64, im: (-yscale) as i64 },
        zmax: Cplx { re: scale as i64, im: yscale as i64 },
        size: (width, height),
    }
}

/// Overwrite the four RGBA bytes of one cell with the marker colour.
fn paint_marker(img: &mut Vec<u8>, idx: usize)
    requires
        idx < 0x100_0000,
        4 * (idx as int) + 3 < old(img)@.len(),
    ensures
        final(img)@ == old(img)@.update(4 * idx as int, 0u8).update(4 * idx + 1, 0u8).update(
            4 * idx + 2,
            0u8,
        ).update(4 * idx + 3, 255u8),
{
    let p = 4 * idx;
    img.set(p, 0);
    img.set(p + 1, 0);
    img.set(p + 2, 0);
    img.set(p + 3, 255);
}

/// Symmetry law: in a synced frame every buffer slot holds the same count
/// as its point reflection.
pub proof fn lemma_julia_symmetry(j: Julia, i: int)
    requires
        j.synced(),
        0 <= i < j.z.ncells(),
    ensures
        j.cells@[i] == j.cells@[j.z.ncells() - 1 - i],
{
    assert(mirror_idx(i, j.z.ncells()) == mirror_idx(j.z.ncells() - 1 - i, j.z.ncells()));
}

/// Determinism: two synced engines over the same window, parameter and mask
/// hold identical cell buffers.
pub proof fn lemma_julia_redraw_identical(j1: Julia, j2: Julia)
    requires
        j1.synced(),
        j2.synced(),
        j1.z == j2.z,
        j1.c == j2.c,
        j1.inside_mandel@ == j2.inside_mandel@,
    ensures
        j1.cells@ == j2.cells@,
{
    assert(j1.eff_maxiter_s() == j2.eff_maxiter_s());
    assert(j1.cells@ =~= j2.cells@);
}

/// The largest squared seed magnitude of the filled-disk law: four
/// fixed-point units under 1, so that the truncated arithmetic keeps the
/// orbit inside the bound.
pub const DISK_SEED_MAX: i64 = 0xFF_FFFC;

/// With `c = 0` one iteration step keeps the squared magnitude under the
/// disk bound, truncation and saturation included.
proof fn lemma_julia_zero_step(zr: int, zi: int)
    requires
        fx_mul_s(zr, zr) + fx_mul_s(zi, zi) <= DISK_SEED_MAX as int,
    ensures
        ({
            let nzi = fx_add_s(fx_mul_s(fx_add_s(zr, zr), zi), 0);
            let nzr = fx_add_s(fx_sub_s(fx_mul_s(zr, zr), fx_mul_s(zi, zi)), 0);
            fx_mul_s(nzr, nzr) + fx_mul_s(nzi, nzi) <= DISK_SEED_MAX as int
        }),
{
    let f = FX_ONE as int;
    let r2 = fx_mul_s(zr, zr);
    let i2 = fx_mul_s(zi, zi);
    lemma_fx_square_nonneg(zr);
    lemma_fx_square_nonneg(zi);
    // the saturation is idle: a clipped square above the bound would exceed it
    assert(zr * zr >= 0 && zi * zi >= 0) by (nonlinear_arith);
    assert(r2 == (zr * zr) / f && i2 == (zi * zi) / f);
    assert(zr * zr < (r2 + 1) * f && zi * zi < (i2 + 1) * f) by (nonlinear_arith)
        requires
            r2 == (zr * zr) / f,
            i2 == (zi * zi) / f,
            zr * zr >= 0,
            zi * zi >= 0,
            f == FX_ONE as int,
    ;
    assert(r2 * f <= zr * zr && i2 * f <= zi * zi) by (nonlinear_arith)
        requires
            r2 == (zr * zr) / f,
            i2 == (zi * zi) / f,
            zr * zr >= 0,
            zi * zi >= 0,
            f == FX_ONE as int,
    ;
    // component bound: |zr|, |zi| < 2^24
    assert(-f < zr < f && -f < zi < f) by (nonlinear_arith)
        requires
            zr * zr < (r2 + 1) * f,
            zi * zi < (i2 + 1) * f,
            0 <= r2,
            0 <= i2,
            r2 + i2 <= DISK_SEED_MAX as int,
            f == FX_ONE as int,
    ;
    let nzr = fx_add_s(fx_sub_s(r2, i2), 0);
    assert(nzr == r2 - i2);
    let t = fx_add_s(zr, zr);
    assert(t == 2 * zr);
    // |2 * zr * zi| <= zr^2 + zi^2 <= (r2 + i2 + 2) * f
    assert((2 * zr) * zi <= zr * zr + zi * zi && -(zr * zr + zi * zi) <= (2 * zr) * zi)
        by (nonlinear_arith);
    let prod = (2 * zr) * zi;
    let nzi = fx_mul_s(t, zi);
    // the truncated product stays within the saturation bound
    assert(zr * zr + zi * zi <= (r2 + i2 + 2) * f);
    assert(fx_tdiv(prod) <= (r2 + i2 + 2) && -(r2 + i2 + 2) <= fx_tdiv(prod)) by (nonlinear_arith)
        requires
            -((r2 + i2 + 2) * f) <= prod <= (r2 + i2 + 2) * f,
            0 <= r2 + i2 + 2,
            f == FX_ONE as int,
    ;
    assert(nzi == fx_tdiv(prod));
    // squares of the next components
    assert(nzi * nzi * (f * f) <= prod * prod) by (nonlinear_arith)
        requires
            nzi == fx_tdiv(prod),
            f == FX_ONE as int,
    ;
    assert(prod * prod <= 4 * ((r2 + 1) * f) * ((i2 + 1) * f)) by (nonlinear_arith)
        requires
            prod == (2 * zr) * zi,
            zr * zr < (r2 + 1) * f,
            zi * zi < (i2 + 1) * f,
            zr * zr >= 0,
            zi * zi >= 0,
            0 <= r2,
            0 <= i2,
            f > 0,
    ;
    assert(nzi * nzi <= 4 * (r2 + 1) * (i2 + 1)) by (nonlinear_arith)
        requires
            nzi * nzi * (f * f) <= prod * prod,
            prod * prod <= 4 * ((r2 + 1) * f) * ((i2 + 1) * f),
            f > 0,
            0 <= r2,
            0 <= i2,
    ;
    let nr2 = fx_mul_s(nzr, nzr);
    let ni2 = fx_mul_s(nzi, nzi);
    lemma_fx_square_nonneg(nzr);
    lemma_fx_square_nonneg(nzi);
    assert(nzr * nzr >= 0 && nzi * nzi >= 0) by (nonlinear_arith);
    assert(nr2 <= fx_tdiv(nzr * nzr) && ni2 <= fx_tdiv(nzi * nzi));
    assert(nr2 * f <= nzr * nzr && ni2 * f <= nzi * nzi) by (nonlinear_arith)
        requires
            nr2 <= fx_tdiv(nzr * nzr),
            ni2 <= fx_tdiv(nzi * nzi),
            nzr * nzr >= 0,
            nzi * nzi >= 0,
            fx_tdiv(nzr * nzr) == (nzr * nzr) / f,
            fx_tdiv(nzi * nzi) == (nzi * nzi) / f,
            f == FX_ONE as int,
    ;
    // (r2 - i2)^2 + 4 (r2 + 1)(i2 + 1) == (r2 + i2 + 2)^2
    assert((nr2 + ni2) * f <= (r2 + i2 + 2) * (r2 + i2 + 2)) by (nonlinear_arith)
        requires
            nr2 * f <= nzr * nzr,
            ni2 * f <= nzi * nzi,
            nzr == r2 - i2,
            nzi * nzi <= 4 * (r2 + 1) * (i2 + 1),
            0 <= r2,
            0 <= i2,
            f > 0,
    ;
    assert(nr2 + ni2 <= DISK_SEED_MAX as int) by (nonlinear_arith)
        requires
            (nr2 + ni2) * f <= (r2 + i2 + 2) * (r2 + i2 + 2),
            r2 + i2 <= DISK_SEED_MAX as int,
            0 <= r2,
            0 <= i2,
            f == FX_ONE as int,
            DISK_SEED_MAX == 0xFF_FFFC,
    ;
    assert(fx_add_s(nzi, 0) == nzi);
}

/// With `c = 0` an orbit whose squared seed magnitude stays under the disk
/// bound never escapes: the raw count runs to the cap.
proof fn lemma_julia_zero_steps(zr: int, zi: int, it: int, m: int)
    requires
        fx_mul_s(zr, zr) + fx_mul_s(zi, zi) <= DISK_SEED_MAX as int,
        0 <= it <= m,
    ensures
        julia_steps(zr, zi, fx_mul_s(zr, zr), fx_mul_s(zi, zi), it, 0, 0, m) == m,
    decreases m - it,
{
    if it < m {
        lemma_julia_zero_step(zr, zi);
        let nzi = fx_add_s(fx_mul_s(fx_add_s(zr, zr), zi), 0);
        let nzr = fx_add_s(fx_sub_s(fx_mul_s(zr, zr), fx_mul_s(zi, zi)), 0);
        lemma_julia_zero_steps(nzr, nzi, it + 1, m);
    }
}

/// Filled-disk law at the origin: with `c = 0` every orbit seeded inside
/// the unit disk (up to four fixed-point units under 1 in squared
/// magnitude) reports the nominal maximum count.
pub proof fn lemma_julia_origin_filled(zr: int, zi: int, m: int)
    requires
        fx_mul_s(zr, zr) + fx_mul_s(zi, zi) <= DISK_SEED_MAX as int,
        m >= 1,
    ensures
        julia_count(zr, zi, 0, 0, m) == MAXITER as int,
{
    lemma_julia_zero_steps(zr, zi, 0, m);
}

/// A seed already past the escape threshold reports count zero.
pub proof fn lemma_julia_far_escapes(zr: int, zi: int, cr: int, ci: int, m: int)
    requires
        fx_mul_s(zr, zr) + fx_mul_s(zi, zi) >= ESCAPE_FX as int,
        m >= 1,
    ensures
        julia_count(zr, zi, cr, ci, m) == 0,
{
}

} // verus!
