//! Julia inverse-iteration engine: traces the set boundary by applying the
//! inverse map `z <- sqrt(z - c)` from a seed, with a pseudo-random warmup,
//! a depth-bounded recursive exploration of both square-root branches, and a
//! long single-branch refinement walk. Cells hold visit counts.

use vstd::prelude::*;

use crate::argand::{Cplx, ZPlane, MAX_DIM};
use crate::fixed::{csqrt, csqrt_im_s, csqrt_re_s, fx_ok, fx_sub, fx_sub_s, FX_LIM};
use crate::julia::{julia_plane_s, tick_c_s};
use crate::mandel::zero_image;

verus! {

/// Number of warmup applications of the inverse map.
pub const WARMUP: usize = 25;

/// Depth bound of the recursive branch exploration.
pub const TREE_DEPTH: u32 = 13;

/// Number of single-branch refinement steps after the recursive pass.
pub const REFINE_STEPS: usize = 100000;

/// Multiplier of the linear-congruential warmup sequence.
pub const LCG_MUL: u64 = 6364136223846793005;

/// Increment of the linear-congruential warmup sequence.
pub const LCG_INC: u64 = 1442695040888963407;

/// Fixed non-zero seed of the warmup sequence.
pub const LCG_SEED: u64 = 123456789;

/// 2^64, the modulus of the warmup sequence.
pub const TWO_POW64: u128 = 0x1_0000_0000_0000_0000;

/// Total visit increments of one full draw: 2 at the warmed-up point,
/// 2 per node of the full binary tree of 2^13 - 1 nodes, and 2 per
/// refinement step.
pub const TRACE_TOTAL: u64 = 216384;

/// One step of the linear-congruential generator.
pub open spec fn lcg_next_s(s: int) -> int {
    (s * (LCG_MUL as int) + LCG_INC as int) % (TWO_POW64 as int)
}

/// The branch bit: the top bit of the generator state.
pub open spec fn lcg_branch_s(s: int) -> bool {
    s >= 0x8000_0000_0000_0000
}

fn lcg_next(s: u64) -> (r: u64)
    ensures
        r as int == lcg_next_s(s as int),
{
    proof {
        assert((s as int) * (LCG_MUL as int) <= 0xFFFF_FFFF_FFFF_FFFF * 0xFFFF_FFFF_FFFF_FFFF)
            by (nonlinear_arith)
            requires
                0 <= s as int <= 0xFFFF_FFFF_FFFF_FFFF,
                0 < LCG_MUL as int <= 0xFFFF_FFFF_FFFF_FFFF,
        ;
    }
    (((s as u128) * (LCG_MUL as u128) + (LCG_INC as u128)) % TWO_POW64) as u64
}

/// Sum of all visit counts of a buffer.
pub open spec fn vsum(s: Seq<u32>) -> int
    decreases s.len(),
{
    if s.len() == 0 {
        0
    } else {
        vsum(s.drop_last()) + s.last()
    }
}

pub proof fn lemma_vsum_nonneg(s: Seq<u32>)
    ensures
        vsum(s) >= 0,
    decreases s.len(),
{
    if s.len() > 0 {
        lemma_vsum_nonneg(s.drop_last());
    }
}

/// Every cell is at most the whole sum.
pub proof fn lemma_elem_le_vsum(s: Seq<u32>, i: int)
    requires
        0 <= i < s.len(),
    ensures
        s[i] <= vsum(s),
    decreases s.len(),
{
    lemma_vsum_nonneg(s.drop_last());
    if i == s.len() - 1 {
    } else {
        lemma_elem_le_vsum(s.drop_last(), i);
        assert(s.drop_last()[i] == s[i]);
    }
}

proof fn lemma_vsum_update(s: Seq<u32>, i: int, v: u32)
    requires
        0 <= i < s.len(),
    ensures
        vsum(s.update(i, v)) == vsum(s) - s[i] + v,
    decreases s.len(),
{
    if i == s.len() - 1 {
        assert(s.update(i, v).drop_last() =~= s.drop_last());
        assert(s.update(i, v).last() == v);
    } else {
        lemma_vsum_update(s.drop_last(), i, v);
        assert(s.update(i, v).drop_last() =~= s.drop_last().update(i, v));
        assert(s.update(i, v).last() == s.last());
        assert(s.drop_last()[i] == s[i]);
    }
}

/// One visit: the cell's count raised by one.
pub open spec fn bump_s(s: Seq<u32>, i: int) -> Seq<u32> {
    s.update(i, (s[i] + 1) as u32)
}

/// A visit of a pair of point-reflected cells.
pub open spec fn bump2_s(s: Seq<u32>, i: int, j: int) -> Seq<u32> {
    bump_s(bump_s(s, i), j)
}

/// A visit adds exactly one to the sum while the counter has headroom.
pub proof fn lemma_bump_sum(s: Seq<u32>, i: int)
    requires
        0 <= i < s.len(),
        vsum(s) < 0xFFFF_FFFF,
    ensures
        vsum(bump_s(s, i)) == vsum(s) + 1,
        bump_s(s, i).len() == s.len(),
{
    lemma_elem_le_vsum(s, i);
    lemma_vsum_update(s, i, (s[i] + 1) as u32);
}

/// The warmed-up point and generator state after `k` inverse-map steps,
/// each choosing one square-root branch from the generator's top bit.
pub open spec fn warm_s(zr: int, zi: int, rng: int, cr: int, ci: int, k: nat) -> (int, int, int)
    decreases k,
{
    if k == 0 {
        (zr, zi, rng)
    } else {
        let s2 = lcg_next_s(rng);
        let sr = fx_sub_s(zr, cr);
        let si = fx_sub_s(zi, ci);
        let wr = csqrt_re_s(sr, si);
        let wi = csqrt_im_s(sr, si);
        if lcg_branch_s(s2) {
            warm_s(wr, wi, s2, cr, ci, (k - 1) as nat)
        } else {
            warm_s(-wr, -wi, s2, cr, ci, (k - 1) as nat)
        }
    }
}

/// Visit increments contributed by the exploration subtree rooted at a node
/// of the given depth: two per node, over all nodes above the depth bound.
pub open spec fn tree_weight(d: int) -> int
    decreases TREE_DEPTH - d,
{
    if d < 0 || d >= TREE_DEPTH as int {
        0
    } else {
        2 + tree_weight(d + 1) + tree_weight(d + 1)
    }
}

pub proof fn lemma_tree_weight_nonneg(d: int)
    ensures
        tree_weight(d) >= 0,
    decreases TREE_DEPTH - d,
{
    if 0 <= d < TREE_DEPTH as int {
        lemma_tree_weight_nonneg(d + 1);
    }
}

/// The full tree contributes 2 * (2^13 - 1) increments.
pub proof fn lemma_tree_weight_root()
    ensures
        tree_weight(0) == 16382,
{
    assert(tree_weight(13) == 0);
    assert(tree_weight(12) == 2);
    assert(tree_weight(11) == 6);
    assert(tree_weight(10) == 14);
    assert(tree_weight(9) == 30);
    assert(tree_weight(8) == 62);
    assert(tree_weight(7) == 126);
    assert(tree_weight(6) == 254);
    assert(tree_weight(5) == 510);
    assert(tree_weight(4) == 1022);
    assert(tree_weight(3) == 2046);
    assert(tree_weight(2) == 4094);
    assert(tree_weight(1) == 8190);
    assert(tree_weight(0) == 16382);
}

/// The buffer after the recursive exploration from a node value `z` at the
/// given depth: visit both branch points of `sqrt(z - c)`, then recurse
/// into both branches until the depth bound.
pub open spec fn explore_s(
    cells: Seq<u32>,
    plane: ZPlane,
    zr: int,
    zi: int,
    cr: int,
    ci: int,
    d: int,
) -> Seq<u32>
    decreases TREE_DEPTH - d, 1int,
{
    if d < 0 || d >= TREE_DEPTH as int {
        cells
    } else {
        let sr = fx_sub_s(zr, cr);
        let si = fx_sub_s(zi, ci);
        let wr = csqrt_re_s(sr, si);
        let wi = csqrt_im_s(sr, si);
        let c1 = bump2_s(cells, plane.index_near_s(wr, wi), plane.index_near_s(-wr, -wi));
        if d + 1 < TREE_DEPTH as int {
            explore_s(
                explore_s(c1, plane, wr, wi, cr, ci, d + 1),
                plane,
                -wr,
                -wi,
                cr,
                ci,
                d + 1,
            )
        } else {
            c1
        }
    }
}

/// One refinement step: apply the inverse map, take the branch the flag
/// names, flip the flag when the chosen cell was already visited, and visit
/// both point-reflected cells.
pub open spec fn refine_step_s(
    st: (Seq<u32>, int, int, bool),
    plane: ZPlane,
    cr: int,
    ci: int,
) -> (Seq<u32>, int, int, bool) {
    let sr = fx_sub_s(st.1, cr);
    let si = fx_sub_s(st.2, ci);
    let wr = csqrt_re_s(sr, si);
    let wi = csqrt_im_s(sr, si);
    let nzr = if st.3 {
        wr
    } else {
        -wr
    };
    let nzi = if st.3 {
        wi
    } else {
        -wi
    };
    let idx = plane.index_near_s(nzr, nzi);
    let nalt = if st.0[idx] > 0 {
        !st.3
    } else {
        st.3
    };
    let ncells = bump2_s(st.0, idx, plane.index_near_s(-nzr, -nzi));
    (ncells, nzr, nzi, nalt)
}

/// The state after `k` refinement steps.
pub open spec fn refine_s(
    st: (Seq<u32>, int, int, bool),
    plane: ZPlane,
    cr: int,
    ci: int,
    k: nat,
) -> (Seq<u32>, int, int, bool)
    decreases k,
{
    if k == 0 {
        st
    } else {
        refine_s(refine_step_s(st, plane, cr, ci), plane, cr, ci, (k - 1) as nat)
    }
}

/// The visit-count buffer of one full draw: warmup from the origin, a visit
/// at the warmed point's pair of cells, the recursive exploration, then the
/// refinement walk.
pub open spec fn trace_buf_s(plane: ZPlane, cr: int, ci: int) -> Seq<u32> {
    let zero = Seq::new(plane.ncells() as nat, |i: int| 0u32);
    let w = warm_s(0, 0, LCG_SEED as int, cr, ci, WARMUP as nat);
    let seeded = bump2_s(zero, plane.index_near_s(w.0, w.1), plane.index_near_s(-w.0, -w.1));
    let explored = explore_s(seeded, plane, w.0, w.1, cr, ci, 0);
    refine_s((explored, w.0, w.1, false), plane, cr, ci, REFINE_STEPS as nat).0
}

/// Raise one cell's visit count by one.
fn bump_cell(cells: &mut Vec<u32>, idx: usize)
    requires
        (idx as int) < old(cells)@.len(),
        vsum(old(cells)@) < 0xFFFF_FFFF,
    ensures
        final(cells)@ == bump_s(old(cells)@, idx as int),
        final(cells)@.len() == old(cells)@.len(),
        vsum(final(cells)@) == vsum(old(cells)@) + 1,
{
    proof {
        lemma_elem_le_vsum(cells@, idx as int);
        lemma_bump_sum(cells@, idx as int);
    }
    let v = cells[idx];
    cells.set(idx, v + 1);
}

/// The recursive exploration: visit both branch points, recurse into both
/// branches while the depth bound allows.
fn explore(cells: &mut Vec<u32>, plane: &ZPlane, cr: i64, ci: i64, zr: i64, zi: i64, d: u32)
    requires
        plane.wf(),
        fx_ok(cr as int),
        fx_ok(ci as int),
        fx_ok(zr as int),
        fx_ok(zi as int),
        d < TREE_DEPTH,
        old(cells)@.len() == plane.ncells(),
        vsum(old(cells)@) + tree_weight(d as int) < 0xFFFF_FFFF,
    ensures
        final(cells)@ == explore_s(old(cells)@, *plane, zr as int, zi as int, cr as int, ci as int, d as int),
        final(cells)@.len() == old(cells)@.len(),
        vsum(final(cells)@) == vsum(old(cells)@) + tree_weight(d as int),
    decreases TREE_DEPTH - d,
{
    proof {
        lemma_tree_weight_nonneg(d as int + 1);
    }
    let sr = fx_sub(zr, cr);
    let si = fx_sub(zi, ci);
    let w = csqrt(sr, si);
    let ia = plane.index_near_point(&(Cplx { re: w.0, im: w.1 }));
    let ib = plane.index_near_point(&(Cplx { re: -w.0, im: -w.1 }));
    bump_cell(cells, ia);
    bump_cell(cells, ib);
    if d + 1 < TREE_DEPTH {
        explore(cells, plane, cr, ci, w.0, w.1, d + 1);
        explore(cells, plane, cr, ci, -w.0, -w.1, d + 1);
    }
}

/// Greyscale intensity of a visit count: the count itself, saturated at the
/// byte maximum.
pub open spec fn grey_s(count: int) -> int {
    if count > 255 {
        255
    } else {
        count
    }
}

/// The RGBA quad of cell `i`: the greyscale of its count on the colour
/// channels, alpha opaque.
pub open spec fn grey_match(img: Seq<u8>, count: int, i: int) -> bool {
    &&& img[4 * i] as int == grey_s(count)
    &&& img[4 * i + 1] as int == grey_s(count)
    &&& img[4 * i + 2] as int == grey_s(count)
    &&& img[4 * i + 3] == 255u8
}

/// The inverse-iteration engine: plane window, moving parameter `c`,
/// attractor `a`, the visit-count buffer and the rendered greyscale image.
pub struct InverseJulia {
    pub z: ZPlane,
    pub c: Cplx,
    pub a: Cplx,
    pub cells: Vec<u32>,
    pub image: Vec<u8>,
}

impl InverseJulia {
    pub open spec fn wf(self) -> bool {
        &&& self.z.wf()
        &&& fx_ok(self.c.re as int)
        &&& fx_ok(self.c.im as int)
        &&& fx_ok(self.a.re as int)
        &&& fx_ok(self.a.im as int)
        &&& self.cells@.len() == self.z.ncells()
        &&& self.image@.len() == 4 * self.z.ncells()
    }

    /// The buffer holds exactly the visit counts of one full draw with the
    /// current window and parameter.
    pub open spec fn synced(self) -> bool {
        self.cells@ == trace_buf_s(self.z, self.c.re as int, self.c.im as int)
    }

    /// Re-run both phases from scratch: the buffer is fully determined by
    /// the window and `c`, and its sum is exactly the fixed total.
    #[verifier::loop_isolation(false)]
    pub fn draw(&mut self)
        requires
            old(self).z.wf(),
            fx_ok(old(self).c.re as int),
            fx_ok(old(self).c.im as int),
        ensures
            final(self).z == old(self).z,
            final(self).c == old(self).c,
            final(self).a == old(self).a,
            final(self).image == old(self).image,
            final(self).synced(),
            final(self).cells@.len() == old(self).z.ncells(),
            vsum(final(self).cells@) == TRACE_TOTAL as int,
    {
        proof {
            assert(self.z.size.0 as int * (self.z.size.1 as int) <= 4096 * 4096)
                by (nonlinear_arith)
                requires
                    0 < self.z.size.0 as int <= 4096,
                    0 < self.z.size.1 as int <= 4096,
            ;
        }
        let n: usize = (self.z.size.0 as usize) * (self.z.size.1 as usize);
        let mut cells: Vec<u32> = Vec::new();
        let mut i: usize = 0;
        while i < n
            invariant
                i <= n,
                cells@.len() == i,
                forall|j: int| 0 <= j < i ==> cells@[j] == 0u32,
                vsum(cells@) == 0,
            decreases n - i,
        {
            let ghost prev = cells@;
            cells.push(0);
            proof {
                assert(cells@.drop_last() =~= prev);
                assert(vsum(cells@) == vsum(prev) + 0);
            }
            i = i + 1;
        }
        proof {
            assert(cells@ =~= Seq::new(self.z.ncells() as nat, |j: int| 0u32));
        }

        // warmup: shed the transient bias of the seed
        let cr = self.c.re;
        let ci = self.c.im;
        let ghost wtarget = warm_s(0, 0, LCG_SEED as int, cr as int, ci as int, WARMUP as nat);
        let mut zr: i64 = 0;
        let mut zi: i64 = 0;
        let mut rng: u64 = LCG_SEED;
        let mut k: usize = 0;
        while k < WARMUP
            invariant
                k <= WARMUP,
                fx_ok(zr as int),
                fx_ok(zi as int),
                warm_s(zr as int, zi as int, rng as int, cr as int, ci as int, (WARMUP - k) as nat)
                    == wtarget,
            decreases WARMUP - k,
        {
            let s2 = lcg_next(rng);
            let sr = fx_sub(zr, cr);
            let si = fx_sub(zi, ci);
            let w = csqrt(sr, si);
            if s2 >= 0x8000_0000_0000_0000 {
                zr = w.0;
                zi = w.1;
            } else {
                zr = -w.0;
                zi = -w.1;
            }
            rng = s2;
            k = k + 1;
        }
        assert(zr as int == wtarget.0 && zi as int == wtarget.1);

        // visit the warmed-up point itself
        let ia = self.z.index_near_point(&(Cplx { re: zr, im: zi }));
        let ib = self.z.index_near_point(&(Cplx { re: -zr, im: -zi }));
        bump_cell(&mut cells, ia);
        bump_cell(&mut cells, ib);

        // recursive exploration of both branches, depth-bounded
        proof {
            lemma_tree_weight_root();
        }
        explore(&mut cells, &self.z, cr, ci, zr, zi, 0);

        // iterative refinement from the last tree state
        let ghost st0 = (cells@, zr as int, zi as int, false);
        let ghost rtarget = refine_s(st0, self.z, cr as int, ci as int, REFINE_STEPS as nat);
        let mut alt: bool = false;
        let mut step: usize = 0;
        while step < REFINE_STEPS
            invariant
                step <= REFINE_STEPS,
                fx_ok(zr as int),
                fx_ok(zi as int),
                cells@.len() == self.z.ncells(),
                vsum(cells@) == 16384 + 2 * step,
                refine_s(
                    (cells@, zr as int, zi as int, alt),
                    self.z,
                    cr as int,
                    ci as int,
                    (REFINE_STEPS - step) as nat,
                ) == rtarget,
            decreases REFINE_STEPS - step,
        {
            let sr = fx_sub(zr, cr);
            let si = fx_sub(zi, ci);
            let w = csqrt(sr, si);
            let nzr = if alt {
                w.0
            } else {
                -w.0
            };
            let nzi = if alt {
                w.1
            } else {
                -w.1
            };
            let idx = self.z.index_near_point(&(Cplx { re: nzr, im: nzi }));
            let idx2 = self.z.index_near_point(&(Cplx { re: -nzr, im: -nzi }));
            let ghost before = (cells@, zr as int, zi as int, alt);
            let visited = cells[idx] > 0;
            if visited {
                alt = !alt;
            }
            bump_cell(&mut cells, idx);
            bump_cell(&mut cells, idx2);
            zr = nzr;
            zi = nzi;
            proof {
                assert(refine_step_s(before, self.z, cr as int, ci as int) == (
                    cells@,
                    zr as int,
                    zi as int,
                    alt,
                ));
            }
            step = step + 1;
        }
        self.cells = cells;
    }

    /// Build an engine over the symmetric window and run the first draw.
    pub fn new(cr: i64, ci: i64, scale: i64, width: u32, height: u32) -> (t: InverseJulia)
        requires
            0 < width <= MAX_DIM,
            0 < height <= MAX_DIM,
            fx_ok(cr as int),
            fx_ok(ci as int),
            1 <= scale <= FX_LIM,
            (width as int) <= (scale as int) * (height as int),
            (scale as int) * (height as int) <= (FX_LIM as int) * (width as int),
        ensures
            t.wf(),
            t.z == julia_plane_s(scale as int, width, height),
            t.c == (Cplx { re: cr, im: ci }),
            t.a == (Cplx { re: 0i64, im: 0i64 }),
            t.synced(),
            vsum(t.cells@) == TRACE_TOTAL as int,
    {
        proof {
            assert((scale as int) * (height as int) / (width as int) >= 1) by (nonlinear_arith)
                requires
                    (width as int) <= (scale as int) * (height as int),
                    0 < width,
            ;
            assert((scale as int) * (height as int) / (width as int) <= FX_LIM as int)
                by (nonlinear_arith)
                requires
                    (scale as int) * (height as int) <= (FX_LIM as int) * (width as int),
                    0 < width,
                    0 < FX_LIM,
            ;
            assert((scale as int) * (height as int) <= (FX_LIM as int) * 4096)
                by (nonlinear_arith)
                requires
                    0 < scale as int <= FX_LIM as int,
                    0 < height as int <= 4096,
            ;
        }
        let yscale: i64 = (((scale as u64) * (height as u64)) / (width as u64)) as i64;
        let bl = Cplx { re: -scale, im: -yscale };
        let tr = Cplx { re: scale, im: yscale };
        let z = ZPlane::new(bl, tr, (width, height));
        let image = zero_image((width, height));
        let mut t = InverseJulia {
            z,
            c: Cplx { re: cr, im: ci },
            a: Cplx { re: 0, im: 0 },
            cells: Vec::new(),
            image,
        };
        t.draw();
        t
    }

    /// Point the attractor at the plane point of a raster cell.
    pub fn set_attract(&mut self, row: u32, col: u32)
        requires
            old(self).z.wf(),
            (row as int) < old(self).z.size.1 as int,
            (col as int) < old(self).z.size.0 as int,
        ensures
            final(self).a.re as int == old(self).z.point_re_s(col as int),
            final(self).a.im as int == old(self).z.point_im_s(row as int),
            fx_ok(final(self).a.re as int),
            fx_ok(final(self).a.im as int),
            final(self).z == old(self).z,
            final(self).c == old(self).c,
            final(self).cells == old(self).cells,
            final(self).image == old(self).image,
    {
        let a = self.z.point_from_rc((row, col));
        self.a = a;
    }

    /// One animation step: move `c` toward the attractor exactly as the
    /// escape-time engine does, then re-run both phases.
    pub fn tick(&mut self)
        requires
            old(self).z.wf(),
            fx_ok(old(self).c.re as int),
            fx_ok(old(self).c.im as int),
            fx_ok(old(self).a.re as int),
            fx_ok(old(self).a.im as int),
        ensures
            (final(self).c.re as int, final(self).c.im as int) == tick_c_s(
                old(self).c,
                old(self).a,
                old(self).z,
            ),
            final(self).z == old(self).z,
            final(self).a == old(self).a,
            final(self).image == old(self).image,
            final(self).synced(),
            vsum(final(self).cells@) == TRACE_TOTAL as int,
    {
        let dre = crate::fixed::fx_mul(fx_sub(self.a.re, self.c.re), crate::julia::SPEED_FX);
        let dim = crate::fixed::fx_mul(fx_sub(self.a.im, self.c.im), crate::julia::SPEED_FX);
        let mut cre = crate::fixed::fx_add(self.c.re, dre);
        let mut cim = crate::fixed::fx_add(self.c.im, dim);
        if cre > self.z.zmax.re {
            cre = self.z.zmax.re;
        }
        if cre < self.z.zmin.re {
            cre = self.z.zmin.re;
        }
        if cim > self.z.zmax.im {
            cim = self.z.zmax.im;
        }
        if cim < self.z.zmin.im {
            cim = self.z.zmin.im;
        }
        self.c = Cplx { re: cre, im: cim };
        self.draw();
    }

    /// Render the visit counts as opaque greyscale, no colour table.
    #[verifier::loop_isolation(false)]
    pub fn render(&mut self)
        requires
            old(self).wf(),
        ensures
            final(self).z == old(self).z,
            final(self).c == old(self).c,
            final(self).a == old(self).a,
            final(self).cells == old(self).cells,
            final(self).image@.len() == 4 * old(self).z.ncells(),
            forall|i: int|
                0 <= i < final(self).z.ncells() ==> grey_match(
                    final(self).image@,
                    final(self).cells@[i] as int,
                    i,
                ),
    {
        let n: usize = self.cells.len();
        let mut img: Vec<u8> = Vec::new();
        let mut i: usize = 0;
        while i < n
            invariant
                i <= n,
                img@.len() == 4 * i,
                forall|j: int| 0 <= j < i ==> grey_match(img@, self.cells@[j] as int, j),
            decreases n - i,
        {
            let count = self.cells[i];
            let g: u8 = if count > 255 {
                255
            } else {
                count as u8
            };
            img.push(g);
            img.push(g);
            img.push(g);
            img.push(255);
            i = i + 1;
        }
        self.image = img;
    }

    /// The rendered RGBA buffer.
    pub fn image_buffer(&self) -> (v: &Vec<u8>)
        ensures
            v@ == self.image@,
    {
        &self.image
    }
}

/// Determinism: two synced engines over the same window and parameter hold
/// identical visit-count buffers.
pub proof fn lemma_trace_redraw_identical(t1: InverseJulia, t2: InverseJulia)
    requires
        t1.synced(),
        t2.synced(),
        t1.z == t2.z,
        t1.c == t2.c,
    ensures
        t1.cells@ == t2.cells@,
{
}

} // verus!
