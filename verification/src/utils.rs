//! Colour mapper: a cyclic RGBA lookup table built from a periodic
//! trigonometric intensity curve, evaluated in fixed-point arithmetic.

use vstd::prelude::*;

use crate::fixed::FX_ONE;

verus! {

/// One RGBA colour-table entry.
#[derive(Clone, Copy, PartialEq, Eq, Structural)]
pub struct Rgba {
    pub r: u8,
    pub g: u8,
    pub b: u8,
    pub a: u8,
}

/// Pi in fixed-point units (24 fractional bits), rounded down.
pub const PI_FX: u64 = 52707178;

/// Pi/2 in fixed-point units; exactly half of `PI_FX`.
pub const PI_HALF_FX: u64 = 26353589;

/// 2*Pi in fixed-point units; exactly twice `PI_FX`, so that folding an
/// angle into `[0, PI_FX]` is exact.
pub const TWO_PI_FX: u64 = 105414356;

/// Saturation into the unit interval `[-1, 1]` in fixed-point units.
pub open spec fn unit_clip(x: int) -> int {
    if x > FX_ONE as int {
        FX_ONE as int
    } else if x < -(FX_ONE as int) {
        -(FX_ONE as int)
    } else {
        x
    }
}

/// Cosine on `[0, Pi/2]` by its Taylor series through the eighth power,
/// every term truncated downward, the sum saturated into the unit interval.
pub open spec fn cos_taylor_s(u: int) -> int {
    let u2 = u * u / (FX_ONE as int);
    let p4 = u2 * u2 / (FX_ONE as int);
    let p6 = p4 * u2 / (FX_ONE as int);
    let p8 = p4 * p4 / (FX_ONE as int);
    unit_clip(FX_ONE - u2 / 2 + p4 / 24 - p6 / 720 + p8 / 40320)
}

/// Cosine of a non-negative fixed-point angle: reduce modulo 2*Pi, fold into
/// `[0, Pi]`, then into `[0, Pi/2]` with the sign flipped past the quarter
/// turn.
pub open spec fn cos_fx_s(x: int) -> int {
    let rm = x % (TWO_PI_FX as int);
    let fold = if rm > PI_FX as int {
        TWO_PI_FX - rm
    } else {
        rm
    };
    if fold > PI_HALF_FX as int {
        -cos_taylor_s(PI_FX - fold)
    } else {
        cos_taylor_s(fold)
    }
}

fn cos_taylor(u: u64) -> (c: i64)
    requires
        u <= PI_HALF_FX,
    ensures
        c as int == cos_taylor_s(u as int),
        -(FX_ONE as int) <= c as int <= FX_ONE as int,
{
    proof {
        assert((u as int) * (u as int) <= 0x2000000 * 0x2000000) by (nonlinear_arith)
            requires
                0 <= u as int <= 0x2000000,  // 2^25
        ;
    }
    let u2: u64 = u * u / (FX_ONE as u64);
    proof {
        assert(u2 as int <= 0x4000000) by (nonlinear_arith)  // 2^26
            requires
                u2 as int == (u as int) * (u as int) / (FX_ONE as int),
                (u as int) * (u as int) <= 0x2000000 * 0x2000000,
                FX_ONE == 0x100_0000,
        ;
        assert((u2 as int) * (u2 as int) <= 0x4000000 * 0x4000000) by (nonlinear_arith)
            requires
                0 <= u2 as int <= 0x4000000,
        ;
    }
    let p4: u64 = u2 * u2 / (FX_ONE as u64);
    proof {
        assert(p4 as int <= 0x10000000) by (nonlinear_arith)  // 2^28
            requires
                p4 as int == (u2 as int) * (u2 as int) / (FX_ONE as int),
                (u2 as int) * (u2 as int) <= 0x4000000 * 0x4000000,
                FX_ONE == 0x100_0000,
        ;
        assert((p4 as int) * (u2 as int) <= 0x10000000 * 0x4000000) by (nonlinear_arith)
            requires
                0 <= u2 as int <= 0x4000000,
                0 <= p4 as int <= 0x10000000,
        ;
        assert((p4 as int) * (p4 as int) <= 0x10000000 * 0x10000000) by (nonlinear_arith)
            requires
                0 <= p4 as int <= 0x10000000,
        ;
    }
    let p6: u64 = p4 * u2 / (FX_ONE as u64);
    let p8: u64 = p4 * p4 / (FX_ONE as u64);
    let v: i64 = FX_ONE - (u2 / 2) as i64 + (p4 / 24) as i64 - (p6 / 720) as i64 + (p8 / 40320)
        as i64;
    if v > FX_ONE {
        FX_ONE
    } else if v < -FX_ONE {
        -FX_ONE
    } else {
        v
    }
}

/// Cosine of a non-negative fixed-point angle.
pub fn fx_cos(x: u64) -> (c: i64)
    ensures
        c as int == cos_fx_s(x as int),
        -(FX_ONE as int) <= c as int <= FX_ONE as int,
{
    let rm: u64 = x % TWO_PI_FX;
    let fold: u64 = if rm > PI_FX {
        TWO_PI_FX - rm
    } else {
        rm
    };
    if fold > PI_HALF_FX {
        -cos_taylor(PI_FX - fold)
    } else {
        cos_taylor(fold)
    }
}

/// Intensity of colour-table entry `i` for cycle multiplier `m` and table
/// size `n`: `255 - 127.5 * (1 - cos(i * m * Pi / (n - 1)))`, truncated.
pub open spec fn channel_s(i: int, m: int, n: int) -> int {
    let theta = i * m * (PI_FX as int) / (n - 1);
    255 - 255 * (FX_ONE - cos_fx_s(theta)) / (2 * (FX_ONE as int))
}

/// The colour curve starts saturated: entry 0 is 255 on every channel.
pub proof fn lemma_colour_table_origin(m: int, n: int)
    requires
        n >= 2,
        m >= 0,
    ensures
        channel_s(0, m, n) == 255,
{
    assert(0 * m == 0) by (nonlinear_arith);
    assert(0 * (PI_FX as int) == 0) by (nonlinear_arith);
    assert(0int / (n - 1) == 0) by (nonlinear_arith)
        requires
            n >= 2,
    ;
    assert(0int % (TWO_PI_FX as int) == 0) by (nonlinear_arith);
    assert(cos_fx_s(0) == FX_ONE);
    assert(channel_s(0, m, n) == 255);
}

fn intensity(i: usize, m: usize, n: usize) -> (v: u8)
    requires
        2 <= n <= 65536,
        m <= 1024,
        i < n,
    ensures
        v as int == channel_s(i as int, m as int, n as int),
{
    proof {
        assert((i as int) * (m as int) <= 65536 * 1024) by (nonlinear_arith)
            requires
                0 <= i as int <= 65536,
                0 <= m as int <= 1024,
        ;
        assert((i as int) * (m as int) * (PI_FX as int) <= 65536 * 1024 * 0x4000000)
            by (nonlinear_arith)
            requires
                0 <= (i as int) * (m as int) <= 65536 * 1024,
                0 < PI_FX as int <= 0x4000000,
        ;
    }
    let num: u64 = (i as u64) * (m as u64) * PI_FX;
    let theta: u64 = num / ((n - 1) as u64);
    let c: i64 = fx_cos(theta);
    let dif: u64 = (FX_ONE - c) as u64;
    let q: u64 = 255 * dif / (2 * FX_ONE as u64);
    proof {
        assert(q as int <= 255) by (nonlinear_arith)
            requires
                q as int == 255 * (dif as int) / (2 * (FX_ONE as int)),
                0 <= dif as int <= 2 * (FX_ONE as int),
                FX_ONE == 0x100_0000,
        ;
    }
    (255 - q) as u8
}

/// Colour-table entry `i` of a table of size `n` with per-channel cycle
/// multipliers `(c0, c1, c2)` and fixed alpha.
pub open spec fn cmap_entry_s(i: int, c0: int, c1: int, c2: int, alpha: u8, n: int) -> Rgba {
    Rgba {
        r: channel_s(i, c0, n) as u8,
        g: channel_s(i, c1, n) as u8,
        b: channel_s(i, c2, n) as u8,
        a: alpha,
    }
}

/// Build the cyclic colour lookup table: `n` RGBA entries, each channel a
/// truncated trigonometric intensity, the alpha fixed.
pub fn colour_map(n: usize, cycles: (usize, usize, usize), alpha: u8) -> (table: Vec<Rgba>)
    requires
        2 <= n <= 65536,
        cycles.0 <= 1024,
        cycles.1 <= 1024,
        cycles.2 <= 1024,
    ensures
        table@.len() == n,
        forall|i: int|
            0 <= i < n ==> table@[i] == cmap_entry_s(
                i,
                cycles.0 as int,
                cycles.1 as int,
                cycles.2 as int,
                alpha,
                n as int,
            ),
        table@[0] == (Rgba { r: 255u8, g: 255u8, b: 255u8, a: alpha }),
{
    let mut table: Vec<Rgba> = Vec::new();
    let mut i: usize = 0;
    while i < n
        invariant
            2 <= n <= 65536,
            cycles.0 <= 1024,
            cycles.1 <= 1024,
            cycles.2 <= 1024,
            i <= n,
            table@.len() == i,
            forall|j: int|
                0 <= j < i ==> table@[j] == cmap_entry_s(
                    j,
                    cycles.0 as int,
                    cycles.1 as int,
                    cycles.2 as int,
                    alpha,
                    n as int,
                ),
        decreases n - i,
    {
        let entry = Rgba {
            r: intensity(i, cycles.0, n),
            g: intensity(i, cycles.1, n),
            b: intensity(i, cycles.2, n),
            a: alpha,
        };
        table.push(entry);
        i = i + 1;
    }
    proof {
        lemma_colour_table_origin(cycles.0 as int, n as int);
        lemma_colour_table_origin(cycles.1 as int, n as int);
        lemma_colour_table_origin(cycles.2 as int, n as int);
    }
    table
}

} // verus!
