//! Fixed-point arithmetic core.
//!
//! Every coordinate and complex value the engines handle is an `i64` carrying
//! 24 fractional bits (so `FX_ONE` stands for the real number 1). Products
//! are truncated toward zero and every result is saturated into
//! `[-FX_LIM, FX_LIM]`, which keeps all operations total and overflow-free.

use vstd::prelude::*;

verus! {

/// The real number 1 in fixed-point units (2^24).
pub const FX_ONE: i64 = 0x100_0000;

/// Saturation bound of every fixed-point value (2^44 units, i.e. 2^20).
pub const FX_LIM: i64 = 0x100_0000_0000;

/// Saturation of a mathematical integer into the fixed-point range.
pub open spec fn fx_clip(x: int) -> int {
    if x > FX_LIM as int {
        FX_LIM as int
    } else if x < -(FX_LIM as int) {
        -(FX_LIM as int)
    } else {
        x
    }
}

/// Truncation of `x / 2^24` toward zero, the rounding used after a product.
pub open spec fn fx_tdiv(x: int) -> int {
    if x >= 0 {
        x / (FX_ONE as int)
    } else {
        -((-x) / (FX_ONE as int))
    }
}

pub open spec fn fx_ok(a: int) -> bool {
    -(FX_LIM as int) <= a <= FX_LIM as int
}

pub open spec fn fx_add_s(a: int, b: int) -> int {
    fx_clip(a + b)
}

pub open spec fn fx_sub_s(a: int, b: int) -> int {
    fx_clip(a - b)
}

pub open spec fn fx_mul_s(a: int, b: int) -> int {
    fx_clip(fx_tdiv(a * b))
}

/// Saturate a raw `i64` into the fixed-point range.
pub fn fx_clamp(x: i64) -> (r: i64)
    ensures
        r as int == fx_clip(x as int),
        fx_ok(r as int),
{
    if x > FX_LIM {
        FX_LIM
    } else if x < -FX_LIM {
        -FX_LIM
    } else {
        x
    }
}

/// Saturating fixed-point addition.
pub fn fx_add(a: i64, b: i64) -> (r: i64)
    requires
        fx_ok(a as int),
        fx_ok(b as int),
    ensures
        r as int == fx_add_s(a as int, b as int),
        fx_ok(r as int),
{
    fx_clamp(a + b)
}

/// Saturating fixed-point subtraction.
pub fn fx_sub(a: i64, b: i64) -> (r: i64)
    requires
        fx_ok(a as int),
        fx_ok(b as int),
    ensures
        r as int == fx_sub_s(a as int, b as int),
        fx_ok(r as int),
{
    fx_clamp(a - b)
}

/// Saturating fixed-point product, truncated toward zero.
pub fn fx_mul(a: i64, b: i64) -> (r: i64)
    requires
        fx_ok(a as int),
        fx_ok(b as int),
    ensures
        r as int == fx_mul_s(a as int, b as int),
        fx_ok(r as int),
{
    let neg: bool = (a < 0) != (b < 0);
    let ma: u64 = if a < 0 {
        (-a) as u64
    } else {
        a as u64
    };
    let mb: u64 = if b < 0 {
        (-b) as u64
    } else {
        b as u64
    };
    proof {
        assert((ma as int) * (mb as int) <= (FX_LIM as int) * (FX_LIM as int)) by (nonlinear_arith)
            requires
                0 <= ma as int <= FX_LIM as int,
                0 <= mb as int <= FX_LIM as int,
        ;
    }
    let p: u128 = (ma as u128) * (mb as u128);
    let q: u128 = p / (FX_ONE as u128);
    let qc: i64 = if q > (FX_LIM as u128) {
        FX_LIM
    } else {
        q as i64
    };
    proof {
        let ai = a as int;
        let bi = b as int;
        let mai = ma as int;
        let mbi = mb as int;
        assert(ai * bi == if neg { -(mai * mbi) } else { mai * mbi }) by (nonlinear_arith)
            requires
                mai == if ai < 0 { -ai } else { ai },
                mbi == if bi < 0 { -bi } else { bi },
                neg == ((ai < 0) != (bi < 0)),
        ;
        assert(fx_tdiv(ai * bi) == if neg { -(q as int) } else { q as int });
        assert(qc as int == fx_clip(q as int));
    }
    if neg {
        -qc
    } else {
        qc
    }
}

/// Integer square root, defined by halving the argument two bits at a time.
pub open spec fn isqrt_s(n: nat) -> nat
    decreases n,
{
    if n == 0 {
        0
    } else {
        let h = isqrt_s(n / 4);
        if (2 * h + 1) * (2 * h + 1) <= n {
            2 * h + 1
        } else {
            2 * h
        }
    }
}

/// `isqrt_s(n)` is the floor of the square root of `n`.
pub proof fn lemma_isqrt(n: nat)
    ensures
        isqrt_s(n) * isqrt_s(n) <= n,
        n < (isqrt_s(n) + 1) * (isqrt_s(n) + 1),
    decreases n,
{
    if n == 0 {
        assert(isqrt_s(n) * isqrt_s(n) <= n && n < (isqrt_s(n) + 1) * (isqrt_s(n) + 1))
            by (nonlinear_arith)
            requires
                n == 0,
                isqrt_s(n) == 0,
        ;
    } else {
        lemma_isqrt(n / 4);
        let h = isqrt_s(n / 4);
        assert(4 * (n / 4) <= n && n <= 4 * (n / 4) + 3);
        assert((2 * h) * (2 * h) == 4 * (h * h)) by (nonlinear_arith);
        assert((2 * h + 2) * (2 * h + 2) == 4 * ((h + 1) * (h + 1))) by (nonlinear_arith);
        assert(h * h <= n / 4);
        assert(4 * (h * h) <= 4 * (n / 4)) by (nonlinear_arith)
            requires
                h * h <= n / 4,
        ;
        assert(n / 4 < (h + 1) * (h + 1));
        assert(4 * (n / 4) + 3 < 4 * ((h + 1) * (h + 1))) by (nonlinear_arith)
            requires
                n / 4 < (h + 1) * (h + 1),
        ;
        let r = isqrt_s(n);
        if (2 * h + 1) * (2 * h + 1) <= n {
            assert(r == 2 * h + 1);
            assert(r * r <= n && n < (r + 1) * (r + 1)) by (nonlinear_arith)
                requires
                    r == 2 * h + 1,
                    (2 * h + 1) * (2 * h + 1) <= n,
                    n < (2 * h + 2) * (2 * h + 2),
            ;
        } else {
            assert(r == 2 * h);
            assert(r * r <= n && n < (r + 1) * (r + 1)) by (nonlinear_arith)
                requires
                    r == 2 * h,
                    4 * (h * h) <= n,
                    !((2 * h + 1) * (2 * h + 1) <= n),
            ;
        }
    }
}

/// The square-root bracket pins its root down uniquely.
proof fn lemma_isqrt_unique(n: nat, r: nat)
    requires
        r * r <= n,
        n < (r + 1) * (r + 1),
    ensures
        r == isqrt_s(n),
{
    lemma_isqrt(n);
    let s = isqrt_s(n);
    assert(r == s) by (nonlinear_arith)
        requires
            r * r <= n,
            n < (r + 1) * (r + 1),
            s * s <= n,
            n < (s + 1) * (s + 1),
    ;
}

/// Integer square root by bisection.
pub fn isqrt(n: u128) -> (r: u64)
    requires
        (n as nat) < (0x200_0000_0000 as nat) * (0x200_0000_0000 as nat),  // 2^90
    ensures
        r as nat == isqrt_s(n as nat),
        r < 0x200_0000_0000,  // 2^45
{
    let mut lo: u64 = 0;
    let mut hi: u64 = 0x200_0000_0000;
    while lo + 1 < hi
        invariant
            (lo as nat) * (lo as nat) <= n as nat,
            (n as nat) < (hi as nat) * (hi as nat),
            lo < hi,
            hi <= 0x200_0000_0000,
        decreases hi - lo,
    {
        let mid: u64 = lo + (hi - lo) / 2;
        proof {
            assert((mid as int) * (mid as int) < (0x200_0000_0000 as int) * (0x200_0000_0000
                as int)) by (nonlinear_arith)
                requires
                    0 <= mid as int,
                    (mid as int) < 0x200_0000_0000,
            ;
        }
        if (mid as u128) * (mid as u128) <= n {
            lo = mid;
        } else {
            hi = mid;
        }
    }
    proof {
        lemma_isqrt_unique(n as nat, lo as nat);
    }
    lo
}

/// Square root of a non-negative fixed-point value, in fixed-point units.
pub open spec fn fx_sqrt_s(s: int) -> int {
    isqrt_s((s * (FX_ONE as int)) as nat) as int
}

pub fn fx_sqrt(s: i64) -> (r: i64)
    requires
        0 <= s,
        (s as int) < 0x400_0000_0000,  // 2^46
    ensures
        r as int == fx_sqrt_s(s as int),
        0 <= r < 0x10_0000_0000,  // 2^36
{
    proof {
        assert((s as int) * (FX_ONE as int) < (0x200_0000_0000 as int) * (0x200_0000_0000
            as int)) by (nonlinear_arith)
            requires
                0 <= s as int,
                (s as int) < 0x400_0000_0000,
        ;
    }
    let n: u128 = (s as u128) * (FX_ONE as u128);
    let r = isqrt(n);
    proof {
        lemma_isqrt(n as nat);
        assert(isqrt_s(n as nat) < 0x10_0000_0000) by (nonlinear_arith)
            requires
                isqrt_s(n as nat) * isqrt_s(n as nat) <= n as nat,
                (n as nat) < (0x10_0000_0000 as nat) * (0x10_0000_0000 as nat),  // 2^72
        ;
    }
    r as i64
}

/// Real part of the complex square root, in fixed-point units.
pub open spec fn csqrt_re_s(zr: int, zi: int) -> int {
    let m = isqrt_s((zr * zr + zi * zi) as nat) as int;
    fx_sqrt_s((m + zr) / 2)
}

/// Imaginary part of the complex square root; its sign follows `zi`.
pub open spec fn csqrt_im_s(zr: int, zi: int) -> int {
    let m = isqrt_s((zr * zr + zi * zi) as nat) as int;
    let w = fx_sqrt_s((m - zr) / 2);
    if zi >= 0 {
        w
    } else {
        -w
    }
}

/// Complex square root: magnitude via the integer root of `|z|^2`, the two
/// components via the half-angle identities.
pub fn csqrt(zr: i64, zi: i64) -> (w: (i64, i64))
    requires
        fx_ok(zr as int),
        fx_ok(zi as int),
    ensures
        w.0 as int == csqrt_re_s(zr as int, zi as int),
        w.1 as int == csqrt_im_s(zr as int, zi as int),
        fx_ok(w.0 as int),
        fx_ok(w.1 as int),
        0 <= w.0,
{
    let ar: u64 = if zr < 0 {
        (-zr) as u64
    } else {
        zr as u64
    };
    let ai: u64 = if zi < 0 {
        (-zi) as u64
    } else {
        zi as u64
    };
    proof {
        assert((ar as int) * (ar as int) == (zr as int) * (zr as int)) by (nonlinear_arith)
            requires
                ar as int == if (zr as int) < 0 { -(zr as int) } else { zr as int },
        ;
        assert((ai as int) * (ai as int) == (zi as int) * (zi as int)) by (nonlinear_arith)
            requires
                ai as int == if (zi as int) < 0 { -(zi as int) } else { zi as int },
        ;
        assert((ar as int) * (ar as int) <= (FX_LIM as int) * (FX_LIM as int)) by (nonlinear_arith)
            requires
                0 <= ar as int <= FX_LIM as int,
        ;
        assert((ai as int) * (ai as int) <= (FX_LIM as int) * (FX_LIM as int)) by (nonlinear_arith)
            requires
                0 <= ai as int <= FX_LIM as int,
        ;
    }
    let n: u128 = (ar as u128) * (ar as u128) + (ai as u128) * (ai as u128);
    let m: u64 = isqrt(n);
    proof {
        lemma_isqrt(n as nat);
        // m is at least |zr|: otherwise (m+1)^2 would be at most zr^2 <= n.
        assert(m as int >= ar as int) by (nonlinear_arith)
            requires
                (n as nat) < ((m as nat) + 1) * ((m as nat) + 1),
                n as int >= (ar as int) * (ar as int),
        ;
    }
    let hre: u64 = (((m as i64) + zr) as u64) / 2;
    let him: u64 = (((m as i64) - zr) as u64) / 2;
    let wr: i64 = fx_sqrt(hre as i64);
    let wim: i64 = fx_sqrt(him as i64);
    let wi: i64 = if zi >= 0 {
        wim
    } else {
        -wim
    };
    (wr, wi)
}

} // verus!
