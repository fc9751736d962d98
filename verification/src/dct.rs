//! Fixed-point inverse discrete cosine transform of an 8x8 block, and the
//! assembly of its outputs into samples: round, level-shift by +128, clamp.
//!
//! The transform is the direct type-III DCT sum with the basis values
//! `C(u) * cos((2x+1) u pi / 16)` scaled by 2^12 and rounded; a scaled
//! residual is therefore 2^26 times the spatial value, and the assembler
//! divides that out with round-to-nearest.

use vstd::prelude::*;

use crate::entropy::as_ints;

verus! {

/// The scaled cosine basis: `round(4096 * C(u) * cos((2x+1) u pi / 16))`,
/// with `C(0) = 1/sqrt(2)` and `C(u) = 1` otherwise.
pub open spec fn cosv(u: int, x: int) -> int {
    if u == 0 { 2896 } else if u == 1 {
        if x == 0 { 4017 } else if x == 1 { 3406 } else if x == 2 { 2276 } else if x == 3 { 799 } else if x == 4 { -799 } else if x == 5 { -2276 } else if x == 6 { -3406 } else if x == 7 { -4017 } else { 0 }
    } else if u == 2 {
        if x == 0 { 3784 } else if x == 1 { 1567 } else if x == 2 { -1567 } else if x == 3 { -3784 } else if x == 4 { -3784 } else if x == 5 { -1567 } else if x == 6 { 1567 } else if x == 7 { 3784 } else { 0 }
    } else if u == 3 {
        if x == 0 { 3406 } else if x == 1 { -799 } else if x == 2 { -4017 } else if x == 3 { -2276 } else if x == 4 { 2276 } else if x == 5 { 4017 } else if x == 6 { 799 } else if x == 7 { -3406 } else { 0 }
    } else if u == 4 {
        if x == 0 { 2896 } else if x == 1 { -2896 } else if x == 2 { -2896 } else if x == 3 { 2896 } else if x == 4 { 2896 } else if x == 5 { -2896 } else if x == 6 { -2896 } else if x == 7 { 2896 } else { 0 }
    } else if u == 5 {
        if x == 0 { 2276 } else if x == 1 { -4017 } else if x == 2 { 799 } else if x == 3 { 3406 } else if x == 4 { -3406 } else if x == 5 { -799 } else if x == 6 { 4017 } else if x == 7 { -2276 } else { 0 }
    } else if u == 6 {
        if x == 0 { 1567 } else if x == 1 { -3784 } else if x == 2 { 3784 } else if x == 3 { -1567 } else if x == 4 { -1567 } else if x == 5 { 3784 } else if x == 6 { -3784 } else if x == 7 { 1567 } else { 0 }
    } else if u == 7 {
        if x == 0 { 799 } else if x == 1 { -2276 } else if x == 2 { 3406 } else if x == 3 { -4017 } else if x == 4 { 4017 } else if x == 5 { -3406 } else if x == 6 { 2276 } else if x == 7 { -799 } else { 0 }
    } else {
        0
    }
}
pub fn cos_at(u: usize, x: usize) -> (r: i32)
    requires
        u < 8,
        x < 8,
    ensures
        r == cosv(u as int, x as int),
        -4096 <= r <= 4096,
{
    match u {
        0 => 2896,
        1 => match x {
            0 => 4017,
            1 => 3406,
            2 => 2276,
            3 => 799,
            4 => -799,
            5 => -2276,
            6 => -3406,
            7 => -4017,
            _ => 0,
        },
        2 => match x {
            0 => 3784,
            1 => 1567,
            2 => -1567,
            3 => -3784,
            4 => -3784,
            5 => -1567,
            6 => 1567,
            7 => 3784,
            _ => 0,
        },
        3 => match x {
            0 => 3406,
            1 => -799,
            2 => -4017,
            3 => -2276,
            4 => 2276,
            5 => 4017,
            6 => 799,
            7 => -3406,
            _ => 0,
        },
        4 => match x {
            0 => 2896,
            1 => -2896,
            2 => -2896,
            3 => 2896,
            4 => 2896,
            5 => -2896,
            6 => -2896,
            7 => 2896,
            _ => 0,
        },
        5 => match x {
            0 => 2276,
            1 => -4017,
            2 => 799,
            3 => 3406,
            4 => -3406,
            5 => -799,
            6 => 4017,
            7 => -2276,
            _ => 0,
        },
        6 => match x {
            0 => 1567,
            1 => -3784,
            2 => 3784,
            3 => -1567,
            4 => -1567,
            5 => 3784,
            6 => -3784,
            7 => 1567,
            _ => 0,
        },
        7 => match x {
            0 => 799,
            1 => -2276,
            2 => 3406,
            3 => -4017,
            4 => 4017,
            5 => -3406,
            6 => 2276,
            7 => -799,
            _ => 0,
        },
        _ => 0,
    }
}

/// One summand of the transform at output (x, y) and frequency (u, v).
pub open spec fn term(f: Seq<int>, x: int, y: int, u: int, v: int) -> int {
    cosv(u, x) * cosv(v, y) * f[8 * v + u]
}

/// Sum of the terms at (x, y) for frequency column `u`, rows `v..8`.
pub open spec fn sum_v(f: Seq<int>, x: int, y: int, u: int, v: int) -> int
    decreases 8 - v,
{
    if v < 0 || v >= 8 {
        0
    } else {
        term(f, x, y, u, v) + sum_v(f, x, y, u, v + 1)
    }
}

/// Sum of the column sums at (x, y) for frequency columns `u..8`.
pub open spec fn sum_u(f: Seq<int>, x: int, y: int, u: int) -> int
    decreases 8 - u,
{
    if u < 0 || u >= 8 {
        0
    } else {
        sum_v(f, x, y, u, 0) + sum_u(f, x, y, u + 1)
    }
}

/// 2^26 times the spatial sample at (x, y) of the inverse DCT of `f`
/// (natural raster order, `f[8v + u]` the coefficient of column frequency
/// `u` and row frequency `v`).
pub open spec fn idct_fix(f: Seq<int>, x: int, y: int) -> int {
    sum_u(f, x, y, 0)
}

/// Inverse DCT of a natural-order coefficient block; entry `8y + x` of the
/// result is the scaled residual at column `x`, row `y`.
pub fn inverse_dct(f: &Vec<i32>) -> (r: Vec<i64>)
    requires
        f.len() == 64,
        forall|i: int| 0 <= i < 64 ==> -522240 <= #[trigger] f@[i] <= 522240,
    ensures
        r@.len() == 64,
        forall|x: int, y: int|
            0 <= x < 8 && 0 <= y < 8 ==> r@[8 * y + x] == idct_fix(as_ints(f@), x, y),
        forall|i: int|
            0 <= i < 64 ==> -560750930165760 <= #[trigger] r@[i] <= 560750930165760,
{
    let ghost fi = as_ints(f@);
    proof {
        assert forall|i: int| 0 <= i < 64 implies -522240 <= #[trigger] fi[i] <= 522240 by {
            assert(fi[i] == f@[i] as int);
        }
    }
    let mut r: Vec<i64> = Vec::new();
    let mut y: usize = 0;
    while y < 8
        invariant
            f.len() == 64,
            fi == as_ints(f@),
            forall|i: int| 0 <= i < 64 ==> -522240 <= #[trigger] fi[i] <= 522240,
            y <= 8,
            r@.len() == 8 * y,
            forall|i: int, j: int|
                0 <= i < 8 && 0 <= j < y ==> r@[8 * j + i] == idct_fix(fi, i, j),
            forall|i: int|
                0 <= i < 8 * y ==> -560750930165760 <= #[trigger] r@[i] <= 560750930165760,
        decreases 8 - y,
    {
        let mut x: usize = 0;
        while x < 8
            invariant
                f.len() == 64,
                fi == as_ints(f@),
                forall|i: int| 0 <= i < 64 ==> -522240 <= #[trigger] fi[i] <= 522240,
                y < 8,
                x <= 8,
                r@.len() == 8 * y + x,
                forall|i: int, j: int|
                    0 <= i < 8 && 0 <= j < y ==> r@[8 * j + i] == idct_fix(fi, i, j),
                forall|i: int| 0 <= i < x ==> r@[8 * y + i] == idct_fix(fi, i, y as int),
                forall|i: int|
                    0 <= i < 8 * y + x ==> -560750930165760 <= #[trigger] r@[i]
                        <= 560750930165760,
            decreases 8 - x,
        {
            let mut acc: i64 = 0;
            let mut u: usize = 0;
            while u < 8
                invariant
                    f.len() == 64,
                    fi == as_ints(f@),
                    forall|i: int| 0 <= i < 64 ==> -522240 <= #[trigger] fi[i] <= 522240,
                    x < 8,
                    y < 8,
                    u <= 8,
                    acc + sum_u(fi, x as int, y as int, u as int) == sum_u(
                        fi,
                        x as int,
                        y as int,
                        0,
                    ),
                    -70093866270720 * u <= acc <= 70093866270720 * u,
                decreases 8 - u,
            {
                let mut inner: i64 = 0;
                let mut v: usize = 0;
                while v < 8
                    invariant
                        f.len() == 64,
                        fi == as_ints(f@),
                        forall|i: int| 0 <= i < 64 ==> -522240 <= #[trigger] fi[i] <= 522240,
                        x < 8,
                        y < 8,
                        u < 8,
                        v <= 8,
                        inner + sum_v(fi, x as int, y as int, u as int, v as int) == sum_v(
                            fi,
                            x as int,
                            y as int,
                            u as int,
                            0,
                        ),
                        -8761733283840 * v <= inner <= 8761733283840 * v,
                    decreases 8 - v,
                {
                    let cu = cos_at(u, x);
                    let cv = cos_at(v, y);
                    let coef = f[8 * v + u];
                    proof {
                        assert(fi[8 * v + u] == f@[8 * v + u] as int);
                        assert((cu as i64) * (cv as i64) * (coef as i64) <= 8761733283840
                            && (cu as i64) * (cv as i64) * (coef as i64) >= -8761733283840
                            && (cu as i64) * (cv as i64) <= 16777216
                            && (cu as i64) * (cv as i64) >= -16777216) by (nonlinear_arith)
                            requires
                                -4096 <= cu <= 4096,
                                -4096 <= cv <= 4096,
                                -522240 <= coef <= 522240,
                        ;
                    }
                    let prod = (cu as i64) * (cv as i64) * (coef as i64);
                    inner = inner + prod;
                    v = v + 1;
                }
                acc = acc + inner;
                u = u + 1;
            }
            r.push(acc);
            x = x + 1;
        }
        y = y + 1;
    }
    r
}

/// The sample a scaled residual yields: the spatial value rounded to
/// nearest, level-shifted by +128, and clamped to 0..=255. The two added
/// constants are 128 * 2^26 and 2^25 (the rounding half).
pub open spec fn pixel_of(s: int) -> int {
    let t = s + 8589934592 + 33554432;
    if t < 0 {
        0
    } else if t / 67108864 > 255 {
        255
    } else {
        t / 67108864
    }
}

/// Turns the 64 scaled residuals of a block into samples.
pub fn sums_to_pixels(sums: &Vec<i64>) -> (r: Vec<u8>)
    requires
        sums.len() == 64,
        forall|i: int|
            0 <= i < 64 ==> -560750930165760 <= #[trigger] sums@[i] <= 560750930165760,
    ensures
        r@.len() == 64,
        forall|i: int| 0 <= i < 64 ==> #[trigger] r@[i] as int == pixel_of(sums@[i] as int),
{
    let mut r: Vec<u8> = Vec::new();
    let mut i: usize = 0;
    while i < 64
        invariant
            sums.len() == 64,
            forall|j: int|
                0 <= j < 64 ==> -560750930165760 <= #[trigger] sums@[j] <= 560750930165760,
            i <= 64,
            r@.len() == i,
            forall|j: int| 0 <= j < i ==> #[trigger] r@[j] as int == pixel_of(sums@[j] as int),
        decreases 64 - i,
    {
        let t = sums[i] + 8589934592 + 33554432;
        let px: u8 = if t < 0 {
            0
        } else {
            let q = (t as u64) / 67108864;
            if q > 255 {
                255
            } else {
                q as u8
            }
        };
        r.push(px);
        i = i + 1;
    }
    r
}

} // verus!
