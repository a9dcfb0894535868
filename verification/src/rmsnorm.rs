//! Integer RMSNorm: `out[i] = x[i] * gamma[i] / sqrt(mean(x^2) + eps)`,
//! fully in integers via a floor square root over a 32-bit fixed point.
use vstd::prelude::*;
use vstd::arithmetic::power2::*;
use crate::arith::{clamp, sat_i32};
use crate::quant::shr_floor;

verus! {

/// Fractional bits of the reciprocal square root.
pub const FRACT_BITS: u32 = 16;

/// Default integer epsilon added to the sum of squares.
pub const DEFAULT_EPS_Q: i64 = 1;

#[derive(Debug, Clone, Copy, PartialEq, Eq)]
pub enum RmsNormError {
    LenMismatch,
    ZeroHidden,
}

/// Floor square root, defined by counting up.
pub open spec fn isqrt_spec(y: int) -> int
    decreases y,
{
    if y <= 0 {
        0
    } else {
        let s = isqrt_spec(y - 1);
        if (s + 1) * (s + 1) <= y { s + 1 } else { s }
    }
}

pub proof fn lemma_isqrt_spec(y: int)
    requires
        y >= 0,
    ensures
        isqrt_spec(y) >= 0,
        isqrt_spec(y) * isqrt_spec(y) <= y,
        y < (isqrt_spec(y) + 1) * (isqrt_spec(y) + 1),
    decreases y,
{
    if y > 0 {
        lemma_isqrt_spec(y - 1);
        let s = isqrt_spec(y - 1);
        if (s + 1) * (s + 1) <= y {
            assert(y < (s + 2) * (s + 2)) by (nonlinear_arith)
                requires
                    y - 1 < (s + 1) * (s + 1),
                    s >= 0,
            {}
        }
    }
}

/// The floor square root is the only non-negative `r` with
/// `r^2 <= y < (r+1)^2`.
pub proof fn lemma_isqrt_unique(y: int, r: int)
    requires
        y >= 0,
        r >= 0,
        r * r <= y,
        y < (r + 1) * (r + 1),
    ensures
        r == isqrt_spec(y),
{
    lemma_isqrt_spec(y);
    let s = isqrt_spec(y);
    if r < s {
        assert((r + 1) * (r + 1) <= s * s) by (nonlinear_arith)
            requires
                0 <= r < s,
        {}
    } else if r > s {
        assert((s + 1) * (s + 1) <= r * r) by (nonlinear_arith)
            requires
                0 <= s < r,
        {}
    }
}

/// Integer floor square root: the largest `k` with `k*k <= y`.
pub fn isqrt_floor(y: i64) -> (r: i64)
    requires
        y >= 0,
    ensures
        r == isqrt_spec(y as int),
        r >= 0,
        r * r <= y < (r + 1) * (r + 1),
{
    if y < 2 {
        proof {
            assert(y * y <= y < (y + 1) * (y + 1)) by (nonlinear_arith)
                requires 0 <= y < 2 {}
            lemma_isqrt_unique(y as int, y as int);
        }
        return y;
    }
    // Any start at or above the root works; 3037000500^2 exceeds i64::MAX.
    let mut x: i64 = if y < 3_037_000_500 { y } else { 3_037_000_500 };
    assert(y < (x + 1) * (x + 1)) by (nonlinear_arith)
        requires
            y >= 2,
            x == y || (x == 3_037_000_500 && y <= 0x7fff_ffff_ffff_ffff),
    {}
    loop
        invariant
            y >= 2,
            1 <= x <= 3_037_000_500,
            y < (x + 1) * (x + 1),
        decreases x,
    {
        assert(y / x <= x + 2) by (nonlinear_arith)
            requires
                y < (x + 1) * (x + 1),
                x >= 1,
                y >= 0,
        {
            vstd::arithmetic::div_mod::lemma_fundamental_div_mod(y as int, x as int);
            vstd::arithmetic::div_mod::lemma_mod_bound(y as int, x as int);
        }
        let q = y / x;
        let next = (x + q) / 2;
        if next >= x {
            proof {
                vstd::arithmetic::div_mod::lemma_fundamental_div_mod(y as int, x as int);
                vstd::arithmetic::div_mod::lemma_mod_bound(y as int, x as int);
                assert(x * x <= y) by (nonlinear_arith)
                    requires
                        q >= x,
                        y == x * q + y % x,
                        y % x >= 0,
                        x >= 1,
                {}
                lemma_isqrt_unique(y as int, x as int);
            }
            return x;
        }
        proof {
            vstd::arithmetic::div_mod::lemma_fundamental_div_mod(y as int, x as int);
            vstd::arithmetic::div_mod::lemma_mod_bound(y as int, x as int);
            let r = y % x;
            // y < x * (q + 1), and (x + q + 1)^2 >= 4 x (q + 1).
            assert(y < (next + 1) * (next + 1)) by (nonlinear_arith)
                requires
                    y == x * q + r,
                    0 <= r < x,
                    x >= 1,
                    q >= 0,
                    2 * next <= x + q,
                    x + q <= 2 * next + 1,
            {
                assert((x + q + 1) * (x + q + 1) >= 4 * x * (q + 1)) by (nonlinear_arith) {}
                assert(4 * (next + 1) * (next + 1) >= (x + q + 1) * (x + q + 1)) by (nonlinear_arith)
                    requires
                        x + q <= 2 * next + 1,
                        x + q >= 0,
                {}
            }
            assert(next >= 1) by (nonlinear_arith)
                requires
                    y < (next + 1) * (next + 1),
                    y >= 2,
                    next >= 0,
            {}
        }
        x = next;
    }
}

/// `sum_{j < n} x[j]^2`.
pub open spec fn sumsq(x: Seq<i8>, n: int) -> int
    decreases n,
{
    if n <= 0 {
        0
    } else {
        sumsq(x, n - 1) + (x[n - 1] as int) * (x[n - 1] as int)
    }
}

pub proof fn lemma_sumsq_bound(x: Seq<i8>, n: int)
    requires
        n >= 0,
    ensures
        0 <= sumsq(x, n) <= n * 16384,
    decreases n,
{
    if n > 0 {
        lemma_sumsq_bound(x, n - 1);
        let v = x[n - 1] as int;
        assert(0 <= v * v <= 16384) by (nonlinear_arith)
            requires
                -128 <= v <= 127,
        {}
    }
}

/// `max(saturating(s + eps), 1)` for `s >= 0`.
pub open spec fn norm_den(s: int, eps: int) -> int {
    let t = if s + eps > 0x7fff_ffff_ffff_ffff { 0x7fff_ffff_ffff_ffff } else { s + eps };
    if t < 1 { 1 } else { t }
}

/// Fixed-point reciprocal RMS: `isqrt((n << 32) / den)`.
pub open spec fn inv_rms(n: int, s: int, eps: int) -> int {
    isqrt_spec((n * 0x1_0000_0000) / norm_den(s, eps))
}

/// One RMSNorm output entry before requantization.
pub open spec fn norm_entry(v: int, inv: int) -> int {
    sat_i32((v * inv + 0x8000) / 0x1_0000)
}

pub open spec fn rmsnorm_spec(x: Seq<i8>, gamma: Seq<i8>, eps: int) -> Seq<i32> {
    let inv = inv_rms(x.len() as int, sumsq(x, x.len() as int), eps);
    Seq::new(x.len(), |i: int| norm_entry((x[i] as int) * (gamma[i] as int), inv) as i32)
}

/// `max(s.saturating_add(eps), 1)` for `0 <= s`.
pub fn norm_den_exec(s: i64, eps: i64) -> (r: i64)
    requires
        s >= 0,
    ensures
        r == norm_den(s as int, eps as int),
        r >= 1,
{
    let t = if eps > 0 && s > 0x7fff_ffff_ffff_ffffi64 - eps { 0x7fff_ffff_ffff_ffffi64 } else { s + eps };
    if t < 1 { 1 } else { t }
}

/// Reciprocal RMS in fixed point for `n` channels with sum of squares `s`.
pub fn inv_rms_exec(n: usize, s: i64, eps: i64) -> (r: i64)
    requires
        0 < n < 0x8000_0000,
        0 <= s,
    ensures
        r == inv_rms(n as int, s as int, eps as int),
        0 <= r <= 3_037_000_500,
{
    let num = (n as i64) * 0x1_0000_0000i64;
    let den = norm_den_exec(s, eps);
    let y = num / den;
    let r = isqrt_floor(y);
    proof {
        vstd::arithmetic::div_mod::lemma_div_is_ordered_by_denominator(num as int, 1, den as int);
        assert(r * r <= 0x7fff_ffff_ffff_ffff);
        assert(r <= 3_037_000_500) by (nonlinear_arith)
            requires
                r * r <= 0x7fff_ffff_ffff_ffff,
                r >= 0,
        {}
    }
    r
}

/// Shifted, rounded, saturated product `x * g * inv` as in RMSNorm.
pub fn norm_entry_exec(v: i64, inv: i64) -> (r: i32)
    requires
        -0x1_0000 <= v <= 0x1_0000,
        0 <= inv <= 3_037_000_500,
    ensures
        r == norm_entry(v as int, inv as int),
{
    assert(-0x1_0000_0000_0000 <= v * inv <= 0x1_0000_0000_0000) by (nonlinear_arith)
        requires
            -0x1_0000 <= v <= 0x1_0000,
            0 <= inv <= 3_037_000_500,
    {}
    let prod = v * inv;
    let shifted = shr_floor(prod + 0x8000, FRACT_BITS);
    proof {
        lemma2_to64();
    }
    if shifted < -0x8000_0000i64 {
        -0x8000_0000i32
    } else if shifted > 0x7fff_ffffi64 {
        0x7fff_ffffi32
    } else {
        shifted as i32
    }
}

/// Apply integer RMSNorm to `input`, writing the `i32` result to `output`.
pub fn rmsnorm(input: &[i8], gamma: &[i8], output: &mut [i32], eps_q: i64) -> (r: Result<(), RmsNormError>)
    requires
        input@.len() < 0x8000_0000,
    ensures
        input@.len() == 0 ==> r == Err::<(), RmsNormError>(RmsNormError::ZeroHidden),
        input@.len() != 0 && (gamma@.len() != input@.len() || old(output)@.len() != input@.len())
            ==> r == Err::<(), RmsNormError>(RmsNormError::LenMismatch),
        r is Err ==> final(output)@ == old(output)@,
        input@.len() != 0 && gamma@.len() == input@.len() && old(output)@.len() == input@.len()
            ==> r is Ok && final(output)@ == rmsnorm_spec(input@, gamma@, eps_q as int),
{
    let hidden = input.len();
    if hidden == 0 {
        return Err(RmsNormError::ZeroHidden);
    }
    if gamma.len() != hidden || output.len() != hidden {
        return Err(RmsNormError::LenMismatch);
    }
    let mut sum: i64 = 0;
    let mut j: usize = 0;
    while j < hidden
        invariant
            j <= hidden,
            hidden == input@.len(),
            hidden < 0x8000_0000,
            sum == sumsq(input@, j as int),
        decreases hidden - j,
    {
        proof {
            lemma_sumsq_bound(input@, j as int);
            assert(j * 16384 <= 0x8000_0000 * 16384) by (nonlinear_arith)
                requires j < 0x8000_0000 {}
        }
        let xi = input[j] as i64;
        assert(0 <= xi * xi <= 16384) by (nonlinear_arith)
            requires -128 <= xi <= 127 {}
        sum = sum + xi * xi;
        j = j + 1;
    }
    proof {
        lemma_sumsq_bound(input@, hidden as int);
    }
    let inv = inv_rms_exec(hidden, sum, eps_q);
    let ghost spec = rmsnorm_spec(input@, gamma@, eps_q as int);
    let mut i: usize = 0;
    while i < hidden
        invariant
            i <= hidden,
            hidden == input@.len(),
            hidden == gamma@.len(),
            hidden == output@.len(),
            inv == inv_rms(hidden as int, sumsq(input@, hidden as int), eps_q as int),
            0 <= inv <= 3_037_000_500,
            spec == rmsnorm_spec(input@, gamma@, eps_q as int),
            forall|t: int| 0 <= t < i ==> output@[t] == spec[t],
        decreases hidden - i,
    {
        let xa = input[i] as i64;
        let xg = gamma[i] as i64;
        assert(-16384 <= xa * xg <= 16384) by (nonlinear_arith)
            requires -128 <= xa <= 127, -128 <= xg <= 127 {}
        let v = xa * xg;
        output[i] = norm_entry_exec(v, inv);
        i = i + 1;
    }
    assert(output@ =~= spec);
    Ok(())
}

} // verus!
