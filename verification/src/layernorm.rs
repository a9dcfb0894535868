//! Integer LayerNorm: mean subtraction, fixed-point reciprocal standard
//! deviation through the same floor square root as RMSNorm, per-channel
//! `gamma` and `beta`.
use vstd::prelude::*;
use vstd::arithmetic::power2::*;
use crate::arith::{sat_i32, trunc_div};
use crate::quant::shr_floor;
use crate::rmsnorm::{inv_rms, inv_rms_exec, FRACT_BITS};

verus! {

pub const DEFAULT_EPS_Q: i64 = 1;

#[derive(Debug, Clone, Copy, PartialEq, Eq)]
pub enum LayerNormError {
    LenMismatch,
    ZeroHidden,
}

/// `sum_{j < n} x[j]`.
pub open spec fn sum_i8(x: Seq<i8>, n: int) -> int
    decreases n,
{
    if n <= 0 { 0 } else { sum_i8(x, n - 1) + x[n - 1] as int }
}

/// `sum_{j < n} (x[j] - mean)^2`.
pub open spec fn sumsq_dev(x: Seq<i8>, mean: int, n: int) -> int
    decreases n,
{
    if n <= 0 {
        0
    } else {
        sumsq_dev(x, mean, n - 1) + (x[n - 1] as int - mean) * (x[n - 1] as int - mean)
    }
}

pub open spec fn ln_mean(x: Seq<i8>) -> int {
    trunc_div(sum_i8(x, x.len() as int), x.len() as int)
}

pub open spec fn layernorm_spec(x: Seq<i8>, gamma: Seq<i8>, beta: Seq<i8>, eps: int) -> Seq<i32> {
    let mean = ln_mean(x);
    let inv = inv_rms(x.len() as int, sumsq_dev(x, mean, x.len() as int), eps);
    Seq::new(
        x.len(),
        |i: int|
            sat_i32(((x[i] as int - mean) * (gamma[i] as int) * inv + 0x8000) / 0x1_0000 + beta[i] as int) as i32,
    )
}

proof fn lemma_sum_i8_bound(x: Seq<i8>, n: int)
    requires
        n >= 0,
    ensures
        -128 * n <= sum_i8(x, n) <= 127 * n,
    decreases n,
{
    if n > 0 {
        lemma_sum_i8_bound(x, n - 1);
    }
}

proof fn lemma_sumsq_dev_bound(x: Seq<i8>, mean: int, n: int)
    requires
        n >= 0,
        -128 <= mean <= 127,
    ensures
        0 <= sumsq_dev(x, mean, n) <= n * 65536,
    decreases n,
{
    if n > 0 {
        lemma_sumsq_dev_bound(x, mean, n - 1);
        let d = x[n - 1] as int - mean;
        assert(0 <= d * d <= 65536) by (nonlinear_arith)
            requires -256 <= d <= 256 {}
    }
}

/// Apply integer LayerNorm to `input`, writing the `i32` result to `output`.
pub fn layernorm(input: &[i8], gamma: &[i8], beta: &[i8], output: &mut [i32], eps_q: i64) -> (r: Result<(), LayerNormError>)
    requires
        input@.len() < 0x8000_0000,
    ensures
        input@.len() == 0 ==> r == Err::<(), LayerNormError>(LayerNormError::ZeroHidden),
        input@.len() != 0 && (gamma@.len() != input@.len() || beta@.len() != input@.len() || old(output)@.len() != input@.len())
            ==> r == Err::<(), LayerNormError>(LayerNormError::LenMismatch),
        r is Err ==> final(output)@ == old(output)@,
        input@.len() != 0 && gamma@.len() == input@.len() && beta@.len() == input@.len() && old(output)@.len() == input@.len()
            ==> r is Ok && final(output)@ == layernorm_spec(input@, gamma@, beta@, eps_q as int),
{
    let hidden = input.len();
    if hidden == 0 {
        return Err(LayerNormError::ZeroHidden);
    }
    if gamma.len() != hidden || beta.len() != hidden || output.len() != hidden {
        return Err(LayerNormError::LenMismatch);
    }
    let mut sum: i64 = 0;
    let mut j: usize = 0;
    while j < hidden
        invariant
            j <= hidden,
            hidden == input@.len(),
            hidden < 0x8000_0000,
            sum == sum_i8(input@, j as int),
        decreases hidden - j,
    {
        proof {
            lemma_sum_i8_bound(input@, j as int);
        }
        sum = sum + input[j] as i64;
        j = j + 1;
    }
    let h = hidden as i64;
    proof {
        lemma_sum_i8_bound(input@, hidden as int);
    }
    let mean: i64 = if sum >= 0 { sum / h } else { -((-sum) / h) };
    proof {
        assert(-128 <= mean <= 127) by {
            if sum >= 0 {
                vstd::arithmetic::div_mod::lemma_div_is_ordered(sum as int, 127 * h, h as int);
                vstd::arithmetic::div_mod::lemma_div_by_multiple(127, h as int);
                vstd::arithmetic::mul::lemma_mul_is_commutative(127, h as int);
            } else {
                vstd::arithmetic::div_mod::lemma_div_is_ordered(-sum as int, 128 * h, h as int);
                vstd::arithmetic::div_mod::lemma_div_by_multiple(128, h as int);
                vstd::arithmetic::mul::lemma_mul_is_commutative(128, h as int);
            }
        }
    }
    let mut sdev: i64 = 0;
    let mut j: usize = 0;
    while j < hidden
        invariant
            j <= hidden,
            hidden == input@.len(),
            hidden < 0x8000_0000,
            -128 <= mean <= 127,
            sdev == sumsq_dev(input@, mean as int, j as int),
        decreases hidden - j,
    {
        proof {
            lemma_sumsq_dev_bound(input@, mean as int, j as int);
            assert(j * 65536 <= 0x8000_0000 * 65536) by (nonlinear_arith)
                requires j < 0x8000_0000 {}
        }
        let d = (input[j] as i64) - mean;
        assert(0 <= d * d <= 65536) by (nonlinear_arith)
            requires -256 <= d <= 256 {}
        sdev = sdev + d * d;
        j = j + 1;
    }
    proof {
        lemma_sumsq_dev_bound(input@, mean as int, hidden as int);
    }
    let inv = inv_rms_exec(hidden, sdev, eps_q);
    let ghost spec = layernorm_spec(input@, gamma@, beta@, eps_q as int);
    proof {
        lemma2_to64();
    }
    let mut i: usize = 0;
    while i < hidden
        invariant
            i <= hidden,
            hidden == input@.len(),
            hidden == gamma@.len(),
            hidden == beta@.len(),
            hidden == output@.len(),
            mean == ln_mean(input@),
            -128 <= mean <= 127,
            inv == inv_rms(hidden as int, sumsq_dev(input@, mean as int, hidden as int), eps_q as int),
            0 <= inv <= 3_037_000_500,
            pow2(16) == 0x1_0000,
            spec == layernorm_spec(input@, gamma@, beta@, eps_q as int),
            forall|t: int| 0 <= t < i ==> output@[t] == spec[t],
        decreases hidden - i,
    {
        let dev = (input[i] as i64) - mean;
        let g = gamma[i] as i64;
        assert(-32768 <= dev * g <= 32768) by (nonlinear_arith)
            requires -256 <= dev <= 256, -128 <= g <= 127 {}
        let dg = dev * g;
        assert(-0x1_0000_0000_0000 <= dg * inv <= 0x1_0000_0000_0000) by (nonlinear_arith)
            requires -32768 <= dg <= 32768, 0 <= inv <= 3_037_000_500 {}
        let prod = dg * inv;
        let shifted = shr_floor(prod + 0x8000, FRACT_BITS);
        let with_bias = shifted + beta[i] as i64;
        let o: i32 = if with_bias < -0x8000_0000i64 {
            -0x8000_0000i32
        } else if with_bias > 0x7fff_ffffi64 {
            0x7fff_ffffi32
        } else {
            with_bias as i32
        };
        output[i] = o;
        i = i + 1;
    }
    assert(output@ =~= spec);
    Ok(())
}

} // verus!
