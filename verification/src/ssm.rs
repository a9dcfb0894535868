//! Mamba-style selective state-space forward of the Qwen hybrid block:
//!
//! ```text
//! x_conv[t, c] = requant( sum_{k <= min(K-1, t)} conv[k, c] * x[t-k, c] )
//! a[t, v]      = lut( requant( x_conv @ W_alpha ) ),  b[t, v] likewise
//! decay[t, v]  = sat( floor(a[t, v] * ssm_a[v] / 128) )
//! update[t, v] = sat( floor(b[t, v] * ssm_dt[v] / 128) )
//! s[v, d]      = sat( requant(s[v, d] * decay) + requant(update * x_conv[t, (v*hd + d) % hidden]) )
//! y[t, v, :]   = requant( rmsnorm(s[v, :], gamma) )
//! out[t, :]    = requant( y[t, :] @ ssm_out )
//! ```
//!
//! The state starts at zero on every call.
use vstd::prelude::*;
use vstd::arithmetic::power2::pow2;
use crate::activation_lut::{ActivationLut, lut_map};
use crate::arith::{wrap_i32, sat_i8, lemma_wrap_i32_add, lemma_wrapping_add_i32, lemma_wrap_i32_id};
use crate::attention::{proj_spec, qk_norm_spec, qk_norm_heads, project, lemma_slot};
use crate::deltanet::DeltaNetScales;
use crate::matmul_int8::{matmul_int8_requant, mul_u32, MatmulError, lemma_row_major_index};
use crate::quant::{rescale_and_requantize, saturate_i8, shr_floor, requant, Scale};
use crate::rmsnorm::RmsNormError;

verus! {

/// Borrowed inputs of one SSM forward.
#[derive(Debug, Clone, Copy)]
pub struct SsmOpts<'a> {
    /// Per-V-head transition diagonal, length `num_v_heads`.
    pub ssm_a: &'a [i8],
    /// Decay-gate projection `(hidden, num_v_heads)` col-major.
    pub ssm_alpha: &'a [i8],
    /// Update-gate projection `(hidden, num_v_heads)` col-major.
    pub ssm_beta: &'a [i8],
    /// Causal conv kernel `(kernel_size, hidden)` row-major; tap `k`
    /// applies to token `t - k`.
    pub ssm_conv1d: &'a [i8],
    /// Per-V-head time-step bias, length `num_v_heads`.
    pub ssm_dt: &'a [i8],
    /// Output RMSNorm gamma, length `head_dim`.
    pub ssm_norm_gamma: &'a [i8],
    pub ssm_norm_eps_q: i64,
    pub ssm_norm_post_scale: Scale,
    /// Output projection `(num_v_heads * head_dim, hidden)` col-major.
    pub ssm_out: &'a [i8],
    pub num_v_heads: u32,
    pub head_dim: u32,
    pub kernel_size: u32,
    /// `q`: conv output; `alpha_logit`, `beta_logit`: gate projections;
    /// `decay`, `update`: state terms; `proj`: output projection.
    pub scales: DeltaNetScales,
    /// Sigmoid LUT of both gates.
    pub sigmoid_lut: &'a ActivationLut,
}

#[derive(Debug, Clone, Copy, PartialEq, Eq)]
pub enum SsmError {
    BadInputLen,
    BadOutputLen,
    BadSsmALen,
    BadSsmAlphaLen,
    BadSsmBetaLen,
    BadSsmConvLen,
    BadSsmDtLen,
    BadSsmNormGammaLen,
    BadSsmOutLen,
    ZeroDim,
    Matmul(MatmulError),
    Rms(RmsNormError),
}

// ---------------------------------------------------------------------
// Specification
// ---------------------------------------------------------------------

/// `sum_{k < n} x[(t - k) * hu + c] * conv[k * hu + c]`.
pub open spec fn conv_sum(x: Seq<i8>, conv: Seq<i8>, hu: int, t: int, c: int, n: int) -> int
    decreases n,
{
    if n <= 0 {
        0
    } else {
        conv_sum(x, conv, hu, t, c, n - 1) + (x[(t - (n - 1)) * hu + c] as int) * (conv[(n - 1) * hu + c] as int)
    }
}

/// Number of conv taps that reach back from token `t`.
pub open spec fn conv_taps(t: int, ksz: int) -> int {
    if ksz <= t + 1 { ksz } else { t + 1 }
}

/// Causal-conv output, `(m, hu)` row-major.
pub open spec fn conv_spec(x: Seq<i8>, conv: Seq<i8>, m: int, hu: int, ksz: int, qnum: int) -> Seq<i8> {
    Seq::new((m * hu) as nat, |idx: int|
        requant(wrap_i32(conv_sum(x, conv, hu, idx / hu, idx % hu, conv_taps(idx / hu, ksz))), qnum) as i8)
}

/// `sat(floor(g * p / 128))`.
pub open spec fn gate_factor(g: int, p: int) -> int {
    sat_i8((g * p) / 128)
}

/// State lane `(v, d)` after tokens `0 .. t`.
pub open spec fn ssm_state(
    xc: Seq<i8>, a: Seq<i8>, b: Seq<i8>, sa: Seq<i8>, sdt: Seq<i8>, hu: int, nv: int, hd: int,
    sc: DeltaNetScales, t: int, v: int, d: int,
) -> int
    decreases t,
{
    if t <= 0 {
        0
    } else {
        let s = ssm_state(xc, a, b, sa, sdt, hu, nv, hd, sc, t - 1, v, d);
        let df = gate_factor(a[(t - 1) * nv + v] as int, sa[v] as int);
        let uf = gate_factor(b[(t - 1) * nv + v] as int, sdt[v] as int);
        let xv = xc[(t - 1) * hu + (v * hd + d) % hu] as int;
        sat_i8(requant(s * df, sc.decay.num as int) + requant(uf * xv, sc.update.num as int))
    }
}

/// Raw per-token states, `(m, nv * hd)` row-major.
pub open spec fn ssm_states(
    xc: Seq<i8>, a: Seq<i8>, b: Seq<i8>, sa: Seq<i8>, sdt: Seq<i8>, m: int, hu: int, nv: int, hd: int,
    sc: DeltaNetScales,
) -> Seq<i8> {
    Seq::new((m * (nv * hd)) as nat, |idx: int| {
        let s = idx % (nv * hd);
        ssm_state(xc, a, b, sa, sdt, hu, nv, hd, sc, idx / (nv * hd) + 1, s / hd, s % hd) as i8
    })
}

/// The normalized per-head SSM output before the output projection, over
/// the views of the SSM weights.
pub open spec fn ssm_inter_view(
    x: Seq<i8>, hidden: int, m: int, sa: Seq<i8>, alpha: Seq<i8>, beta: Seq<i8>, conv: Seq<i8>, sdt: Seq<i8>,
    gamma: Seq<i8>, eps: int, post: int, nv: int, hd: int, ksz: int, sc: DeltaNetScales, sig: Seq<i8>,
) -> Seq<i8> {
    let xc = conv_spec(x, conv, m, hidden, ksz, sc.q.num as int);
    let a = lut_map(sig, proj_spec(xc, alpha, m, hidden, nv, sc.alpha_logit.num as int));
    let b = lut_map(sig, proj_spec(xc, beta, m, hidden, nv, sc.beta_logit.num as int));
    let y = ssm_states(xc, a, b, sa, sdt, m, hidden, nv, hd, sc);
    qk_norm_spec(y, hd, gamma, eps, post)
}

/// The normalized per-head SSM output before the output projection.
pub open spec fn ssm_inter_spec(x: Seq<i8>, hidden: int, m: int, o: SsmOpts) -> Seq<i8> {
    ssm_inter_view(x, hidden, m, o.ssm_a@, o.ssm_alpha@, o.ssm_beta@, o.ssm_conv1d@, o.ssm_dt@,
        o.ssm_norm_gamma@, o.ssm_norm_eps_q as int, o.ssm_norm_post_scale.num as int,
        o.num_v_heads as int, o.head_dim as int, o.kernel_size as int, o.scales, o.sigmoid_lut.table@)
}

/// The SSM block output on a well-shaped input.
pub open spec fn ssm_spec(x: Seq<i8>, hidden: int, m: int, o: SsmOpts) -> Seq<i8> {
    let nv = o.num_v_heads as int;
    let hd = o.head_dim as int;
    proj_spec(ssm_inter_spec(x, hidden, m, o), o.ssm_out@, m, nv * hd, hidden, o.scales.proj.num as int)
}

/// Which SSM check fails first, over the lengths of the SSM weights
/// (`out_len` is `None` when no output buffer is checked).
pub open spec fn ssm_check_lens(
    in_len: int, out_len: Option<int>, hidden: int, m: int, a_len: int, alpha_len: int, beta_len: int,
    conv_len: int, dt_len: int, gamma_len: int, out_w_len: int, nv: int, hd: int, ksz: int,
) -> Result<(), SsmError> {
    if hidden == 0 || nv == 0 || hd == 0 || ksz == 0 || m == 0 {
        Err(SsmError::ZeroDim)
    } else if in_len != m * hidden {
        Err(SsmError::BadInputLen)
    } else if out_len is Some && out_len->0 != m * hidden {
        Err(SsmError::BadOutputLen)
    } else if a_len != nv {
        Err(SsmError::BadSsmALen)
    } else if alpha_len != hidden * nv {
        Err(SsmError::BadSsmAlphaLen)
    } else if beta_len != hidden * nv {
        Err(SsmError::BadSsmBetaLen)
    } else if conv_len != ksz * hidden {
        Err(SsmError::BadSsmConvLen)
    } else if dt_len != nv {
        Err(SsmError::BadSsmDtLen)
    } else if gamma_len != hd {
        Err(SsmError::BadSsmNormGammaLen)
    } else if out_w_len != nv * hd * hidden {
        Err(SsmError::BadSsmOutLen)
    } else if hidden > 0x8000 || (out_len is Some && nv * hd > 0x8000) {
        Err(SsmError::Matmul(MatmulError::KOutOfRange))
    } else {
        Ok(())
    }
}

/// Which check of the SSM fails first (`out_len` is `None` when no output
/// buffer is checked).
pub open spec fn ssm_check(in_len: int, out_len: Option<int>, hidden: int, m: int, o: SsmOpts) -> Result<(), SsmError> {
    ssm_check_lens(in_len, out_len, hidden, m, o.ssm_a@.len() as int, o.ssm_alpha@.len() as int,
        o.ssm_beta@.len() as int, o.ssm_conv1d@.len() as int, o.ssm_dt@.len() as int,
        o.ssm_norm_gamma@.len() as int, o.ssm_out@.len() as int, o.num_v_heads as int, o.head_dim as int,
        o.kernel_size as int)
}

// ---------------------------------------------------------------------
// Executable
// ---------------------------------------------------------------------

/// Depthwise causal convolution of an `(m, hu)` input.
fn causal_conv(x: &[i8], conv: &[i8], m: usize, hu: usize, ksz: usize, scale: Scale) -> (r: Vec<i8>)
    requires
        hu > 0,
        x@.len() == m * hu,
        conv@.len() == ksz * hu,
    ensures
        r@ == conv_spec(x@, conv@, m as int, hu as int, ksz as int, scale.num as int),
{
    let ghost spec = conv_spec(x@, conv@, m as int, hu as int, ksz as int, scale.num as int);
    let mut r: Vec<i8> = Vec::new();
    let xlen = x.len();
    let clen = conv.len();
    let mut t: usize = 0;
    while t < m
        invariant
            hu > 0,
            t <= m,
            xlen == x@.len(),
            clen == conv@.len(),
            x@.len() == m * hu,
            conv@.len() == ksz * hu,
            spec == conv_spec(x@, conv@, m as int, hu as int, ksz as int, scale.num as int),
            r@.len() == t * hu,
            forall|u: int| 0 <= u < r@.len() ==> r@[u] == spec[u],
        decreases m - t,
    {
        let mut c: usize = 0;
        while c < hu
            invariant
                hu > 0,
                t < m,
                c <= hu,
                xlen == x@.len(),
                clen == conv@.len(),
                x@.len() == m * hu,
                conv@.len() == ksz * hu,
                spec == conv_spec(x@, conv@, m as int, hu as int, ksz as int, scale.num as int),
                r@.len() == t * hu + c,
                forall|u: int| 0 <= u < r@.len() ==> r@[u] == spec[u],
            decreases hu - c,
        {
            let taps = if ksz <= t + 1 { ksz } else { t + 1 };
            let mut acc: i32 = 0;
            let mut k: usize = 0;
            proof {
                lemma_wrap_i32_id(0);
            }
            while k < taps
                invariant
                    hu > 0,
                    t < m,
                    c < hu,
                    k <= taps,
                    taps <= ksz,
                    taps <= t + 1,
                    xlen == x@.len(),
                    clen == conv@.len(),
                    x@.len() == m * hu,
                    conv@.len() == ksz * hu,
                    acc == wrap_i32(conv_sum(x@, conv@, hu as int, t as int, c as int, k as int)),
                decreases taps - k,
            {
                proof {
                    lemma_row_major_index((t - k) as int, c as int, hu as int, m as int);
                    lemma_row_major_index(k as int, c as int, hu as int, ksz as int);
                }
                let xv = x[(t - k) * hu + c] as i32;
                let kw = conv[k * hu + c] as i32;
                assert(-16384 <= xv * kw <= 16384) by (nonlinear_arith)
                    requires -128 <= xv <= 127, -128 <= kw <= 127 {}
                let p = xv * kw;
                proof {
                    lemma_wrapping_add_i32(acc, p);
                    lemma_wrap_i32_add(conv_sum(x@, conv@, hu as int, t as int, c as int, k as int), p as int);
                }
                acc = acc.wrapping_add(p);
                k = k + 1;
            }
            proof {
                lemma_row_major_index(t as int, c as int, hu as int, m as int);
            }
            r.push(rescale_and_requantize(acc, scale));
            c = c + 1;
        }
        proof {
            assert(t * hu + hu == (t + 1) * hu) by (nonlinear_arith) {}
        }
        t = t + 1;
    }
    proof {
        assert(r@ =~= spec);
    }
    r
}

/// `sat(floor(g * p / 128))`.
fn gate_factor_exec(g: i8, p: i8) -> (r: i32)
    ensures
        r == gate_factor(g as int, p as int),
{
    let a = g as i64;
    let b = p as i64;
    assert(-16384 <= a * b <= 16384) by (nonlinear_arith) requires -128 <= a <= 127, -128 <= b <= 127 {}
    let q = shr_floor(a * b, 7);
    proof {
        vstd::arithmetic::power2::lemma2_to64();
    }
    saturate_i8(q) as i32
}

/// The recurrence over every token and state lane; returns the raw
/// `(m, nv * hd)` states.
fn ssm_recurrence(
    xc: &[i8], a: &[i8], b: &[i8], sa: &[i8], sdt: &[i8], m: usize, hu: usize, nv: usize, hd: usize,
    sc: DeltaNetScales,
) -> (r: Vec<i8>)
    requires
        hu > 0,
        nv > 0,
        hd > 0,
        xc@.len() == m * hu,
        a@.len() == m * nv,
        b@.len() == m * nv,
        sa@.len() == nv,
        sdt@.len() == nv,
        nv * hd <= usize::MAX,
    ensures
        r@ == ssm_states(xc@, a@, b@, sa@, sdt@, m as int, hu as int, nv as int, hd as int, sc),
{
    let ghost spec = ssm_states(xc@, a@, b@, sa@, sdt@, m as int, hu as int, nv as int, hd as int, sc);
    let w = nv * hd;
    let mut state: Vec<i8> = vec![0i8; w];
    let mut r: Vec<i8> = Vec::new();
    let alen = a.len();
    let xlen = xc.len();
    let mut t: usize = 0;
    while t < m
        invariant
            hu > 0,
            nv > 0,
            hd > 0,
            t <= m,
            w == nv * hd,
            alen == a@.len(),
            xlen == xc@.len(),
            xc@.len() == m * hu,
            a@.len() == m * nv,
            b@.len() == m * nv,
            sa@.len() == nv,
            sdt@.len() == nv,
            state@.len() == w,
            forall|s: int| 0 <= s < w ==> state@[s] as int == ssm_state(xc@, a@, b@, sa@, sdt@, hu as int, nv as int, hd as int, sc, t as int, s / (hd as int), s % (hd as int)),
            spec == ssm_states(xc@, a@, b@, sa@, sdt@, m as int, hu as int, nv as int, hd as int, sc),
            r@.len() == t * w,
            forall|u: int| 0 <= u < r@.len() ==> r@[u] == spec[u],
        decreases m - t,
    {
        let mut s: usize = 0;
        while s < w
            invariant
                hu > 0,
                nv > 0,
                hd > 0,
                t < m,
                s <= w,
                w == nv * hd,
                alen == a@.len(),
                xlen == xc@.len(),
                xc@.len() == m * hu,
                a@.len() == m * nv,
                b@.len() == m * nv,
                sa@.len() == nv,
                sdt@.len() == nv,
                state@.len() == w,
                forall|e: int| s <= e < w ==> state@[e] as int == ssm_state(xc@, a@, b@, sa@, sdt@, hu as int, nv as int, hd as int, sc, t as int, e / (hd as int), e % (hd as int)),
                forall|e: int| 0 <= e < s ==> state@[e] as int == ssm_state(xc@, a@, b@, sa@, sdt@, hu as int, nv as int, hd as int, sc, t + 1, e / (hd as int), e % (hd as int)),
                spec == ssm_states(xc@, a@, b@, sa@, sdt@, m as int, hu as int, nv as int, hd as int, sc),
                r@.len() == t * w + s,
                forall|u: int| 0 <= u < r@.len() ==> r@[u] == spec[u],
            decreases w - s,
        {
            let v = s / hd;
            let d = s % hd;
            proof {
                vstd::arithmetic::div_mod::lemma_mod_pos_bound(s as int, hd as int);
                vstd::arithmetic::div_mod::lemma_div_pos_is_pos(s as int, hd as int);
                assert(s < hd * nv) by (nonlinear_arith) requires s < w, w == nv * hd {}
                vstd::arithmetic::div_mod::lemma_multiply_divide_lt(s as int, hd as int, nv as int);
                lemma_row_major_index(t as int, v as int, nv as int, m as int);
                vstd::arithmetic::div_mod::lemma_mod_pos_bound(s as int, hu as int);
                assert(v * hd + d == s) by {
                    vstd::arithmetic::div_mod::lemma_fundamental_div_mod(s as int, hd as int);
                    vstd::arithmetic::mul::lemma_mul_is_commutative(hd as int, v as int);
                }
                lemma_row_major_index(t as int, (s % hu) as int, hu as int, m as int);
            }
            let ai = a[t * nv + v];
            let bi = b[t * nv + v];
            let df = gate_factor_exec(ai, sa[v]);
            let uf = gate_factor_exec(bi, sdt[v]);
            let c = s % hu;
            let xv = xc[t * hu + c] as i32;
            let s_old = state[s] as i32;
            assert(-16384 <= s_old * df <= 16384) by (nonlinear_arith) requires -128 <= s_old <= 127, -128 <= df <= 127 {}
            assert(-16384 <= uf * xv <= 16384) by (nonlinear_arith) requires -128 <= uf <= 127, -128 <= xv <= 127 {}
            let dec = rescale_and_requantize(s_old * df, sc.decay) as i32;
            let upd = rescale_and_requantize(uf * xv, sc.update) as i32;
            let s_new = saturate_i8((dec + upd) as i64);
            state.set(s, s_new);
            proof {
                lemma_row_major_index(t as int, s as int, w as int, m as int);
                let u = t * w + s;
                assert(u / (w as int) == t && u % (w as int) == s);
            }
            r.push(s_new);
            s = s + 1;
        }
        proof {
            assert(t * w + w == (t + 1) * w) by (nonlinear_arith) {}
        }
        t = t + 1;
    }
    proof {
        assert(m * w == m * (nv * hd));
        assert(r@ =~= spec);
    }
    r
}

/// Checks shared by both SSM entry points; the output buffer length is
/// checked only when one is given.
fn ssm_validate(in_len: usize, out_len: Option<usize>, hidden: u32, m: u32, opts: &SsmOpts) -> (r: Result<(), SsmError>)
    requires
        opts.num_v_heads * opts.head_dim <= u32::MAX,
    ensures
        r == ssm_check(in_len as int, match out_len { Some(n) => Some(n as int), None => None }, hidden as int, m as int, *opts),
{
    let num_v = opts.num_v_heads;
    let hd = opts.head_dim;
    let k_size = opts.kernel_size;
    if hidden == 0 || num_v == 0 || hd == 0 || k_size == 0 || m == 0 {
        return Err(SsmError::ZeroDim);
    }
    let m_hidden = mul_u32(m, hidden);
    if in_len as u64 != m_hidden {
        return Err(SsmError::BadInputLen);
    }
    match out_len {
        Some(n) => {
            if n as u64 != m_hidden {
                return Err(SsmError::BadOutputLen);
            }
        },
        None => {},
    }
    if opts.ssm_a.len() as u64 != num_v as u64 {
        return Err(SsmError::BadSsmALen);
    }
    if opts.ssm_alpha.len() as u64 != mul_u32(hidden, num_v) {
        return Err(SsmError::BadSsmAlphaLen);
    }
    if opts.ssm_beta.len() as u64 != mul_u32(hidden, num_v) {
        return Err(SsmError::BadSsmBetaLen);
    }
    if opts.ssm_conv1d.len() as u64 != mul_u32(k_size, hidden) {
        return Err(SsmError::BadSsmConvLen);
    }
    if opts.ssm_dt.len() as u64 != num_v as u64 {
        return Err(SsmError::BadSsmDtLen);
    }
    if opts.ssm_norm_gamma.len() as u64 != hd as u64 {
        return Err(SsmError::BadSsmNormGammaLen);
    }
    let inter: u32 = num_v * hd;
    if opts.ssm_out.len() as u64 != mul_u32(inter, hidden) {
        return Err(SsmError::BadSsmOutLen);
    }
    if hidden > 0x8000 || (out_len.is_some() && inter > 0x8000) {
        return Err(SsmError::Matmul(MatmulError::KOutOfRange));
    }
    Ok(())
}

/// The SSM path up to (not including) the output projection: the
/// normalized `(m, num_v_heads * head_dim)` per-head buffer.
pub fn ssm_forward_inter(input: &[i8], hidden: u32, m: u32, opts: SsmOpts) -> (r: Result<Vec<i8>, SsmError>)
    requires
        opts.num_v_heads * opts.head_dim <= u32::MAX,
        m * opts.num_v_heads * opts.head_dim <= usize::MAX,
        opts.head_dim < 0x8000_0000,
    ensures
        r is Err <==> ssm_check(input@.len() as int, None, hidden as int, m as int, opts) is Err,
        r is Err ==> r == Err::<Vec<i8>, SsmError>(ssm_check(input@.len() as int, None, hidden as int, m as int, opts)->Err_0),
        r is Ok ==> r->Ok_0@ == ssm_inter_spec(input@, hidden as int, m as int, opts),
{
    match ssm_validate(input.len(), None, hidden, m, &opts) {
        Err(e) => {
            return Err(e);
        },
        Ok(()) => {},
    }
    let mu = m as usize;
    let hu = hidden as usize;
    let nv = opts.num_v_heads as usize;
    let hd = opts.head_dim as usize;
    let ksz = opts.kernel_size as usize;
    proof {
        assert(m * opts.num_v_heads <= m * opts.num_v_heads * opts.head_dim) by (nonlinear_arith)
            requires opts.head_dim >= 1 {}
        assert(m * (opts.num_v_heads * opts.head_dim) == m * opts.num_v_heads * opts.head_dim) by (nonlinear_arith) {}
    }
    let xc = causal_conv(input, opts.ssm_conv1d, mu, hu, ksz, opts.scales.q);
    let mut a = match project(xc.as_slice(), opts.ssm_alpha, m, hidden, opts.num_v_heads, opts.scales.alpha_logit, mu * nv) {
        Ok(x) => x,
        Err(e) => {
            return Err(SsmError::Matmul(e));
        },
    };
    opts.sigmoid_lut.apply(a.as_mut_slice());
    let mut b = match project(xc.as_slice(), opts.ssm_beta, m, hidden, opts.num_v_heads, opts.scales.beta_logit, mu * nv) {
        Ok(x) => x,
        Err(e) => {
            return Err(SsmError::Matmul(e));
        },
    };
    opts.sigmoid_lut.apply(b.as_mut_slice());
    let mut y = ssm_recurrence(xc.as_slice(), a.as_slice(), b.as_slice(), opts.ssm_a, opts.ssm_dt, mu, hu, nv, hd, opts.scales);
    proof {
        vstd::arithmetic::div_mod::lemma_mod_multiples_basic((mu * nv) as int, hd as int);
        assert(mu * (nv * hd) == (mu * nv) * hd) by (nonlinear_arith) {}
    }
    qk_norm_heads(y.as_mut_slice(), hd, opts.ssm_norm_gamma, opts.ssm_norm_eps_q, opts.ssm_norm_post_scale);
    Ok(y)
}

/// Full SSM forward over `m` tokens of an `(m, hidden)` row-major input.
pub fn ssm_forward(input: &[i8], hidden: u32, m: u32, opts: SsmOpts, output: &mut [i8]) -> (r: Result<(), SsmError>)
    requires
        opts.num_v_heads * opts.head_dim <= u32::MAX,
        m * opts.num_v_heads * opts.head_dim <= usize::MAX,
        opts.head_dim < 0x8000_0000,
    ensures
        r == ssm_check(input@.len() as int, Some(old(output)@.len() as int), hidden as int, m as int, opts),
        r is Ok ==> final(output)@ == ssm_spec(input@, hidden as int, m as int, opts),
        r is Err ==> final(output)@ == old(output)@,
{
    match ssm_validate(input.len(), Some(output.len()), hidden, m, &opts) {
        Err(e) => {
            return Err(e);
        },
        Ok(()) => {},
    }
    let y = match ssm_forward_inter(input, hidden, m, opts) {
        Ok(y) => y,
        Err(e) => {
            return Err(e);
        },
    };
    let inter: u32 = opts.num_v_heads * opts.head_dim;
    proof {
        assert(inter > 0) by (nonlinear_arith) requires inter == opts.num_v_heads * opts.head_dim, opts.num_v_heads > 0, opts.head_dim > 0 {}
        assert(opts.num_v_heads * opts.head_dim * hidden == inter * hidden);
    }
    match matmul_int8_requant(y.as_slice(), opts.ssm_out, m, inter, hidden, opts.scales.proj, output) {
        Ok(()) => Ok(()),
        Err(e) => Err(SsmError::Matmul(e)),
    }
}

} // verus!
