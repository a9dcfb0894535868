//! Gated DeltaNet recurrence (linear-attention block), integer only.
//!
//! Per V head a `head_dim_qk x head_dim_v` INT8 state `S` evolves token by
//! token:
//!
//! ```text
//! u[d]    = requant( sum_i S[i,d] * k[i], u )
//! S[i,d]  = sat( S[i,d] - requant(a * k[i] * u[d], decay) + requant(b * k[i] * v[d], update) )
//! out[d]  = requant( sum_i S[i,d] * q[i], o )
//! ```
//!
//! V head `h` reads Q/K/alpha/beta of QK head `h * num_qk_heads /
//! num_v_heads`. The state starts at zero on every call.
use vstd::prelude::*;
use crate::activation_lut::{ActivationLut, lut_map};
use crate::arith::{wrap_i32, sat_i8, lemma_wrap_i32_add, lemma_wrapping_add_i32, lemma_wrap_i32_id};
use crate::attention::{proj_spec, lemma_slot, kv_head_of, project};
use crate::matmul_int8::{matmul_int8_requant, mul_u32, MatmulError, lemma_row_major_index};
use crate::quant::{rescale_and_requantize, saturate_i8, requant, Scale};

verus! {

/// Weights of one DeltaNet block, all column-major: `w_q`, `w_k` are
/// `(hidden, num_qk_heads * head_dim_qk)`, `w_v` is `(hidden, num_v_heads
/// * head_dim_v)`, `w_alpha`, `w_beta` are `(hidden, num_qk_heads)`, `w_o`
/// is `(num_v_heads * head_dim_v, hidden)`.
#[derive(Debug, Clone, PartialEq, Eq)]
pub struct DeltaNetWeights {
    pub hidden: u32,
    pub num_qk_heads: u32,
    pub num_v_heads: u32,
    pub head_dim_qk: u32,
    pub head_dim_v: u32,
    pub w_q: Vec<i8>,
    pub w_k: Vec<i8>,
    pub w_v: Vec<i8>,
    pub w_alpha: Vec<i8>,
    pub w_beta: Vec<i8>,
    pub w_o: Vec<i8>,
}

/// Requantization scales of one DeltaNet step.
#[derive(Debug, Clone, Copy, PartialEq, Eq)]
pub struct DeltaNetScales {
    pub q: Scale,
    pub k: Scale,
    pub v: Scale,
    pub alpha_logit: Scale,
    pub beta_logit: Scale,
    /// `u = S^T k` down to `i8`.
    pub u: Scale,
    /// Decay term `a * k[i] * u[d]` down to `i8`.
    pub decay: Scale,
    /// Update term `b * k[i] * v[d]` down to `i8`.
    pub update: Scale,
    /// Per-token output `S^T q` down to `i8`.
    pub o: Scale,
    /// Output projection.
    pub proj: Scale,
}

#[derive(Debug, Clone, Copy, PartialEq, Eq)]
pub enum DeltaNetError {
    BadInputLen,
    BadOutputLen,
    BadWqLen,
    BadWkLen,
    BadWvLen,
    BadWalphaLen,
    BadWbetaLen,
    BadWoLen,
    BadVHeads,
    ZeroDim,
    Matmul(MatmulError),
}

/// Borrowed weights and shapes of the gated-DeltaNet variant of the Qwen
/// hybrid block (its forward works on floating point and lives outside
/// the verified library).
#[derive(Debug, Clone, Copy)]
pub struct GatedDeltaNetOpts<'a> {
    /// `(hidden, 2 * num_k_heads * head_k + num_v_heads * head_v)` col-major.
    pub w_qkv: &'a [i8],
    /// `(hidden, num_v_heads * head_v)` col-major output gate.
    pub w_gate: &'a [i8],
    /// `(hidden, num_v_heads)` col-major alpha logits.
    pub w_alpha: &'a [i8],
    /// `(hidden, num_v_heads)` col-major beta logits.
    pub w_beta: &'a [i8],
    /// `(kernel, conv_dim)` row-major depthwise causal conv weights.
    pub w_conv1d: &'a [i8],
    /// Per-V-head time-step bias.
    pub ssm_dt: &'a [i8],
    /// Per-V-head transition.
    pub ssm_a: &'a [i8],
    /// Pre-output RMSNorm gamma, length `head_v`.
    pub ssm_norm_gamma: &'a [i8],
    pub ssm_norm_eps_q: i64,
    pub ssm_norm_post_scale: Scale,
    /// `(num_v_heads * head_v, hidden)` col-major.
    pub w_out: &'a [i8],
    pub num_k_heads: u32,
    pub num_v_heads: u32,
    pub head_k: u32,
    pub head_v: u32,
    pub conv_kernel: u32,
    pub scales: GatedDeltaNetScales,
    pub sigmoid_lut: &'a ActivationLut,
    pub silu_lut: &'a ActivationLut,
}

/// Per-tap scales of the gated-DeltaNet path.
#[derive(Debug, Clone, Copy, PartialEq, Eq)]
pub struct GatedDeltaNetScales {
    pub qkv: Scale,
    pub gate_z: Scale,
    pub conv_silu: Scale,
    pub q_norm: Scale,
    pub k_norm: Scale,
    pub alpha: Scale,
    pub beta: Scale,
    pub recurrence: Scale,
    pub gated_norm: Scale,
    pub out: Scale,
}

// ---------------------------------------------------------------------
// Specification
// ---------------------------------------------------------------------

/// `sum_{i < n} s[i * hv + d] * x[xo + i]`.
pub open spec fn col_dot(s: Seq<i8>, hv: int, d: int, x: Seq<i8>, xo: int, n: int) -> int
    decreases n,
{
    if n <= 0 {
        0
    } else {
        col_dot(s, hv, d, x, xo, n - 1) + (s[(n - 1) * hv + d] as int) * (x[xo + n - 1] as int)
    }
}

/// `u = requant(S^T k)` for a state `s` and the key at `k[ko ..]`.
pub open spec fn dn_u(s: Seq<i8>, hq: int, hv: int, k: Seq<i8>, ko: int, unum: int) -> Seq<i8> {
    Seq::new(hv as nat, |d: int| requant(wrap_i32(col_dot(s, hv, d, k, ko, hq)), unum) as i8)
}

/// The state after one token.
pub open spec fn dn_next(
    s: Seq<i8>, hq: int, hv: int, k: Seq<i8>, ko: int, v: Seq<i8>, vo: int, a: int, b: int, sc: DeltaNetScales,
) -> Seq<i8> {
    let u = dn_u(s, hq, hv, k, ko, sc.u.num as int);
    Seq::new(s.len(), |idx: int| {
        let i = idx / hv;
        let d = idx % hv;
        let ki = k[ko + i] as int;
        sat_i8(
            s[idx] as int
                - requant(a * ki * (u[d] as int), sc.decay.num as int)
                + requant(b * ki * (v[vo + d] as int), sc.update.num as int),
        ) as i8
    })
}

/// One head's output from its updated state and the query at `q[qo ..]`.
pub open spec fn dn_out(s: Seq<i8>, hq: int, hv: int, q: Seq<i8>, qo: int, onum: int) -> Seq<i8> {
    Seq::new(hv as nat, |d: int| requant(wrap_i32(col_dot(s, hv, d, q, qo, hq)), onum) as i8)
}

/// State of V head `h` after tokens `0 .. t`.
pub open spec fn dn_state(
    k: Seq<i8>, v: Seq<i8>, a: Seq<i8>, b: Seq<i8>, t: int, h: int, nq: int, nv: int, hq: int, hv: int,
    sc: DeltaNetScales,
) -> Seq<i8>
    decreases t,
{
    if t <= 0 {
        Seq::new((hq * hv) as nat, |i: int| 0i8)
    } else {
        let prev = dn_state(k, v, a, b, t - 1, h, nq, nv, hq, hv, sc);
        let g = h * nq / nv;
        dn_next(prev, hq, hv, k, ((t - 1) * nq + g) * hq, v, ((t - 1) * nv + h) * hv,
            a[(t - 1) * nq + g] as int, b[(t - 1) * nq + g] as int, sc)
    }
}

/// The concatenated `(m, nv * hv)` head outputs.
pub open spec fn dn_concat(
    q: Seq<i8>, k: Seq<i8>, v: Seq<i8>, a: Seq<i8>, b: Seq<i8>, m: int, nq: int, nv: int, hq: int, hv: int,
    sc: DeltaNetScales,
) -> Seq<i8> {
    Seq::new((m * nv * hv) as nat, |idx: int| {
        let gidx = idx / hv;
        let t = gidx / nv;
        let h = gidx % nv;
        let g = h * nq / nv;
        dn_out(dn_state(k, v, a, b, t + 1, h, nq, nv, hq, hv, sc), hq, hv, q, (t * nq + g) * hq, sc.o.num as int)[idx % hv]
    })
}

/// The DeltaNet block output on a well-shaped input.
pub open spec fn deltanet_spec(x: Seq<i8>, w: DeltaNetWeights, sc: DeltaNetScales, table: Seq<i8>, m: int) -> Seq<i8> {
    let hidden = w.hidden as int;
    let nq = w.num_qk_heads as int;
    let nv = w.num_v_heads as int;
    let hq = w.head_dim_qk as int;
    let hv = w.head_dim_v as int;
    let q = proj_spec(x, w.w_q@, m, hidden, nq * hq, sc.q.num as int);
    let k = proj_spec(x, w.w_k@, m, hidden, nq * hq, sc.k.num as int);
    let v = proj_spec(x, w.w_v@, m, hidden, nv * hv, sc.v.num as int);
    let a = lut_map(table, proj_spec(x, w.w_alpha@, m, hidden, nq, sc.alpha_logit.num as int));
    let b = lut_map(table, proj_spec(x, w.w_beta@, m, hidden, nq, sc.beta_logit.num as int));
    proj_spec(dn_concat(q, k, v, a, b, m, nq, nv, hq, hv, sc), w.w_o@, m, nv * hv, hidden, sc.proj.num as int)
}

/// Which check of `deltanet_forward` fails first, if any.
pub open spec fn deltanet_check(in_len: int, out_len: int, w: DeltaNetWeights, m: int) -> Result<(), DeltaNetError> {
    let hidden = w.hidden as int;
    let nq = w.num_qk_heads as int;
    let nv = w.num_v_heads as int;
    let hq = w.head_dim_qk as int;
    let hv = w.head_dim_v as int;
    if hidden == 0 || nq == 0 || nv == 0 || hq == 0 || hv == 0 || m == 0 {
        Err(DeltaNetError::ZeroDim)
    } else if nv < nq || nv % nq != 0 {
        Err(DeltaNetError::BadVHeads)
    } else if in_len != m * hidden {
        Err(DeltaNetError::BadInputLen)
    } else if out_len != m * hidden {
        Err(DeltaNetError::BadOutputLen)
    } else if w.w_q@.len() != hidden * (nq * hq) {
        Err(DeltaNetError::BadWqLen)
    } else if w.w_k@.len() != hidden * (nq * hq) {
        Err(DeltaNetError::BadWkLen)
    } else if w.w_v@.len() != hidden * (nv * hv) {
        Err(DeltaNetError::BadWvLen)
    } else if w.w_alpha@.len() != hidden * nq {
        Err(DeltaNetError::BadWalphaLen)
    } else if w.w_beta@.len() != hidden * nq {
        Err(DeltaNetError::BadWbetaLen)
    } else if w.w_o@.len() != (nv * hv) * hidden {
        Err(DeltaNetError::BadWoLen)
    } else if hidden > 0x8000 || nv * hv > 0x8000 {
        Err(DeltaNetError::Matmul(MatmulError::KOutOfRange))
    } else {
        Ok(())
    }
}

/// Which shape check of the gated-DeltaNet forward fails first, if any.
pub open spec fn gated_deltanet_check<'a>(in_len: int, out_len: int, hidden: int, m: int, o: GatedDeltaNetOpts<'a>) -> Result<(), DeltaNetError> {
    let nk = o.num_k_heads as int;
    let nv = o.num_v_heads as int;
    let hk = o.head_k as int;
    let hv = o.head_v as int;
    let kk = o.conv_kernel as int;
    let value_dim = nv * hv;
    let conv_dim = 2 * (nk * hk) + value_dim;
    if hidden == 0 || nk == 0 || nv == 0 || hk == 0 || hv == 0 || m == 0 || kk == 0 {
        Err(DeltaNetError::ZeroDim)
    } else if nv % nk != 0 {
        Err(DeltaNetError::BadVHeads)
    } else if in_len != m * hidden {
        Err(DeltaNetError::BadInputLen)
    } else if out_len != m * hidden {
        Err(DeltaNetError::BadOutputLen)
    } else if o.w_qkv@.len() != hidden * conv_dim {
        Err(DeltaNetError::BadWqLen)
    } else if o.w_gate@.len() != hidden * value_dim {
        Err(DeltaNetError::BadWvLen)
    } else if o.w_alpha@.len() != hidden * nv {
        Err(DeltaNetError::BadWalphaLen)
    } else if o.w_beta@.len() != hidden * nv {
        Err(DeltaNetError::BadWbetaLen)
    } else if o.w_conv1d@.len() != kk * conv_dim {
        Err(DeltaNetError::BadWvLen)
    } else if o.ssm_dt@.len() != nv || o.ssm_a@.len() != nv {
        Err(DeltaNetError::BadVHeads)
    } else if o.w_out@.len() != value_dim * hidden {
        Err(DeltaNetError::BadWoLen)
    } else if o.ssm_norm_gamma@.len() != hv {
        Err(DeltaNetError::BadVHeads)
    } else {
        Ok(())
    }
}

// ---------------------------------------------------------------------
// Executable
// ---------------------------------------------------------------------

/// `wrap_i32(sum_{i < n} s[i * hv + d] * x[xo + i])`.
fn col_dot_exec(s: &[i8], hv: usize, d: usize, x: &[i8], xo: usize, n: usize) -> (r: i32)
    requires
        d < hv,
        s@.len() == n * hv,
        xo + n <= x@.len(),
    ensures
        r == wrap_i32(col_dot(s@, hv as int, d as int, x@, xo as int, n as int)),
{
    let mut acc: i32 = 0;
    let mut i: usize = 0;
    let slen = s.len();
    let xlen = x.len();
    proof {
        lemma_wrap_i32_id(0);
    }
    while i < n
        invariant
            xlen == x@.len(),
            i <= n,
            d < hv,
            slen == s@.len(),
            s@.len() == n * hv,
            xo + n <= x@.len(),
            acc == wrap_i32(col_dot(s@, hv as int, d as int, x@, xo as int, i as int)),
        decreases n - i,
    {
        proof {
            lemma_row_major_index(i as int, d as int, hv as int, n as int);
            assert(i * hv <= i * hv + d);
            assert(i * hv + d < slen);
        }
        let a = s[i * hv + d] as i32;
        let b = x[xo + i] as i32;
        assert(-16384 <= a * b <= 16384) by (nonlinear_arith)
            requires -128 <= a <= 127, -128 <= b <= 127 {}
        let p = a * b;
        proof {
            lemma_wrapping_add_i32(acc, p);
            lemma_wrap_i32_add(col_dot(s@, hv as int, d as int, x@, xo as int, i as int), p as int);
        }
        acc = acc.wrapping_add(p);
        i = i + 1;
    }
    acc
}

/// One token of one V head: update `state` in place and return the head
/// output.
fn deltanet_head_step(
    state: &mut Vec<i8>,
    hq: usize,
    hv: usize,
    q: &[i8],
    qo: usize,
    k: &[i8],
    ko: usize,
    v: &[i8],
    vo: usize,
    alpha: i8,
    beta: i8,
    sc: DeltaNetScales,
) -> (out: Vec<i8>)
    requires
        hv > 0,
        old(state)@.len() == hq * hv,
        qo + hq <= q@.len(),
        ko + hq <= k@.len(),
        vo + hv <= v@.len(),
    ensures
        final(state)@ == dn_next(old(state)@, hq as int, hv as int, k@, ko as int, v@, vo as int,
            alpha as int, beta as int, sc),
        out@ == dn_out(final(state)@, hq as int, hv as int, q@, qo as int, sc.o.num as int),
{
    let ghost s0 = state@;
    let mut u: Vec<i8> = Vec::new();
    let mut d: usize = 0;
    while d < hv
        invariant
            d <= hv,
            state@ == s0,
            s0.len() == hq * hv,
            ko + hq <= k@.len(),
            u@.len() == d,
            forall|e: int| 0 <= e < d ==> u@[e] == dn_u(s0, hq as int, hv as int, k@, ko as int, sc.u.num as int)[e],
        decreases hv - d,
    {
        let acc = col_dot_exec(state.as_slice(), hv, d, k, ko, hq);
        u.push(rescale_and_requantize(acc, sc.u));
        d = d + 1;
    }
    let ghost uspec = dn_u(s0, hq as int, hv as int, k@, ko as int, sc.u.num as int);
    assert(u@ =~= uspec);
    let ghost next = dn_next(s0, hq as int, hv as int, k@, ko as int, v@, vo as int, alpha as int, beta as int, sc);
    let n = state.len();
    let klen = k.len();
    let vlen = v.len();
    let a32 = alpha as i32;
    let b32 = beta as i32;
    let mut idx: usize = 0;
    while idx < n
        invariant
            idx <= n,
            hv > 0,
            klen == k@.len(),
            vlen == v@.len(),
            n == state@.len(),
            n == hq * hv,
            s0.len() == n,
            ko + hq <= k@.len(),
            vo + hv <= v@.len(),
            u@ == uspec,
            uspec == dn_u(s0, hq as int, hv as int, k@, ko as int, sc.u.num as int),
            next == dn_next(s0, hq as int, hv as int, k@, ko as int, v@, vo as int, alpha as int, beta as int, sc),
            a32 == alpha,
            b32 == beta,
            forall|e: int| 0 <= e < idx ==> state@[e] == next[e],
            forall|e: int| idx <= e < n ==> state@[e] == s0[e],
        decreases n - idx,
    {
        let i = idx / hv;
        let d = idx % hv;
        proof {
            vstd::arithmetic::div_mod::lemma_mod_pos_bound(idx as int, hv as int);
            assert(idx < hv * hq) by (nonlinear_arith) requires idx < n, n == hq * hv {}
            vstd::arithmetic::div_mod::lemma_multiply_divide_lt(idx as int, hv as int, hq as int);
            vstd::arithmetic::div_mod::lemma_div_pos_is_pos(idx as int, hv as int);
        }
        let ki = k[ko + i] as i32;
        let ud = u[d] as i32;
        let vd = v[vo + d] as i32;
        assert(-0x20_0000 <= a32 * ki * ud <= 0x20_0000) by (nonlinear_arith)
            requires -128 <= a32 <= 127, -128 <= ki <= 127, -128 <= ud <= 127 {}
        assert(-0x20_0000 <= b32 * ki * vd <= 0x20_0000) by (nonlinear_arith)
            requires -128 <= b32 <= 127, -128 <= ki <= 127, -128 <= vd <= 127 {}
        assert(-0x4000 <= a32 * ki <= 0x4000) by (nonlinear_arith)
            requires -128 <= a32 <= 127, -128 <= ki <= 127 {}
        assert(-0x4000 <= b32 * ki <= 0x4000) by (nonlinear_arith)
            requires -128 <= b32 <= 127, -128 <= ki <= 127 {}
        let decay_raw = a32 * ki * ud;
        let update_raw = b32 * ki * vd;
        let decay = rescale_and_requantize(decay_raw, sc.decay) as i32;
        let update = rescale_and_requantize(update_raw, sc.update) as i32;
        let s_old = state[idx] as i32;
        let s_new = s_old - decay + update;
        state.set(idx, saturate_i8(s_new as i64));
        idx = idx + 1;
    }
    assert(state@ =~= next);
    let mut out: Vec<i8> = Vec::new();
    let mut d: usize = 0;
    while d < hv
        invariant
            d <= hv,
            state@ == next,
            next.len() == hq * hv,
            qo + hq <= q@.len(),
            out@.len() == d,
            forall|e: int| 0 <= e < d ==> out@[e] == dn_out(next, hq as int, hv as int, q@, qo as int, sc.o.num as int)[e],
        decreases hv - d,
    {
        let acc = col_dot_exec(state.as_slice(), hv, d, q, qo, hq);
        out.push(rescale_and_requantize(acc, sc.o));
        d = d + 1;
    }
    assert(out@ =~= dn_out(next, hq as int, hv as int, q@, qo as int, sc.o.num as int));
    out
}

/// Positions of the concatenated head outputs already written when head
/// `h` is at token `t`, lane `d`.
pub open spec fn dn_filled(idx: int, hv: int, nv: int, h: int, t: int, d: int) -> bool {
    let gi = idx / hv;
    let tt = gi / nv;
    let hh = gi % nv;
    let dd = idx % hv;
    hh < h || (hh == h && (tt < t || (tt == t && dd < d)))
}

proof fn lemma_dn_pos(idx: int, t: int, h: int, d: int, m: int, nv: int, hv: int)
    requires
        0 <= t < m,
        0 <= h < nv,
        0 <= d < hv,
    ensures
        ((t * nv + h) * hv + d) / hv == t * nv + h,
        ((t * nv + h) * hv + d) % hv == d,
        (t * nv + h) / nv == t,
        (t * nv + h) % nv == h,
        0 <= (t * nv + h) * hv + d < m * nv * hv,
        0 <= idx < m * nv * hv ==> ((idx / hv) / nv == t && (idx / hv) % nv == h && idx % hv == d ==> idx == (t * nv + h) * hv + d),
        0 <= idx < m * nv * hv ==> (idx / hv) / nv < m,
        0 <= idx < m * nv * hv ==> 0 <= (idx / hv) % nv < nv,
        0 <= idx < m * nv * hv ==> 0 <= idx % hv < hv,
{
    lemma_row_major_index(t, h, nv, m);
    lemma_row_major_index(t * nv + h, d, hv, m * nv);
    if 0 <= idx < m * nv * hv {
    vstd::arithmetic::div_mod::lemma_fundamental_div_mod(idx, hv);
    vstd::arithmetic::div_mod::lemma_fundamental_div_mod(idx / hv, nv);
    vstd::arithmetic::div_mod::lemma_mod_pos_bound(idx, hv);
    vstd::arithmetic::div_mod::lemma_mod_pos_bound(idx / hv, nv);
    vstd::arithmetic::div_mod::lemma_div_pos_is_pos(idx, hv);
    assert(idx < hv * (m * nv)) by (nonlinear_arith) requires idx < m * nv * hv {}
    vstd::arithmetic::div_mod::lemma_multiply_divide_lt(idx, hv, m * nv);
    assert(idx / hv < nv * m) by (nonlinear_arith) requires idx / hv < m * nv {}
    vstd::arithmetic::div_mod::lemma_multiply_divide_lt(idx / hv, nv, m);
    if (idx / hv) / nv == t && (idx / hv) % nv == h && idx % hv == d {
        assert(idx / hv == t * nv + h) by (nonlinear_arith)
            requires idx / hv == nv * ((idx / hv) / nv) + (idx / hv) % nv, (idx / hv) / nv == t, (idx / hv) % nv == h {}
        assert(idx == (t * nv + h) * hv + d) by (nonlinear_arith)
            requires idx == hv * (idx / hv) + idx % hv, idx / hv == t * nv + h, idx % hv == d {}
    }
    }
}

pub(crate) proof fn lemma_dn_state_len(
    k: Seq<i8>, v: Seq<i8>, a: Seq<i8>, b: Seq<i8>, t: int, h: int, nq: int, nv: int, hq: int, hv: int,
    sc: DeltaNetScales,
)
    requires
        hq >= 0,
        hv >= 0,
    ensures
        dn_state(k, v, a, b, t, h, nq, nv, hq, hv, sc).len() == hq * hv,
    decreases t,
{
    assert(hq * hv >= 0) by (nonlinear_arith) requires hq >= 0, hv >= 0 {}
    if t > 0 {
        lemma_dn_state_len(k, v, a, b, t - 1, h, nq, nv, hq, hv, sc);
    }
}

/// The recurrent part: every V head over every token, writing the
/// `(m, nv * hv)` concatenated head outputs.
fn deltanet_heads(
    q: &[i8], k: &[i8], v: &[i8], a: &[i8], b: &[i8],
    m: usize, nq: usize, nv: usize, hq: usize, hv: usize, sc: DeltaNetScales,
) -> (r: Vec<i8>)
    requires
        0 < nq <= nv,
        hq > 0,
        hv > 0,
        q@.len() == m * nq * hq,
        k@.len() == m * nq * hq,
        v@.len() == m * nv * hv,
        a@.len() == m * nq,
        b@.len() == m * nq,
        hq * hv <= usize::MAX,
        m * nv * hv <= usize::MAX,
    ensures
        r@ == dn_concat(q@, k@, v@, a@, b@, m as int, nq as int, nv as int, hq as int, hv as int, sc),
{
    let ghost spec = dn_concat(q@, k@, v@, a@, b@, m as int, nq as int, nv as int, hq as int, hv as int, sc);
    proof {
        assert(m * nv <= m * nv * hv) by (nonlinear_arith) requires hv >= 1 {}
    }
    let total = m * nv * hv;
    let mut out: Vec<i8> = vec![0i8; total];
    let qlen = q.len();
    let vlen = v.len();
    let mut h: usize = 0;
    while h < nv
        invariant
            0 < nq <= nv,
            hq > 0,
            hv > 0,
            h <= nv,
            qlen == q@.len(),
            vlen == v@.len(),
            q@.len() == m * nq * hq,
            k@.len() == m * nq * hq,
            v@.len() == m * nv * hv,
            a@.len() == m * nq,
            b@.len() == m * nq,
            hq * hv <= usize::MAX,
            total == m * nv * hv,
            out@.len() == total,
            spec == dn_concat(q@, k@, v@, a@, b@, m as int, nq as int, nv as int, hq as int, hv as int, sc),
            forall|idx: int| 0 <= idx < total && dn_filled(idx, hv as int, nv as int, h as int, 0, 0) ==> out@[idx] == spec[idx],
        decreases nv - h,
    {
        let g = kv_head_of(h, nv, nq);
        let mut state: Vec<i8> = vec![0i8; hq * hv];
        proof {
            assert(state@ =~= dn_state(k@, v@, a@, b@, 0, h as int, nq as int, nv as int, hq as int, hv as int, sc));
        }
        let mut t: usize = 0;
        while t < m
            invariant
                0 < nq <= nv,
                hq > 0,
                hv > 0,
                h < nv,
                t <= m,
                g == (h as int) * (nq as int) / (nv as int),
                g < nq,
                qlen == q@.len(),
                vlen == v@.len(),
                q@.len() == m * nq * hq,
                k@.len() == m * nq * hq,
                v@.len() == m * nv * hv,
                a@.len() == m * nq,
                b@.len() == m * nq,
                total == m * nv * hv,
                out@.len() == total,
                state@ == dn_state(k@, v@, a@, b@, t as int, h as int, nq as int, nv as int, hq as int, hv as int, sc),
                spec == dn_concat(q@, k@, v@, a@, b@, m as int, nq as int, nv as int, hq as int, hv as int, sc),
                forall|idx: int| 0 <= idx < total && dn_filled(idx, hv as int, nv as int, h as int, t as int, 0) ==> out@[idx] == spec[idx],
            decreases m - t,
        {
            proof {
                lemma_slot(t as int, g as int, nq as int, hq as int, m as int);
                lemma_slot(t as int, h as int, nv as int, hv as int, m as int);
                let r1 = t * nq + g;
                let r2 = t * nv + h;
                assert(r1 <= r1 * hq) by (nonlinear_arith) requires r1 >= 0, hq >= 1 {}
                assert(r2 <= r2 * hv) by (nonlinear_arith) requires r2 >= 0, hv >= 1 {}
                assert(m * nq <= m * nq * hq) by (nonlinear_arith) requires hq >= 1 {}
            }
            let row_q = t * nq + g;
            let qo = row_q * hq;
            let row_v = t * nv + h;
            let vo = row_v * hv;
            let alpha = a[row_q];
            let beta = b[row_q];
            proof {
                lemma_dn_state_len(k@, v@, a@, b@, t as int, h as int, nq as int, nv as int, hq as int, hv as int, sc);
            }
            let out_v = deltanet_head_step(&mut state, hq, hv, q, qo, k, qo, v, vo, alpha, beta, sc);
            proof {
                assert(state@ == dn_state(k@, v@, a@, b@, t + 1, h as int, nq as int, nv as int, hq as int, hv as int, sc));
            }
            let mut d: usize = 0;
            while d < hv
                invariant
                    0 < nq <= nv,
                    hv > 0,
                    h < nv,
                    t < m,
                    d <= hv,
                    g == (h as int) * (nq as int) / (nv as int),
                    vo == (t * nv + h) * hv,
                    qo == (t * nq + g) * hq,
                    total == m * nv * hv,
                    out@.len() == total,
                    out_v@ == dn_out(state@, hq as int, hv as int, q@, qo as int, sc.o.num as int),
                    state@ == dn_state(k@, v@, a@, b@, t + 1, h as int, nq as int, nv as int, hq as int, hv as int, sc),
                    spec == dn_concat(q@, k@, v@, a@, b@, m as int, nq as int, nv as int, hq as int, hv as int, sc),
                    forall|idx: int| 0 <= idx < total && dn_filled(idx, hv as int, nv as int, h as int, t as int, d as int) ==> out@[idx] == spec[idx],
                decreases hv - d,
            {
                proof {
                    lemma_dn_pos(0, t as int, h as int, d as int, m as int, nv as int, hv as int);
                }
                let p = vo + d;
                out.set(p, out_v[d]);
                proof {
                    assert forall|idx: int| 0 <= idx < total && dn_filled(idx, hv as int, nv as int, h as int, t as int, (d + 1) as int)
                        implies out@[idx] == spec[idx] by {
                        lemma_dn_pos(idx, t as int, h as int, d as int, m as int, nv as int, hv as int);
                    }
                }
                d = d + 1;
            }
            proof {
                assert forall|idx: int| 0 <= idx < total && dn_filled(idx, hv as int, nv as int, h as int, (t + 1) as int, 0)
                    implies out@[idx] == spec[idx] by {
                    lemma_dn_pos(idx, t as int, h as int, 0, m as int, nv as int, hv as int);
                    assert(dn_filled(idx, hv as int, nv as int, h as int, t as int, hv as int));
                }
            }
            t = t + 1;
        }
        proof {
            assert forall|idx: int| 0 <= idx < total && dn_filled(idx, hv as int, nv as int, (h + 1) as int, 0, 0)
                implies out@[idx] == spec[idx] by {
                if m == 0 {
                    assert(total == 0) by (nonlinear_arith) requires total == m * nv * hv, m == 0 {}
                } else {
                    lemma_dn_pos(idx, 0, h as int, 0, m as int, nv as int, hv as int);
                    assert(dn_filled(idx, hv as int, nv as int, h as int, m as int, 0));
                }
            }
        }
        h = h + 1;
    }
    proof {
        assert forall|idx: int| 0 <= idx < total implies out@[idx] == spec[idx] by {
            if m == 0 {
                assert(total == 0) by (nonlinear_arith) requires total == m * nv * hv, m == 0 {}
            }
            lemma_dn_pos(idx, 0, 0, 0, m as int, nv as int, hv as int);
            assert(dn_filled(idx, hv as int, nv as int, nv as int, 0, 0));
        }
        assert(out@ =~= spec);
    }
    out
}

/// The shape checks of the gated-DeltaNet forward, in its order, on exact
/// integers.
pub fn check_gated_deltanet_shapes(
    input_len: usize,
    output_len: usize,
    hidden: u32,
    m: u32,
    opts: &GatedDeltaNetOpts,
) -> (r: Result<(), DeltaNetError>)
    ensures
        r == gated_deltanet_check(input_len as int, output_len as int, hidden as int, m as int, *opts),
{
    let hu = hidden as u128;
    let mu = m as u128;
    let nk = opts.num_k_heads as u128;
    let nv = opts.num_v_heads as u128;
    let hk = opts.head_k as u128;
    let hv = opts.head_v as u128;
    let kk = opts.conv_kernel as u128;
    if hu == 0 || nk == 0 || nv == 0 || hk == 0 || hv == 0 || mu == 0 || kk == 0 {
        return Err(DeltaNetError::ZeroDim);
    }
    if nv % nk != 0 {
        return Err(DeltaNetError::BadVHeads);
    }
    proof {
        let c: int = 0x1_0000_0000;
        assert(hu * mu < c * c && nk * hk < c * c && nv * hv < c * c) by (nonlinear_arith)
            requires hu < c, mu < c, nk < c, hk < c, nv < c, hv < c;
        assert(hu * (2 * (nk * hk) + nv * hv) < 3 * c * c * c) by (nonlinear_arith)
            requires hu < c, nk * hk < c * c, nv * hv < c * c;
        assert(kk * (2 * (nk * hk) + nv * hv) < 3 * c * c * c) by (nonlinear_arith)
            requires kk < c, nk * hk < c * c, nv * hv < c * c;
        assert(hu * nv < c * c && (nv * hv) * hu < c * c * c) by (nonlinear_arith)
            requires hu < c, nv < c, nv * hv < c * c;
    }
    let value_dim = nv * hv;
    let conv_dim = 2 * (nk * hk) + value_dim;
    if input_len as u128 != mu * hu {
        return Err(DeltaNetError::BadInputLen);
    }
    if output_len as u128 != mu * hu {
        return Err(DeltaNetError::BadOutputLen);
    }
    if opts.w_qkv.len() as u128 != hu * conv_dim {
        return Err(DeltaNetError::BadWqLen);
    }
    if opts.w_gate.len() as u128 != hu * value_dim {
        return Err(DeltaNetError::BadWvLen);
    }
    if opts.w_alpha.len() as u128 != hu * nv {
        return Err(DeltaNetError::BadWalphaLen);
    }
    if opts.w_beta.len() as u128 != hu * nv {
        return Err(DeltaNetError::BadWbetaLen);
    }
    if opts.w_conv1d.len() as u128 != kk * conv_dim {
        return Err(DeltaNetError::BadWvLen);
    }
    if opts.ssm_dt.len() as u128 != nv || opts.ssm_a.len() as u128 != nv {
        return Err(DeltaNetError::BadVHeads);
    }
    if opts.w_out.len() as u128 != value_dim * hu {
        return Err(DeltaNetError::BadWoLen);
    }
    if opts.ssm_norm_gamma.len() as u128 != hv {
        return Err(DeltaNetError::BadVHeads);
    }
    Ok(())
}

/// DeltaNet forward over `m` tokens of an `(m, hidden)` row-major input.
/// The recurrent state starts at zero on every call.
pub fn deltanet_forward(
    input: &[i8],
    weights: &DeltaNetWeights,
    scales: DeltaNetScales,
    sigmoid_lut: &ActivationLut,
    m: u32,
    output: &mut [i8],
) -> (r: Result<(), DeltaNetError>)
    requires
        weights.num_qk_heads * weights.head_dim_qk <= u32::MAX,
        weights.num_v_heads * weights.head_dim_v <= u32::MAX,
        m * weights.num_qk_heads * weights.head_dim_qk <= usize::MAX,
        m * weights.num_v_heads * weights.head_dim_v <= usize::MAX,
        weights.head_dim_qk * weights.head_dim_v <= usize::MAX,
    ensures
        r == deltanet_check(input@.len() as int, old(output)@.len() as int, *weights, m as int),
        r is Ok ==> final(output)@ == deltanet_spec(input@, *weights, scales, sigmoid_lut.table@, m as int),
        r is Err ==> final(output)@ == old(output)@,
{
    let hidden = weights.hidden;
    let num_qk = weights.num_qk_heads;
    let num_v = weights.num_v_heads;
    let hd_qk = weights.head_dim_qk;
    let hd_v = weights.head_dim_v;
    if hidden == 0 || num_qk == 0 || num_v == 0 || hd_qk == 0 || hd_v == 0 || m == 0 {
        return Err(DeltaNetError::ZeroDim);
    }
    if num_v < num_qk || num_v % num_qk != 0 {
        return Err(DeltaNetError::BadVHeads);
    }
    let q_dim: u32 = num_qk * hd_qk;
    let v_dim: u32 = num_v * hd_v;
    let m_hidden = mul_u32(m, hidden);
    if input.len() as u64 != m_hidden {
        return Err(DeltaNetError::BadInputLen);
    }
    if output.len() as u64 != m_hidden {
        return Err(DeltaNetError::BadOutputLen);
    }
    if weights.w_q.len() as u64 != mul_u32(hidden, q_dim) {
        return Err(DeltaNetError::BadWqLen);
    }
    if weights.w_k.len() as u64 != mul_u32(hidden, q_dim) {
        return Err(DeltaNetError::BadWkLen);
    }
    if weights.w_v.len() as u64 != mul_u32(hidden, v_dim) {
        return Err(DeltaNetError::BadWvLen);
    }
    if weights.w_alpha.len() as u64 != mul_u32(hidden, num_qk) {
        return Err(DeltaNetError::BadWalphaLen);
    }
    if weights.w_beta.len() as u64 != mul_u32(hidden, num_qk) {
        return Err(DeltaNetError::BadWbetaLen);
    }
    if weights.w_o.len() as u64 != mul_u32(v_dim, hidden) {
        return Err(DeltaNetError::BadWoLen);
    }
    if hidden > 0x8000 || v_dim > 0x8000 {
        return Err(DeltaNetError::Matmul(MatmulError::KOutOfRange));
    }
    let mu = m as usize;
    let nq = num_qk as usize;
    let nv = num_v as usize;
    let hq = hd_qk as usize;
    let hv = hd_v as usize;
    proof {
        assert(q_dim > 0 && v_dim > 0) by (nonlinear_arith)
            requires q_dim == num_qk * hd_qk, v_dim == num_v * hd_v, num_qk > 0, hd_qk > 0, num_v > 0, hd_v > 0 {}
        assert(m * num_qk <= m * num_qk * hd_qk) by (nonlinear_arith) requires hd_qk >= 1 {}
        assert(m * num_v <= m * num_v * hd_v) by (nonlinear_arith) requires hd_v >= 1 {}
        assert(m * (num_qk * hd_qk) == m * num_qk * hd_qk) by (nonlinear_arith) {}
        assert(m * (num_v * hd_v) == m * num_v * hd_v) by (nonlinear_arith) {}
    }
    let q_len = mu * nq * hq;
    let v_len = mu * nv * hv;
    let a_len = mu * nq;
    let q = match project(input, weights.w_q.as_slice(), m, hidden, q_dim, scales.q, q_len) {
        Ok(x) => x,
        Err(e) => {
            return Err(DeltaNetError::Matmul(e));
        },
    };
    let k = match project(input, weights.w_k.as_slice(), m, hidden, q_dim, scales.k, q_len) {
        Ok(x) => x,
        Err(e) => {
            return Err(DeltaNetError::Matmul(e));
        },
    };
    let v = match project(input, weights.w_v.as_slice(), m, hidden, v_dim, scales.v, v_len) {
        Ok(x) => x,
        Err(e) => {
            return Err(DeltaNetError::Matmul(e));
        },
    };
    let mut a = match project(input, weights.w_alpha.as_slice(), m, hidden, num_qk, scales.alpha_logit, a_len) {
        Ok(x) => x,
        Err(e) => {
            return Err(DeltaNetError::Matmul(e));
        },
    };
    sigmoid_lut.apply(a.as_mut_slice());
    let mut b = match project(input, weights.w_beta.as_slice(), m, hidden, num_qk, scales.beta_logit, a_len) {
        Ok(x) => x,
        Err(e) => {
            return Err(DeltaNetError::Matmul(e));
        },
    };
    sigmoid_lut.apply(b.as_mut_slice());
    let concat = deltanet_heads(q.as_slice(), k.as_slice(), v.as_slice(), a.as_slice(), b.as_slice(),
        mu, nq, nv, hq, hv, scales);
    match matmul_int8_requant(concat.as_slice(), weights.w_o.as_slice(), m, v_dim, hidden, scales.proj, output) {
        Ok(()) => Ok(()),
        Err(e) => Err(DeltaNetError::Matmul(e)),
    }
}

} // verus!
