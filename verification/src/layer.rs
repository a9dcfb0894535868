//! One transformer block: `norm -> (attention | DeltaNet | ...) -> +residual
//! -> norm -> FFN -> +residual`, with the residual stream kept in `i8`
//! under saturating addition.
use vstd::prelude::*;
use crate::activation_lut::{ActivationLut, lut_map};
use crate::arith::sat_i8;
use crate::attention::{
    attention_forward, attention_forward_gemma, attention_check, attention_spec, opt_len, opt_view,
    AttentionError, AttentionScales, AttentionWeights, GemmaAttentionOpts, proj_spec, qk_norm_spec,
    rope_spec, core_spec, qk_norm_heads, rope_heads, attention_core, project,
};
use crate::deltanet::{deltanet_forward, deltanet_check, deltanet_spec, DeltaNetError, DeltaNetScales, DeltaNetWeights};
use crate::ffn::{ffn_forward, ffn_check, ffn_spec, FfnError, FfnScales, FfnWeights};
use crate::layernorm::{layernorm, layernorm_spec, LayerNormError};
use crate::matmul_int8::{matmul_int8_requant, mul_u32, MatmulError, lemma_row_major_index};
use crate::quant::{rescale_and_requantize, saturate_i8, requant, Scale};
use crate::rmsnorm::{rmsnorm, rmsnorm_spec, RmsNormError};
use crate::rope::{RopeError, RopeTables};
use crate::softmax::{ExpLut, SoftmaxError};
use crate::ssm::{ssm_forward, ssm_forward_inter, ssm_check, ssm_spec, ssm_inter_spec, ssm_inter_view, ssm_check_lens, SsmError, SsmOpts};

verus! {

/// Norm flavor and parameters of one norm position.
#[derive(Debug, Clone, PartialEq, Eq)]
pub enum NormSpec {
    RmsNorm {
        /// Per-channel scale, length `hidden`.
        gamma: Vec<i8>,
        /// Integer epsilon added to the sum of squares.
        eps_q: i64,
        /// Requantization of the `i32` norm output back to `i8`.
        post_scale: Scale,
    },
    LayerNorm {
        gamma: Vec<i8>,
        beta: Vec<i8>,
        eps_q: i64,
        post_scale: Scale,
    },
}

impl NormSpec {
    pub open spec fn gamma_view(&self) -> Seq<i8> {
        match self {
            NormSpec::RmsNorm { gamma, .. } => gamma@,
            NormSpec::LayerNorm { gamma, .. } => gamma@,
        }
    }

    /// Length of the per-channel gamma.
    pub fn gamma_len(&self) -> (r: usize)
        ensures
            r == self.gamma_view().len(),
    {
        match self {
            NormSpec::RmsNorm { gamma, .. } => gamma.len(),
            NormSpec::LayerNorm { gamma, .. } => gamma.len(),
        }
    }
}

#[derive(Debug, Clone, Copy, PartialEq, Eq)]
pub enum LayerError {
    BadInputLen,
    BadOutputLen,
    ZeroHidden,
    ZeroM,
    BadNormShape,
    Rms(RmsNormError),
    Ln(LayerNormError),
    Attn(AttentionError),
    Dnet(DeltaNetError),
    Ffn(FfnError),
    Ssm(SsmError),
    Matmul(MatmulError),
    Rope(RopeError),
    Softmax(SoftmaxError),
}


/// Weights of one transformer block, one variant per block flavor.
#[derive(Debug, Clone, PartialEq, Eq)]
pub enum LayerWeights {
    Attention {
        norm1: NormSpec,
        attn: AttentionWeights,
        attn_scales: AttentionScales,
        norm2: NormSpec,
        ffn: FfnWeights,
        ffn_scales: FfnScales,
    },
    DeltaNet {
        norm1: NormSpec,
        dnet: DeltaNetWeights,
        dnet_scales: DeltaNetScales,
        norm2: NormSpec,
        ffn: FfnWeights,
        ffn_scales: FfnScales,
    },
    /// Standard attention block with per-head QK RMSNorm before RoPE.
    QwenStandard {
        norm1: NormSpec,
        attn: AttentionWeights,
        attn_scales: AttentionScales,
        /// Per-head Q-norm gamma, length `head_dim`.
        q_norm_gamma: Vec<i8>,
        /// Per-head K-norm gamma, length `head_dim`.
        k_norm_gamma: Vec<i8>,
        qk_norm_eps_q: i64,
        qk_norm_post_scale: Scale,
        norm2: NormSpec,
        ffn: FfnWeights,
        ffn_scales: FfnScales,
    },
    /// Hybrid block: a gated-attention path and an SSM path fed by the same
    /// normalized input and summed before the residual add.
    QwenHybridSsm {
        norm1: NormSpec,
        /// `(hidden, q_dim + 2 * kv_dim)` col-major fused Q/K/V projection.
        attn_qkv_fused: Vec<i8>,
        /// `(hidden, num_q_heads * head_dim)` col-major sigmoid gate.
        attn_gate: Vec<i8>,
        /// `(num_q_heads * head_dim, hidden)` col-major output projection.
        attn_out: Vec<i8>,
        num_q_heads: u32,
        num_kv_heads: u32,
        head_dim: u32,
        attn_scales: AttentionScales,
        q_norm_gamma: Vec<i8>,
        k_norm_gamma: Vec<i8>,
        qk_norm_eps_q: i64,
        qk_norm_post_scale: Scale,
        ssm_a: Vec<i8>,
        ssm_alpha: Vec<i8>,
        ssm_beta: Vec<i8>,
        ssm_conv1d: Vec<i8>,
        ssm_dt: Vec<i8>,
        ssm_norm_gamma: Vec<i8>,
        ssm_norm_eps_q: i64,
        ssm_norm_post_scale: Scale,
        ssm_out: Vec<i8>,
        num_v_heads: u32,
        ssm_head_dim: u32,
        ssm_kernel_size: u32,
        ssm_scales: DeltaNetScales,
        norm2: NormSpec,
        ffn: FfnWeights,
        ffn_scales: FfnScales,
    },
    /// Four-norm block with QK norm, optional sliding window, optional
    /// input gating and optional output scaling.
    Gemma {
        norm1: NormSpec,
        attn: AttentionWeights,
        attn_scales: AttentionScales,
        q_norm_gamma: Vec<i8>,
        k_norm_gamma: Vec<i8>,
        qk_norm_eps_q: i64,
        qk_norm_post_scale: Scale,
        /// Norm of the attention output before the residual add.
        post_attn_norm: NormSpec,
        norm2: NormSpec,
        ffn: FfnWeights,
        ffn_scales: FfnScales,
        /// Norm of the FFN output before the residual add.
        post_ffn_norm: NormSpec,
        /// `Some(w)`: keys older than `w - 1` tokens are masked.
        sliding_window: Option<u32>,
        /// Per-channel input gate, length `hidden`.
        inp_gate: Option<Vec<i8>>,
        /// Per-channel scale of the FFN branch, length `hidden`.
        layer_output_scale: Option<Vec<i8>>,
    },
}

/// Shared resources of one forward pass.
#[derive(Debug, Clone, Copy)]
pub struct LayerContext<'a> {
    pub rope_tables: &'a RopeTables,
    pub softmax_lut: &'a ExpLut,
    pub sigmoid_lut: &'a ActivationLut,
    pub ffn_activation: &'a ActivationLut,
}

// ---------------------------------------------------------------------
// Per-token norm, residual add, channelwise scale
// ---------------------------------------------------------------------

/// Row `t`'s normalized, requantized channel `c`.
pub open spec fn norm_row_entry(norm: NormSpec, row: Seq<i8>, c: int) -> i8 {
    match norm {
        NormSpec::RmsNorm { gamma, eps_q, post_scale } =>
            requant(rmsnorm_spec(row, gamma@, eps_q as int)[c] as int, post_scale.num as int) as i8,
        NormSpec::LayerNorm { gamma, beta, eps_q, post_scale } =>
            requant(layernorm_spec(row, gamma@, beta@, eps_q as int)[c] as int, post_scale.num as int) as i8,
    }
}

/// Every `hidden`-wide row of `x` normalized on its own.
pub open spec fn norm_rows_spec(norm: NormSpec, x: Seq<i8>, hidden: int) -> Seq<i8> {
    Seq::new(x.len(), |i: int| {
        let b = (i / hidden) * hidden;
        norm_row_entry(norm, x.subrange(b, b + hidden), i - b)
    })
}

/// Which check of `apply_norm_per_token` fails first, if any.
pub open spec fn norm_check(norm: NormSpec, in_len: int, out_len: int, m: int, hidden: int) -> Result<(), LayerError> {
    if in_len != m * hidden {
        Err(LayerError::BadInputLen)
    } else if out_len != m * hidden {
        Err(LayerError::BadOutputLen)
    } else if norm.gamma_view().len() != hidden {
        Err(LayerError::BadNormShape)
    } else if m == 0 {
        Ok(())
    } else {
        match norm {
            NormSpec::RmsNorm { .. } => if hidden == 0 { Err(LayerError::Rms(RmsNormError::ZeroHidden)) } else { Ok(()) },
            NormSpec::LayerNorm { beta, .. } =>
                if beta@.len() != hidden {
                    Err(LayerError::BadNormShape)
                } else if hidden == 0 {
                    Err(LayerError::Ln(LayerNormError::ZeroHidden))
                } else {
                    Ok(())
                },
        }
    }
}

/// The norm of a freshly allocated `(m, hidden)` buffer, as a result.
pub open spec fn norm_result(norm: NormSpec, x: Seq<i8>, m: int, hidden: int) -> Result<Seq<i8>, LayerError> {
    match norm_check(norm, x.len() as int, m * hidden, m, hidden) {
        Err(e) => Err(e),
        Ok(()) => Ok(norm_rows_spec(norm, x, hidden)),
    }
}

/// `sat(a[i] + b[i])`.
pub open spec fn residual_spec(a: Seq<i8>, b: Seq<i8>) -> Seq<i8> {
    Seq::new(a.len(), |i: int| sat_i8(a[i] as int + b[i] as int) as i8)
}

/// `sat(sign(v) * floor((|v| + 63) / 127))`.
pub open spec fn chan_entry(v: int) -> i8 {
    let q = (if v < 0 { -v } else { v } + 63) / 127;
    sat_i8(if v < 0 { -q } else { q }) as i8
}

/// `x[t, c] * scale[c] / 127`, rounded half away from zero, saturated.
pub open spec fn channelwise_spec(x: Seq<i8>, scale: Seq<i8>, hidden: int) -> Seq<i8> {
    Seq::new(x.len(), |i: int| chan_entry((x[i] as int) * (scale[i % hidden] as int)))
}

/// Apply `norm` to each `hidden`-wide row of `input`, writing the
/// requantized result to `output`.
pub fn apply_norm_per_token(norm: &NormSpec, input: &[i8], m: u32, hidden: u32, output: &mut [i8]) -> (r: Result<(), LayerError>)
    requires
        hidden < 0x8000_0000,
    ensures
        r == norm_check(*norm, input@.len() as int, old(output)@.len() as int, m as int, hidden as int),
        r is Ok ==> final(output)@ == norm_rows_spec(*norm, input@, hidden as int),
        r is Err ==> final(output)@ == old(output)@,
{
    let mh = mul_u32(m, hidden);
    if input.len() as u64 != mh {
        return Err(LayerError::BadInputLen);
    }
    if output.len() as u64 != mh {
        return Err(LayerError::BadOutputLen);
    }
    if norm.gamma_len() as u64 != hidden as u64 {
        return Err(LayerError::BadNormShape);
    }
    if m == 0 {
        proof {
            assert(output@ =~= norm_rows_spec(*norm, input@, hidden as int));
        }
        return Ok(());
    }
    match norm {
        NormSpec::RmsNorm { .. } => {
            if hidden == 0 {
                return Err(LayerError::Rms(RmsNormError::ZeroHidden));
            }
        },
        NormSpec::LayerNorm { beta, .. } => {
            if beta.len() as u64 != hidden as u64 {
                return Err(LayerError::BadNormShape);
            }
            if hidden == 0 {
                return Err(LayerError::Ln(LayerNormError::ZeroHidden));
            }
        },
    }
    let mu = m as usize;
    let hu = hidden as usize;
    let ghost spec = norm_rows_spec(*norm, input@, hidden as int);
    let ghost out0 = output@;
    let ilen = input.len();
    let mut acc: Vec<i32> = vec![0i32; hu];
    let mut t: usize = 0;
    while t < mu
        invariant
            0 < hu < 0x8000_0000,
            t <= mu,
            ilen == input@.len(),
            input@.len() == mu * hu,
            output@.len() == mu * hu,
            acc@.len() == hu,
            norm.gamma_view().len() == hu,
            (match *norm { NormSpec::LayerNorm { beta, .. } => beta@.len() == hu, _ => true }),
            spec == norm_rows_spec(*norm, input@, hidden as int),
            hu == hidden,
            forall|i: int| 0 <= i < t * hu ==> output@[i] == spec[i],
        decreases mu - t,
    {
        proof {
            lemma_row_major_index(t as int, 0, hu as int, mu as int);
            assert(t * hu + hu <= mu * hu) by (nonlinear_arith) requires t < mu {}
        }
        let base = t * hu;
        let mut row: Vec<i8> = Vec::new();
        let mut c: usize = 0;
        while c < hu
            invariant
                c <= hu,
                base + hu <= ilen,
                ilen == input@.len(),
                row@.len() == c,
                forall|e: int| 0 <= e < c ==> row@[e] == input@[base + e],
            decreases hu - c,
        {
            row.push(input[base + c]);
            c = c + 1;
        }
        let ghost rowv = input@.subrange(base as int, base + hu);
        assert(row@ =~= rowv);
        let post = match norm {
            NormSpec::RmsNorm { gamma, eps_q, post_scale } => {
                let _ = rmsnorm(row.as_slice(), gamma.as_slice(), acc.as_mut_slice(), *eps_q);
                *post_scale
            },
            NormSpec::LayerNorm { gamma, beta, eps_q, post_scale } => {
                let _ = layernorm(row.as_slice(), gamma.as_slice(), beta.as_slice(), acc.as_mut_slice(), *eps_q);
                *post_scale
            },
        };
        let olen = output.len();
        let mut c: usize = 0;
        while c < hu
            invariant
                c <= hu,
                0 < hu,
                olen == output@.len(),
                input@.len() == mu * hu,
                t < mu,
                base == t * hu,
                base + hu <= output@.len(),
                output@.len() == mu * hu,
                acc@.len() == hu,
                rowv == input@.subrange(base as int, base + hu),
                (match *norm {
                    NormSpec::RmsNorm { gamma, eps_q, post_scale } =>
                        acc@ == rmsnorm_spec(rowv, gamma@, eps_q as int) && post == post_scale,
                    NormSpec::LayerNorm { gamma, beta, eps_q, post_scale } =>
                        acc@ == layernorm_spec(rowv, gamma@, beta@, eps_q as int) && post == post_scale,
                }),
                spec == norm_rows_spec(*norm, input@, hidden as int),
                hu == hidden,
                forall|i: int| 0 <= i < base + c ==> output@[i] == spec[i],
            decreases hu - c,
        {
            proof {
                lemma_row_major_index(t as int, c as int, hu as int, mu as int);
                assert(((base + c) / (hu as int)) * (hu as int) == base);
            }
            let val = rescale_and_requantize(acc[c], post);
            proof {
                assert(val == norm_row_entry(*norm, rowv, c as int));
                let i = base + c;
                assert(0 <= i < input@.len());
                let b2 = (i / (hidden as int)) * (hidden as int);
                assert(b2 == base);
                assert(spec[i] == norm_row_entry(*norm, input@.subrange(b2, b2 + hidden), i - b2));
                assert(spec[base + c] == norm_row_entry(*norm, rowv, c as int));
            }
            output[base + c] = val;
            c = c + 1;
        }
        proof {
            assert(t * hu + hu == (t + 1) * hu) by (nonlinear_arith) {}
        }
        t = t + 1;
    }
    proof {
        assert(output@ =~= spec);
    }
    Ok(())
}

/// `dst[i] = sat(dst[i] + addend[i])`.
pub fn add_residual_inplace(dst: &mut [i8], addend: &[i8])
    requires
        old(dst)@.len() == addend@.len(),
    ensures
        final(dst)@ == residual_spec(old(dst)@, addend@),
{
    let ghost orig = dst@;
    let n = dst.len();
    let mut i: usize = 0;
    while i < n
        invariant
            i <= n,
            n == dst@.len(),
            n == addend@.len(),
            orig.len() == n,
            forall|e: int| 0 <= e < i ==> dst@[e] == residual_spec(orig, addend@)[e],
            forall|e: int| i <= e < n ==> dst@[e] == orig[e],
        decreases n - i,
    {
        let sum = (dst[i] as i32) + (addend[i] as i32);
        dst[i] = saturate_i8(sum as i64);
        i = i + 1;
    }
    assert(dst@ =~= residual_spec(orig, addend@));
}

/// `sat(sign(v) * floor((|v| + 63) / 127))` for a product of two `i8`.
fn chan_entry_exec(v: i32) -> (r: i8)
    requires
        -0x4000 <= v <= 0x4000,
    ensures
        r == chan_entry(v as int),
{
    let abs_v: i32 = if v < 0 { -v } else { v };
    let q = (abs_v + 63) / 127;
    let signed = if v < 0 { -q } else { q };
    saturate_i8(signed as i64)
}

/// Per-channel multiply-and-rescale: `x[t, c] = sat(round(x[t, c] *
/// scale[c] / 127))`, halves rounded away from zero.
pub fn apply_channelwise_scale(input: &mut [i8], scale: &[i8], hidden: usize)
    requires
        hidden > 0,
        scale@.len() == hidden,
        (old(input)@.len() as int) % (hidden as int) == 0,
    ensures
        final(input)@ == channelwise_spec(old(input)@, scale@, hidden as int),
{
    let ghost orig = input@;
    let n = input.len();
    let mut i: usize = 0;
    while i < n
        invariant
            i <= n,
            hidden > 0,
            n == input@.len(),
            orig.len() == n,
            scale@.len() == hidden,
            forall|e: int| 0 <= e < i ==> input@[e] == channelwise_spec(orig, scale@, hidden as int)[e],
            forall|e: int| i <= e < n ==> input@[e] == orig[e],
        decreases n - i,
    {
        let c = i % hidden;
        let a = input[i] as i32;
        let b = scale[c] as i32;
        assert(-0x4000 <= a * b <= 0x4000) by (nonlinear_arith) requires -128 <= a <= 127, -128 <= b <= 127 {}
        input[i] = chan_entry_exec(a * b);
        i = i + 1;
    }
    assert(input@ =~= channelwise_spec(orig, scale@, hidden as int));
}

// ---------------------------------------------------------------------
// Gated attention of the Qwen hybrid block
// ---------------------------------------------------------------------

/// Which check of the gated attention fails first. `out_len` and
/// `out_w_len` are `None` for the variant that stops before the output
/// projection.
pub open spec fn gated_check(
    in_len: int, out_len: Option<int>, fused_len: int, gate_len: int, out_w_len: Option<int>,
    hidden: int, nq: int, nkv: int, hd: int, t: RopeTables, m: int, qg_len: int, kg_len: int,
) -> Result<(), LayerError> {
    let q_dim = nq * hd;
    let kv_dim = nkv * hd;
    if hidden == 0 || nq == 0 || hd == 0 || m == 0 {
        Err(LayerError::ZeroHidden)
    } else if nkv == 0 || nkv > nq || nq % nkv != 0 {
        Err(LayerError::Attn(AttentionError::BadKvHeads))
    } else if hd % 2 != 0 {
        Err(LayerError::Attn(AttentionError::HeadDimOdd))
    } else if t.half_head_dim != hd / 2 {
        Err(LayerError::Attn(AttentionError::RopeHalfHeadDimMismatch))
    } else if t.seq_len < m {
        Err(LayerError::Attn(AttentionError::RopeSeqLenTooShort))
    } else if in_len != m * hidden {
        Err(LayerError::BadInputLen)
    } else if out_len is Some && out_len->0 != m * hidden {
        Err(LayerError::BadOutputLen)
    } else if fused_len != hidden * (q_dim + kv_dim + kv_dim) {
        Err(LayerError::Attn(AttentionError::BadWqLen))
    } else if gate_len != hidden * q_dim {
        Err(LayerError::Attn(AttentionError::BadWqLen))
    } else if out_w_len is Some && out_w_len->0 != q_dim * hidden {
        Err(LayerError::Attn(AttentionError::BadWoLen))
    } else if hidden > 0x8000 {
        Err(LayerError::Matmul(MatmulError::KOutOfRange))
    } else if qg_len != hd || kg_len != hd {
        Err(LayerError::Rms(RmsNormError::LenMismatch))
    } else if out_len is Some && q_dim > 0x8000 {
        Err(LayerError::Matmul(MatmulError::KOutOfRange))
    } else {
        Ok(())
    }
}

/// The gated attention output before its output projection.
pub open spec fn gated_inter_spec(
    x: Seq<i8>, fused: Seq<i8>, gate: Seq<i8>, hidden: int, nq: int, nkv: int, hd: int, s: AttentionScales,
    qg: Seq<i8>, kg: Seq<i8>, eps: int, post: int, t: RopeTables, smax: Seq<i32>, sig: Seq<i8>, m: int,
) -> Seq<i8> {
    let q_dim = nq * hd;
    let kv_dim = nkv * hd;
    let wq = fused.subrange(0, hidden * q_dim);
    let wk = fused.subrange(hidden * q_dim, hidden * (q_dim + kv_dim));
    let wv = fused.subrange(hidden * (q_dim + kv_dim), hidden * (q_dim + kv_dim + kv_dim));
    let q = rope_spec(qk_norm_spec(proj_spec(x, wq, m, hidden, q_dim, s.q.num as int), hd, qg, eps, post), nq, hd, t);
    let k = rope_spec(qk_norm_spec(proj_spec(x, wk, m, hidden, kv_dim, s.k.num as int), hd, kg, eps, post), nkv, hd, t);
    let v = proj_spec(x, wv, m, hidden, kv_dim, s.v.num as int);
    let a = core_spec(q, k, v, m, nq, nkv, hd, None, s.score.num as int, s.attn_out.num as int, smax);
    let g = lut_map(sig, proj_spec(x, gate, m, hidden, q_dim, s.q.num as int));
    Seq::new(a.len(), |i: int| chan_entry((a[i] as int) * (g[i] as int)))
}

fn gated_inter_impl(
    input: &[i8], fused: &[i8], gate: &[i8], hidden: u32, nq: u32, nkv: u32, hd: u32, scales: AttentionScales,
    qg: &[i8], kg: &[i8], eps: i64, post: Scale, tables: &RopeTables, smax: &ExpLut, sig: &ActivationLut, m: u32,
) -> (r: Vec<i8>)
    requires
        tables.wf(),
        nq * hd <= u32::MAX,
        m * nq * hd <= usize::MAX,
        hd < 0x8000_0000,
        gated_check(input@.len() as int, None, fused@.len() as int, gate@.len() as int, None,
            hidden as int, nq as int, nkv as int, hd as int, *tables, m as int, qg@.len() as int, kg@.len() as int) is Ok,
    ensures
        r@ == gated_inter_spec(input@, fused@, gate@, hidden as int, nq as int, nkv as int, hd as int, scales,
            qg@, kg@, eps as int, post.num as int, *tables, smax.table@, sig.table@, m as int),
{
    proof {
        assert(nkv * hd <= nq * hd) by (nonlinear_arith) requires nkv <= nq {}
        assert(nkv * hd > 0) by (nonlinear_arith) requires nkv > 0, hd > 0 {}
        assert(m * nkv * hd <= m * nq * hd) by (nonlinear_arith) requires nkv <= nq {}
        assert(m * (nq * hd) == m * nq * hd) by (nonlinear_arith) {}
        assert(m * (nkv * hd) == m * nkv * hd) by (nonlinear_arith) {}
        assert(m * nq <= m * nq * hd) by (nonlinear_arith) requires hd >= 1 {}
        assert(m * nkv <= m * nkv * hd) by (nonlinear_arith) requires hd >= 1 {}
        assert(hidden * (nq * hd + nkv * hd + nkv * hd) == hidden * (nq * hd) + hidden * (nkv * hd) + hidden * (nkv * hd)) by (nonlinear_arith) {}
        assert(hidden * (nq * hd + nkv * hd) == hidden * (nq * hd) + hidden * (nkv * hd)) by (nonlinear_arith) {}
    }
    let q_dim: u32 = nq * hd;
    let kv_dim: u32 = nkv * hd;
    let hu = hidden as usize;
    let mu = m as usize;
    let nqu = nq as usize;
    let nkvu = nkv as usize;
    let hdu = hd as usize;
    let flen = fused.len();
    assert(flen == hidden * (q_dim + kv_dim + kv_dim));
    let e1 = hu * (q_dim as usize);
    let e2 = e1 + hu * (kv_dim as usize);
    let e3 = e2 + hu * (kv_dim as usize);
    let wq = vstd::slice::slice_subrange(fused, 0, e1);
    let wk = vstd::slice::slice_subrange(fused, e1, e2);
    let wv = vstd::slice::slice_subrange(fused, e2, e3);
    let q_len = mu * nqu * hdu;
    let kv_len = mu * nkvu * hdu;
    let mut q = match project(input, wq, m, hidden, q_dim, scales.q, q_len) {
        Ok(v) => v,
        Err(_) => Vec::new(),
    };
    let mut k = match project(input, wk, m, hidden, kv_dim, scales.k, kv_len) {
        Ok(v) => v,
        Err(_) => Vec::new(),
    };
    let v = match project(input, wv, m, hidden, kv_dim, scales.v, kv_len) {
        Ok(v) => v,
        Err(_) => Vec::new(),
    };
    proof {
        vstd::arithmetic::div_mod::lemma_mod_multiples_basic((mu * nqu) as int, hdu as int);
        vstd::arithmetic::div_mod::lemma_mod_multiples_basic((mu * nkvu) as int, hdu as int);
    }
    qk_norm_heads(q.as_mut_slice(), hdu, qg, eps, post);
    qk_norm_heads(k.as_mut_slice(), hdu, kg, eps, post);
    rope_heads(q.as_mut_slice(), mu, nqu, hdu, tables);
    rope_heads(k.as_mut_slice(), mu, nkvu, hdu, tables);
    let mut a = attention_core(q.as_slice(), k.as_slice(), v.as_slice(), mu, nqu, nkvu, hdu, None,
        scales.score, scales.attn_out, smax);
    let mut g = match project(input, gate, m, hidden, q_dim, scales.q, q_len) {
        Ok(v) => v,
        Err(_) => Vec::new(),
    };
    sig.apply(g.as_mut_slice());
    let ghost a0 = a@;
    let n = a.len();
    let mut i: usize = 0;
    while i < n
        invariant
            i <= n,
            n == a@.len(),
            g@.len() == n,
            a0.len() == n,
            forall|e: int| 0 <= e < i ==> a@[e] == chan_entry((a0[e] as int) * (g@[e] as int)),
            forall|e: int| i <= e < n ==> a@[e] == a0[e],
        decreases n - i,
    {
        let x = a[i] as i32;
        let y = g[i] as i32;
        assert(-0x4000 <= x * y <= 0x4000) by (nonlinear_arith) requires -128 <= x <= 127, -128 <= y <= 127 {}
        a.set(i, chan_entry_exec(x * y));
        i = i + 1;
    }
    proof {
        assert(a@ =~= Seq::new(a0.len(), |e: int| chan_entry((a0[e] as int) * (g@[e] as int))));
    }
    a
}

/// Gated-attention checks, in the order the forward makes them.
fn gated_validate(
    in_len: usize, out_len: Option<usize>, fused_len: usize, gate_len: usize, out_w_len: Option<usize>,
    hidden: u32, nq: u32, nkv: u32, hd: u32, tables: &RopeTables, m: u32, qg_len: usize, kg_len: usize,
) -> (r: Result<(), LayerError>)
    requires
        nq * hd <= u32::MAX,
    ensures
        r == gated_check(in_len as int, match out_len { Some(n) => Some(n as int), None => None }, fused_len as int,
            gate_len as int, match out_w_len { Some(n) => Some(n as int), None => None },
            hidden as int, nq as int, nkv as int, hd as int, *tables, m as int, qg_len as int, kg_len as int),
{
    if hidden == 0 || nq == 0 || hd == 0 || m == 0 {
        return Err(LayerError::ZeroHidden);
    }
    if nkv == 0 || nkv > nq || nq % nkv != 0 {
        return Err(LayerError::Attn(AttentionError::BadKvHeads));
    }
    if hd % 2 != 0 {
        return Err(LayerError::Attn(AttentionError::HeadDimOdd));
    }
    if tables.half_head_dim != hd / 2 {
        return Err(LayerError::Attn(AttentionError::RopeHalfHeadDimMismatch));
    }
    if tables.seq_len < m {
        return Err(LayerError::Attn(AttentionError::RopeSeqLenTooShort));
    }
    proof {
        assert(nkv * hd <= nq * hd) by (nonlinear_arith) requires nkv <= nq {}
    }
    let q_dim: u32 = nq * hd;
    let kv_dim: u32 = nkv * hd;
    let mh = mul_u32(m, hidden);
    if in_len as u64 != mh {
        return Err(LayerError::BadInputLen);
    }
    match out_len {
        Some(n) => {
            if n as u64 != mh {
                return Err(LayerError::BadOutputLen);
            }
        },
        None => {},
    }
    let total: u64 = (q_dim as u64) + 2 * (kv_dim as u64);
    assert((hidden as u128) * (total as u128) <= 0xffff_ffff_ffff_ffff_ffff_ffff) by (nonlinear_arith)
        requires hidden <= 0xffff_ffff, total <= 0x3_ffff_ffff {}
    if fused_len as u128 != (hidden as u128) * (total as u128) {
        return Err(LayerError::Attn(AttentionError::BadWqLen));
    }
    if gate_len as u64 != mul_u32(hidden, q_dim) {
        return Err(LayerError::Attn(AttentionError::BadWqLen));
    }
    match out_w_len {
        Some(n) => {
            if n as u64 != mul_u32(q_dim, hidden) {
                return Err(LayerError::Attn(AttentionError::BadWoLen));
            }
        },
        None => {},
    }
    if hidden > 0x8000 {
        return Err(LayerError::Matmul(MatmulError::KOutOfRange));
    }
    if qg_len as u64 != hd as u64 || kg_len as u64 != hd as u64 {
        return Err(LayerError::Rms(RmsNormError::LenMismatch));
    }
    if out_len.is_some() && q_dim > 0x8000 {
        return Err(LayerError::Matmul(MatmulError::KOutOfRange));
    }
    Ok(())
}

/// Gated attention with a fused QKV projection, per-head QK norm, RoPE,
/// causal softmax, a sigmoid output gate, and the output projection.
pub fn gated_attention_forward(
    input: &[i8], attn_qkv_fused: &[i8], attn_gate: &[i8], attn_out_w: &[i8], hidden: u32,
    num_q_heads: u32, num_kv_heads: u32, head_dim: u32, scales: AttentionScales,
    q_norm_gamma: &[i8], k_norm_gamma: &[i8], qk_norm_eps_q: i64, qk_norm_post_scale: Scale,
    rope_tables: &RopeTables, softmax_lut: &ExpLut, sigmoid_lut: &ActivationLut, m: u32, output: &mut [i8],
) -> (r: Result<(), LayerError>)
    requires
        rope_tables.wf(),
        num_q_heads * head_dim <= u32::MAX,
        m * num_q_heads * head_dim <= usize::MAX,
        head_dim < 0x8000_0000,
    ensures
        r == gated_check(input@.len() as int, Some(old(output)@.len() as int), attn_qkv_fused@.len() as int,
            attn_gate@.len() as int, Some(attn_out_w@.len() as int), hidden as int, num_q_heads as int,
            num_kv_heads as int, head_dim as int, *rope_tables, m as int, q_norm_gamma@.len() as int,
            k_norm_gamma@.len() as int),
        r is Ok ==> final(output)@ == proj_spec(
            gated_inter_spec(input@, attn_qkv_fused@, attn_gate@, hidden as int, num_q_heads as int,
                num_kv_heads as int, head_dim as int, scales, q_norm_gamma@, k_norm_gamma@, qk_norm_eps_q as int,
                qk_norm_post_scale.num as int, *rope_tables, softmax_lut.table@, sigmoid_lut.table@, m as int),
            attn_out_w@, m as int, (num_q_heads * head_dim) as int, hidden as int, scales.o.num as int),
        r is Err ==> final(output)@ == old(output)@,
{
    match gated_validate(input.len(), Some(output.len()), attn_qkv_fused.len(), attn_gate.len(),
        Some(attn_out_w.len()), hidden, num_q_heads, num_kv_heads, head_dim, rope_tables, m,
        q_norm_gamma.len(), k_norm_gamma.len()) {
        Err(e) => {
            return Err(e);
        },
        Ok(()) => {},
    }
    let inter = gated_inter_impl(input, attn_qkv_fused, attn_gate, hidden, num_q_heads, num_kv_heads, head_dim,
        scales, q_norm_gamma, k_norm_gamma, qk_norm_eps_q, qk_norm_post_scale, rope_tables, softmax_lut,
        sigmoid_lut, m);
    let q_dim: u32 = num_q_heads * head_dim;
    proof {
        assert(q_dim > 0) by (nonlinear_arith) requires q_dim == num_q_heads * head_dim, num_q_heads > 0, head_dim > 0 {}
        assert(m * (num_q_heads * head_dim) == m * num_q_heads * head_dim) by (nonlinear_arith) {}
    }
    match matmul_int8_requant(inter.as_slice(), attn_out_w, m, q_dim, hidden, scales.o, output) {
        Ok(()) => Ok(()),
        Err(e) => Err(LayerError::Matmul(e)),
    }
}

/// The gated attention up to (not including) its output projection.
pub fn gated_attention_inter(
    input: &[i8], attn_qkv_fused: &[i8], attn_gate: &[i8], hidden: u32,
    num_q_heads: u32, num_kv_heads: u32, head_dim: u32, scales: AttentionScales,
    q_norm_gamma: &[i8], k_norm_gamma: &[i8], qk_norm_eps_q: i64, qk_norm_post_scale: Scale,
    rope_tables: &RopeTables, softmax_lut: &ExpLut, sigmoid_lut: &ActivationLut, m: u32,
) -> (r: Result<Vec<i8>, LayerError>)
    requires
        rope_tables.wf(),
        num_q_heads * head_dim <= u32::MAX,
        m * num_q_heads * head_dim <= usize::MAX,
        head_dim < 0x8000_0000,
    ensures
        r is Err <==> gated_check(input@.len() as int, None, attn_qkv_fused@.len() as int,
            attn_gate@.len() as int, None, hidden as int, num_q_heads as int, num_kv_heads as int,
            head_dim as int, *rope_tables, m as int, q_norm_gamma@.len() as int, k_norm_gamma@.len() as int) is Err,
        r is Err ==> r == Err::<Vec<i8>, LayerError>(gated_check(input@.len() as int, None, attn_qkv_fused@.len() as int,
            attn_gate@.len() as int, None, hidden as int, num_q_heads as int, num_kv_heads as int,
            head_dim as int, *rope_tables, m as int, q_norm_gamma@.len() as int, k_norm_gamma@.len() as int)->Err_0),
        r is Ok ==> r->Ok_0@ == gated_inter_spec(input@, attn_qkv_fused@, attn_gate@, hidden as int, num_q_heads as int,
            num_kv_heads as int, head_dim as int, scales, q_norm_gamma@, k_norm_gamma@, qk_norm_eps_q as int,
            qk_norm_post_scale.num as int, *rope_tables, softmax_lut.table@, sigmoid_lut.table@, m as int),
{
    match gated_validate(input.len(), None, attn_qkv_fused.len(), attn_gate.len(), None, hidden, num_q_heads,
        num_kv_heads, head_dim, rope_tables, m, q_norm_gamma.len(), k_norm_gamma.len()) {
        Err(e) => {
            return Err(e);
        },
        Ok(()) => {},
    }
    Ok(gated_inter_impl(input, attn_qkv_fused, attn_gate, hidden, num_q_heads, num_kv_heads, head_dim,
        scales, q_norm_gamma, k_norm_gamma, qk_norm_eps_q, qk_norm_post_scale, rope_tables, softmax_lut,
        sigmoid_lut, m))
}

// ---------------------------------------------------------------------
// Block forward
// ---------------------------------------------------------------------

/// `norm2 -> FFN -> +residual` on the first residual stream `r1`.
pub open spec fn ffn_stage(r1: Seq<i8>, norm2: NormSpec, ffn: FfnWeights, fs: FfnScales, act: Seq<i8>, m: int, h: int) -> Result<Seq<i8>, LayerError> {
    match norm_result(norm2, r1, m, h) {
        Err(e) => Err(e),
        Ok(n2) => match ffn_check(n2.len() as int, m * h, ffn, m) {
            Err(e) => Err(LayerError::Ffn(e)),
            Ok(_) => Ok(residual_spec(r1, ffn_spec(n2, ffn, act, fs, m))),
        },
    }
}


/// The Attention / DeltaNet block after its size checks: `norm1 ->
/// sublayer -> +residual -> ffn_stage`.
pub open spec fn std_layer_spec(x: Seq<i8>, layer: LayerWeights, ctx: LayerContext, m: int, h: int) -> Result<Seq<i8>, LayerError> {
    match layer {
        LayerWeights::Attention { norm1, attn, attn_scales, norm2, ffn, ffn_scales } =>
            match norm_result(norm1, x, m, h) {
                Err(e) => Err(e),
                Ok(n1) => match attention_check(n1.len() as int, m * h, attn, *ctx.rope_tables, m, None, None) {
                    Err(e) => Err(LayerError::Attn(e)),
                    Ok(_) => ffn_stage(
                        residual_spec(attention_spec(n1, attn, attn_scales, *ctx.rope_tables, ctx.softmax_lut.table@, m,
                            None, None, 0, 0, None), x),
                        norm2, ffn, ffn_scales, ctx.ffn_activation.table@, m, h),
                },
            },
        LayerWeights::DeltaNet { norm1, dnet, dnet_scales, norm2, ffn, ffn_scales } =>
            match norm_result(norm1, x, m, h) {
                Err(e) => Err(e),
                Ok(n1) => match deltanet_check(n1.len() as int, m * h, dnet, m) {
                    Err(e) => Err(LayerError::Dnet(e)),
                    Ok(_) => ffn_stage(
                        residual_spec(deltanet_spec(n1, dnet, dnet_scales, ctx.sigmoid_lut.table@, m), x),
                        norm2, ffn, ffn_scales, ctx.ffn_activation.table@, m, h),
                },
            },
        LayerWeights::QwenStandard {
            norm1, attn, attn_scales, q_norm_gamma, k_norm_gamma, qk_norm_eps_q, qk_norm_post_scale, norm2, ffn, ffn_scales,
        } =>
            match norm_result(norm1, x, m, h) {
                Err(e) => Err(e),
                Ok(n1) => match attention_check(n1.len() as int, m * h, attn, *ctx.rope_tables, m,
                    Some(q_norm_gamma@.len() as int), Some(k_norm_gamma@.len() as int)) {
                    Err(e) => Err(LayerError::Attn(e)),
                    Ok(_) => ffn_stage(
                        residual_spec(attention_spec(n1, attn, attn_scales, *ctx.rope_tables, ctx.softmax_lut.table@, m,
                            Some(q_norm_gamma@), Some(k_norm_gamma@), qk_norm_eps_q as int, qk_norm_post_scale.num as int,
                            None), x),
                        norm2, ffn, ffn_scales, ctx.ffn_activation.table@, m, h),
                },
            },
        _ => Err(LayerError::ZeroM),
    }
}

/// Optional per-channel gate.
pub open spec fn maybe_channelwise(x: Seq<i8>, s: Option<Vec<i8>>, h: int) -> Result<Seq<i8>, LayerError> {
    match s {
        None => Ok(x),
        Some(g) => if g@.len() != h { Err(LayerError::BadNormShape) } else { Ok(channelwise_spec(x, g@, h)) },
    }
}

/// The Gemma block after its size checks.
pub open spec fn gemma_layer_spec(x: Seq<i8>, layer: LayerWeights, ctx: LayerContext, m: int, h: int) -> Result<Seq<i8>, LayerError> {
    match layer {
        LayerWeights::Gemma {
            norm1, attn, attn_scales, q_norm_gamma, k_norm_gamma, qk_norm_eps_q, qk_norm_post_scale,
            post_attn_norm, norm2, ffn, ffn_scales, post_ffn_norm, sliding_window, inp_gate, layer_output_scale,
        } => match maybe_channelwise(x, inp_gate, h) {
            Err(e) => Err(e),
            Ok(xg) => match norm_result(norm1, xg, m, h) {
                Err(e) => Err(e),
                Ok(n1) => match attention_check(n1.len() as int, m * h, attn, *ctx.rope_tables, m,
                    Some(q_norm_gamma@.len() as int), Some(k_norm_gamma@.len() as int)) {
                    Err(e) => Err(LayerError::Attn(e)),
                    Ok(_) => {
                        let sub = attention_spec(n1, attn, attn_scales, *ctx.rope_tables, ctx.softmax_lut.table@, m,
                            Some(q_norm_gamma@), Some(k_norm_gamma@), qk_norm_eps_q as int,
                            qk_norm_post_scale.num as int, sliding_window);
                        match norm_result(post_attn_norm, sub, m, h) {
                            Err(e) => Err(e),
                            Ok(pa) => {
                                let r1 = residual_spec(xg, pa);
                                match norm_result(norm2, r1, m, h) {
                                    Err(e) => Err(e),
                                    Ok(n2) => match ffn_check(n2.len() as int, m * h, ffn, m) {
                                        Err(e) => Err(LayerError::Ffn(e)),
                                        Ok(_) => match norm_result(post_ffn_norm,
                                            ffn_spec(n2, ffn, ctx.ffn_activation.table@, ffn_scales, m), m, h) {
                                            Err(e) => Err(e),
                                            Ok(pf) => match maybe_channelwise(pf, layer_output_scale, h) {
                                                Err(e) => Err(e),
                                                Ok(pfs) => Ok(residual_spec(r1, pfs)),
                                            },
                                        },
                                    },
                                }
                            },
                        }
                    },
                },
            },
        },
        _ => Err(LayerError::ZeroM),
    }
}

/// The hybrid block's first sublayer (`gated attention + SSM`) on the
/// normalized input `n1`.
pub open spec fn hybrid_sub_spec(n1: Seq<i8>, layer: LayerWeights, ctx: LayerContext, m: int, h: int) -> Result<Seq<i8>, LayerError> {
    match layer {
        LayerWeights::QwenHybridSsm {
            norm1, attn_qkv_fused, attn_gate, attn_out, num_q_heads, num_kv_heads, head_dim, attn_scales,
            q_norm_gamma, k_norm_gamma, qk_norm_eps_q, qk_norm_post_scale, ssm_a, ssm_alpha, ssm_beta, ssm_conv1d,
            ssm_dt, ssm_norm_gamma, ssm_norm_eps_q, ssm_norm_post_scale, ssm_out, num_v_heads, ssm_head_dim,
            ssm_kernel_size, ssm_scales, norm2, ffn, ffn_scales,
        } => {
            let nq = num_q_heads as int;
            let nkv = num_kv_heads as int;
            let hd = head_dim as int;
            let q_dim = nq * hd;
            let nv = num_v_heads as int;
            let shd = ssm_head_dim as int;
            let shared = q_dim == nv * shd && attn_out@ == ssm_out@;
            let ai = gated_inter_spec(n1, attn_qkv_fused@, attn_gate@, h, nq, nkv, hd, attn_scales, q_norm_gamma@,
                k_norm_gamma@, qk_norm_eps_q as int, qk_norm_post_scale.num as int, *ctx.rope_tables,
                ctx.softmax_lut.table@, ctx.sigmoid_lut.table@, m);
            let si = ssm_inter_view(n1, h, m, ssm_a@, ssm_alpha@, ssm_beta@, ssm_conv1d@, ssm_dt@, ssm_norm_gamma@,
                ssm_norm_eps_q as int, ssm_norm_post_scale.num as int, nv, shd, ssm_kernel_size as int,
                ssm_scales, ctx.sigmoid_lut.table@);
            let sc = |o: Option<int>| ssm_check_lens(n1.len() as int, o, h, m, ssm_a@.len() as int,
                ssm_alpha@.len() as int, ssm_beta@.len() as int, ssm_conv1d@.len() as int, ssm_dt@.len() as int,
                ssm_norm_gamma@.len() as int, ssm_out@.len() as int, nv, shd, ssm_kernel_size as int);
            if shared {
                match gated_check(n1.len() as int, None, attn_qkv_fused@.len() as int, attn_gate@.len() as int, None,
                    h, nq, nkv, hd, *ctx.rope_tables, m, q_norm_gamma@.len() as int, k_norm_gamma@.len() as int) {
                    Err(e) => Err(e),
                    Ok(_) => match sc(None) {
                        Err(e) => Err(LayerError::Ssm(e)),
                        Ok(_) => if q_dim > 0x8000 {
                            Err(LayerError::Matmul(MatmulError::KOutOfRange))
                        } else {
                            Ok(proj_spec(residual_spec(ai, si), ssm_out@, m, q_dim, h, ssm_scales.proj.num as int))
                        },
                    },
                }
            } else {
                match gated_check(n1.len() as int, Some(m * h), attn_qkv_fused@.len() as int, attn_gate@.len() as int,
                    Some(attn_out@.len() as int), h, nq, nkv, hd, *ctx.rope_tables, m, q_norm_gamma@.len() as int,
                    k_norm_gamma@.len() as int) {
                    Err(e) => Err(e),
                    Ok(_) => match sc(Some(m * h)) {
                        Err(e) => Err(LayerError::Ssm(e)),
                        Ok(_) => Ok(residual_spec(
                            proj_spec(ai, attn_out@, m, q_dim, h, attn_scales.o.num as int),
                            proj_spec(si, ssm_out@, m, nv * shd, h, ssm_scales.proj.num as int))),
                    },
                }
            }
        },
        _ => Err(LayerError::ZeroM),
    }
}

/// The hybrid block after its size checks.
pub open spec fn hybrid_layer_spec(x: Seq<i8>, layer: LayerWeights, ctx: LayerContext, m: int, h: int) -> Result<Seq<i8>, LayerError> {
    match layer {
        LayerWeights::QwenHybridSsm { norm1, norm2, ffn, ffn_scales, .. } =>
            match norm_result(norm1, x, m, h) {
                Err(e) => Err(e),
                Ok(n1) => match hybrid_sub_spec(n1, layer, ctx, m, h) {
                    Err(e) => Err(e),
                    Ok(sub) => ffn_stage(residual_spec(sub, x), norm2, ffn, ffn_scales, ctx.ffn_activation.table@, m, h),
                },
            },
        _ => Err(LayerError::ZeroM),
    }
}

/// Hidden width a block works at.
pub open spec fn layer_hidden(layer: LayerWeights) -> int {
    match layer {
        LayerWeights::Attention { attn, .. } => attn.hidden as int,
        LayerWeights::DeltaNet { dnet, .. } => dnet.hidden as int,
        LayerWeights::QwenStandard { attn, .. } => attn.hidden as int,
        LayerWeights::QwenHybridSsm { ffn, .. } => ffn.hidden as int,
        LayerWeights::Gemma { attn, .. } => attn.hidden as int,
    }
}

/// QK-norm gamma lengths match the head width (the QK-normed variants).
pub open spec fn qk_gammas_ok(layer: LayerWeights) -> bool {
    match layer {
        LayerWeights::QwenStandard { attn, q_norm_gamma, k_norm_gamma, .. } =>
            q_norm_gamma@.len() == attn.head_dim && k_norm_gamma@.len() == attn.head_dim,
        LayerWeights::Gemma { attn, q_norm_gamma, k_norm_gamma, .. } =>
            q_norm_gamma@.len() == attn.head_dim && k_norm_gamma@.len() == attn.head_dim,
        LayerWeights::QwenHybridSsm { head_dim, q_norm_gamma, k_norm_gamma, .. } =>
            q_norm_gamma@.len() == head_dim && k_norm_gamma@.len() == head_dim,
        _ => true,
    }
}

/// What `forward_layer` returns: the output on success, else the first
/// failing check.
#[verifier::opaque]
pub open spec fn layer_spec(x: Seq<i8>, out_len: int, layer: LayerWeights, ctx: LayerContext, m: int) -> Result<Seq<i8>, LayerError> {
    let h = layer_hidden(layer);
    if m == 0 {
        Err(LayerError::ZeroM)
    } else if h == 0 {
        Err(LayerError::ZeroHidden)
    } else if x.len() != m * h {
        Err(LayerError::BadInputLen)
    } else if out_len != m * h {
        Err(LayerError::BadOutputLen)
    } else if !qk_gammas_ok(layer) {
        Err(LayerError::BadNormShape)
    } else {
        match layer {
            LayerWeights::Gemma { .. } => gemma_layer_spec(x, layer, ctx, m, h),
            LayerWeights::QwenHybridSsm { .. } => hybrid_layer_spec(x, layer, ctx, m, h),
            _ => std_layer_spec(x, layer, ctx, m, h),
        }
    }
}

/// Machine limits every buffer of a block's forward must fit in.
pub open spec fn layer_fits(layer: LayerWeights, ctx: LayerContext, m: int) -> bool {
    &&& ctx.rope_tables.wf()
    &&& layer_hidden(layer) < 0x8000_0000
    &&& match layer {
        LayerWeights::Attention { attn, ffn, .. } =>
            attn.num_q_heads * attn.head_dim <= u32::MAX && m * attn.num_q_heads * attn.head_dim <= usize::MAX
                && m * ffn.intermediate <= usize::MAX,
        LayerWeights::DeltaNet { dnet, ffn, .. } =>
            dnet.num_qk_heads * dnet.head_dim_qk <= u32::MAX && dnet.num_v_heads * dnet.head_dim_v <= u32::MAX
                && m * dnet.num_qk_heads * dnet.head_dim_qk <= usize::MAX
                && m * dnet.num_v_heads * dnet.head_dim_v <= usize::MAX
                && dnet.head_dim_qk * dnet.head_dim_v <= usize::MAX && m * ffn.intermediate <= usize::MAX,
        LayerWeights::QwenStandard { attn, ffn, .. } =>
            attn.num_q_heads * attn.head_dim <= u32::MAX && m * attn.num_q_heads * attn.head_dim <= usize::MAX
                && attn.head_dim < 0x8000_0000 && m * ffn.intermediate <= usize::MAX,
        LayerWeights::Gemma { attn, ffn, .. } =>
            attn.num_q_heads * attn.head_dim <= u32::MAX && m * attn.num_q_heads * attn.head_dim <= usize::MAX
                && attn.head_dim < 0x8000_0000 && m * ffn.intermediate <= usize::MAX,
        LayerWeights::QwenHybridSsm { num_q_heads, head_dim, num_v_heads, ssm_head_dim, ffn, .. } =>
            num_q_heads * head_dim <= u32::MAX && m * num_q_heads * head_dim <= usize::MAX
                && head_dim < 0x8000_0000 && num_v_heads * ssm_head_dim <= u32::MAX
                && m * num_v_heads * ssm_head_dim <= usize::MAX && ssm_head_dim < 0x8000_0000
                && m * ffn.intermediate <= usize::MAX,
    }
}

/// `dst = src` elementwise.
fn copy_into(dst: &mut [i8], src: &[i8])
    requires
        old(dst)@.len() == src@.len(),
    ensures
        final(dst)@ == src@,
{
    let n = src.len();
    let mut i: usize = 0;
    while i < n
        invariant
            i <= n,
            n == src@.len(),
            n == dst@.len(),
            forall|e: int| 0 <= e < i ==> dst@[e] == src@[e],
        decreases n - i,
    {
        dst[i] = src[i];
        i = i + 1;
    }
    assert(dst@ =~= src@);
}

/// `output = r1 + ffn(norm2(r1))`.
fn ffn_tail(r1: &[i8], norm2: &NormSpec, ffn: &FfnWeights, fs: FfnScales, act: &ActivationLut, m: u32, hidden: u32, output: &mut [i8]) -> (r: Result<(), LayerError>)
    requires
        r1@.len() == m * hidden,
        old(output)@.len() == m * hidden,
        hidden < 0x8000_0000,
        m * ffn.intermediate <= usize::MAX,
    ensures
        match ffn_stage(r1@, *norm2, *ffn, fs, act.table@, m as int, hidden as int) {
            Ok(o) => r is Ok && final(output)@ == o,
            Err(e) => r == Err::<(), LayerError>(e) && final(output)@ == old(output)@,
        },
{
    let n = r1.len();
    let mut n2: Vec<i8> = vec![0i8; n];
    match apply_norm_per_token(norm2, r1, m, hidden, n2.as_mut_slice()) {
        Err(e) => {
            return Err(e);
        },
        Ok(()) => {},
    }
    let mut f: Vec<i8> = vec![0i8; n];
    match ffn_forward(n2.as_slice(), ffn, act, fs, m, f.as_mut_slice()) {
        Err(e) => {
            return Err(LayerError::Ffn(e));
        },
        Ok(()) => {},
    }
    copy_into(output, r1);
    add_residual_inplace(output, f.as_slice());
    Ok(())
}

/// Attention / DeltaNet / QwenStandard block after the size checks.
fn forward_std_layer(input: &[i8], layer: &LayerWeights, ctx: &LayerContext, m: u32, hidden: u32, output: &mut [i8]) -> (r: Result<(), LayerError>)
    requires
        m > 0,
        hidden == layer_hidden(*layer),
        hidden > 0,
        input@.len() == m * hidden,
        old(output)@.len() == m * hidden,
        qk_gammas_ok(*layer),
        layer_fits(*layer, *ctx, m as int),
        layer is Attention || layer is DeltaNet || layer is QwenStandard,
    ensures
        match std_layer_spec(input@, *layer, *ctx, m as int, hidden as int) {
            Ok(o) => r is Ok && final(output)@ == o,
            Err(e) => r == Err::<(), LayerError>(e) && final(output)@ == old(output)@,
        },
{
    let n = input.len();
    let mut normed1: Vec<i8> = vec![0i8; n];
    let norm1 = match layer {
        LayerWeights::Attention { norm1, .. } => norm1,
        LayerWeights::DeltaNet { norm1, .. } => norm1,
        LayerWeights::QwenStandard { norm1, .. } => norm1,
        LayerWeights::QwenHybridSsm { norm1, .. } => norm1,
        LayerWeights::Gemma { norm1, .. } => norm1,
    };
    match apply_norm_per_token(norm1, input, m, hidden, normed1.as_mut_slice()) {
        Err(e) => {
            return Err(e);
        },
        Ok(()) => {},
    }
    let mut sub: Vec<i8> = vec![0i8; n];
    match layer {
        LayerWeights::Attention { attn, attn_scales, .. } => {
            match attention_forward(normed1.as_slice(), attn, *attn_scales, ctx.rope_tables, ctx.softmax_lut, m, sub.as_mut_slice()) {
                Err(e) => {
                    return Err(LayerError::Attn(e));
                },
                Ok(()) => {},
            }
        },
        LayerWeights::DeltaNet { dnet, dnet_scales, .. } => {
            match deltanet_forward(normed1.as_slice(), dnet, *dnet_scales, ctx.sigmoid_lut, m, sub.as_mut_slice()) {
                Err(e) => {
                    return Err(LayerError::Dnet(e));
                },
                Ok(()) => {},
            }
        },
        LayerWeights::QwenStandard { attn, attn_scales, q_norm_gamma, k_norm_gamma, qk_norm_eps_q, qk_norm_post_scale, .. } => {
            let opts = GemmaAttentionOpts {
                q_norm_gamma: Some(q_norm_gamma.as_slice()),
                k_norm_gamma: Some(k_norm_gamma.as_slice()),
                qk_norm_eps_q: *qk_norm_eps_q,
                qk_norm_post_scale: *qk_norm_post_scale,
                sliding_window: None,
            };
            match attention_forward_gemma(normed1.as_slice(), attn, *attn_scales, ctx.rope_tables, ctx.softmax_lut, opts, m, sub.as_mut_slice()) {
                Err(e) => {
                    return Err(LayerError::Attn(e));
                },
                Ok(()) => {},
            }
        },
        _ => {
            return Err(LayerError::ZeroM);
        },
    }
    add_residual_inplace(sub.as_mut_slice(), input);
    let (norm2, ffn, fs) = match layer {
        LayerWeights::Attention { norm2, ffn, ffn_scales, .. } => (norm2, ffn, *ffn_scales),
        LayerWeights::DeltaNet { norm2, ffn, ffn_scales, .. } => (norm2, ffn, *ffn_scales),
        LayerWeights::QwenStandard { norm2, ffn, ffn_scales, .. } => (norm2, ffn, *ffn_scales),
        LayerWeights::QwenHybridSsm { norm2, ffn, ffn_scales, .. } => (norm2, ffn, *ffn_scales),
        LayerWeights::Gemma { norm2, ffn, ffn_scales, .. } => (norm2, ffn, *ffn_scales),
    };
    ffn_tail(sub.as_slice(), norm2, ffn, fs, ctx.ffn_activation, m, hidden, output)
}

/// Optional per-channel gate applied in place.
fn maybe_apply_channelwise(x: &mut Vec<i8>, s: &Option<Vec<i8>>, m: u32, hidden: u32) -> (r: Result<(), LayerError>)
    requires
        hidden > 0,
        old(x)@.len() == m * hidden,
    ensures
        match maybe_channelwise(old(x)@, *s, hidden as int) {
            Ok(o) => r is Ok && final(x)@ == o,
            Err(e) => r == Err::<(), LayerError>(e),
        },
{
    match s {
        None => Ok(()),
        Some(g) => {
            if g.len() as u64 != hidden as u64 {
                return Err(LayerError::BadNormShape);
            }
            proof {
                vstd::arithmetic::div_mod::lemma_mod_multiples_basic(m as int, hidden as int);
            }
            apply_channelwise_scale(x.as_mut_slice(), g.as_slice(), hidden as usize);
            Ok(())
        },
    }
}

/// Gemma block after the size checks.
fn forward_gemma_layer(input: &[i8], layer: &LayerWeights, ctx: &LayerContext, m: u32, hidden: u32, output: &mut [i8]) -> (r: Result<(), LayerError>)
    requires
        m > 0,
        hidden == layer_hidden(*layer),
        hidden > 0,
        input@.len() == m * hidden,
        old(output)@.len() == m * hidden,
        qk_gammas_ok(*layer),
        layer_fits(*layer, *ctx, m as int),
        layer is Gemma,
    ensures
        match gemma_layer_spec(input@, *layer, *ctx, m as int, hidden as int) {
            Ok(o) => r is Ok && final(output)@ == o,
            Err(e) => r == Err::<(), LayerError>(e) && final(output)@ == old(output)@,
        },
{
    match layer {
        LayerWeights::Gemma {
            norm1, attn, attn_scales, q_norm_gamma, k_norm_gamma, qk_norm_eps_q, qk_norm_post_scale,
            post_attn_norm, norm2, ffn, ffn_scales, post_ffn_norm, sliding_window, inp_gate, layer_output_scale,
        } => {
            let n = input.len();
            let mut x: Vec<i8> = Vec::new();
            let mut i: usize = 0;
            while i < n
                invariant
                    i <= n,
                    n == input@.len(),
                    x@ == input@.subrange(0, i as int),
                decreases n - i,
            {
                x.push(input[i]);
                i = i + 1;
            }
            assert(x@ =~= input@);
            match maybe_apply_channelwise(&mut x, inp_gate, m, hidden) {
                Err(e) => {
                    return Err(e);
                },
                Ok(()) => {},
            }
            let mut normed1: Vec<i8> = vec![0i8; n];
            match apply_norm_per_token(norm1, x.as_slice(), m, hidden, normed1.as_mut_slice()) {
                Err(e) => {
                    return Err(e);
                },
                Ok(()) => {},
            }
            let mut sub: Vec<i8> = vec![0i8; n];
            let opts = GemmaAttentionOpts {
                q_norm_gamma: Some(q_norm_gamma.as_slice()),
                k_norm_gamma: Some(k_norm_gamma.as_slice()),
                qk_norm_eps_q: *qk_norm_eps_q,
                qk_norm_post_scale: *qk_norm_post_scale,
                sliding_window: *sliding_window,
            };
            match attention_forward_gemma(normed1.as_slice(), attn, *attn_scales, ctx.rope_tables, ctx.softmax_lut, opts, m, sub.as_mut_slice()) {
                Err(e) => {
                    return Err(LayerError::Attn(e));
                },
                Ok(()) => {},
            }
            let mut post_attn: Vec<i8> = vec![0i8; n];
            match apply_norm_per_token(post_attn_norm, sub.as_slice(), m, hidden, post_attn.as_mut_slice()) {
                Err(e) => {
                    return Err(e);
                },
                Ok(()) => {},
            }
            add_residual_inplace(x.as_mut_slice(), post_attn.as_slice());
            let mut normed2: Vec<i8> = vec![0i8; n];
            match apply_norm_per_token(norm2, x.as_slice(), m, hidden, normed2.as_mut_slice()) {
                Err(e) => {
                    return Err(e);
                },
                Ok(()) => {},
            }
            let mut ffn_out: Vec<i8> = vec![0i8; n];
            match ffn_forward(normed2.as_slice(), ffn, ctx.ffn_activation, *ffn_scales, m, ffn_out.as_mut_slice()) {
                Err(e) => {
                    return Err(LayerError::Ffn(e));
                },
                Ok(()) => {},
            }
            let mut post_ffn: Vec<i8> = vec![0i8; n];
            match apply_norm_per_token(post_ffn_norm, ffn_out.as_slice(), m, hidden, post_ffn.as_mut_slice()) {
                Err(e) => {
                    return Err(e);
                },
                Ok(()) => {},
            }
            match maybe_apply_channelwise(&mut post_ffn, layer_output_scale, m, hidden) {
                Err(e) => {
                    return Err(e);
                },
                Ok(()) => {},
            }
            copy_into(output, x.as_slice());
            add_residual_inplace(output, post_ffn.as_slice());
            Ok(())
        },
        _ => Err(LayerError::ZeroM),
    }
}

/// Whether two byte slices hold the same contents.
fn bytes_eq(a: &[i8], b: &[i8]) -> (r: bool)
    ensures
        r == (a@ == b@),
{
    if a.len() != b.len() {
        return false;
    }
    let n = a.len();
    let mut i: usize = 0;
    while i < n
        invariant
            i <= n,
            n == a@.len(),
            n == b@.len(),
            forall|e: int| 0 <= e < i ==> a@[e] == b@[e],
        decreases n - i,
    {
        if a[i] != b[i] {
            return false;
        }
        i = i + 1;
    }
    assert(a@ =~= b@);
    true
}

/// Hybrid block's first sublayer on the normalized input.
fn hybrid_sub(n1: &[i8], layer: &LayerWeights, ctx: &LayerContext, m: u32, hidden: u32) -> (r: Result<Vec<i8>, LayerError>)
    requires
        m > 0,
        hidden == layer_hidden(*layer),
        hidden > 0,
        n1@.len() == m * hidden,
        layer_fits(*layer, *ctx, m as int),
        layer is QwenHybridSsm,
    ensures
        match hybrid_sub_spec(n1@, *layer, *ctx, m as int, hidden as int) {
            Ok(o) => r is Ok && r->Ok_0@ == o,
            Err(e) => r == Err::<Vec<i8>, LayerError>(e),
        },
{
    match layer {
        LayerWeights::QwenHybridSsm {
            norm1, attn_qkv_fused, attn_gate, attn_out, num_q_heads, num_kv_heads, head_dim, attn_scales,
            q_norm_gamma, k_norm_gamma, qk_norm_eps_q, qk_norm_post_scale, ssm_a, ssm_alpha, ssm_beta, ssm_conv1d,
            ssm_dt, ssm_norm_gamma, ssm_norm_eps_q, ssm_norm_post_scale, ssm_out, num_v_heads, ssm_head_dim,
            ssm_kernel_size, ssm_scales, norm2, ffn, ffn_scales,
        } => {
            let q_dim: u32 = *num_q_heads * *head_dim;
            let inter_dim: u32 = *num_v_heads * *ssm_head_dim;
            let shared = q_dim == inter_dim && bytes_eq(attn_out.as_slice(), ssm_out.as_slice());
            let opts = SsmOpts {
                ssm_a: ssm_a.as_slice(),
                ssm_alpha: ssm_alpha.as_slice(),
                ssm_beta: ssm_beta.as_slice(),
                ssm_conv1d: ssm_conv1d.as_slice(),
                ssm_dt: ssm_dt.as_slice(),
                ssm_norm_gamma: ssm_norm_gamma.as_slice(),
                ssm_norm_eps_q: *ssm_norm_eps_q,
                ssm_norm_post_scale: *ssm_norm_post_scale,
                ssm_out: ssm_out.as_slice(),
                num_v_heads: *num_v_heads,
                head_dim: *ssm_head_dim,
                kernel_size: *ssm_kernel_size,
                scales: *ssm_scales,
                sigmoid_lut: ctx.sigmoid_lut,
            };
            if shared {
                let mut ai = match gated_attention_inter(n1, attn_qkv_fused.as_slice(), attn_gate.as_slice(), hidden,
                    *num_q_heads, *num_kv_heads, *head_dim, *attn_scales, q_norm_gamma.as_slice(),
                    k_norm_gamma.as_slice(), *qk_norm_eps_q, *qk_norm_post_scale, ctx.rope_tables, ctx.softmax_lut,
                    ctx.sigmoid_lut, m) {
                    Ok(v) => v,
                    Err(e) => {
                        return Err(e);
                    },
                };
                let si = match ssm_forward_inter(n1, hidden, m, opts) {
                    Ok(v) => v,
                    Err(e) => {
                        return Err(LayerError::Ssm(e));
                    },
                };
                if q_dim > 0x8000 {
                    return Err(LayerError::Matmul(MatmulError::KOutOfRange));
                }
                proof {
                    let nqh = *num_q_heads as int;
                    let hdd = *head_dim as int;
                    assert(m * (nqh * hdd) == m * nqh * hdd) by (nonlinear_arith) {}
                    assert(q_dim > 0) by (nonlinear_arith)
                        requires q_dim == nqh * hdd, nqh > 0, hdd > 0 {}
                }
                add_residual_inplace(ai.as_mut_slice(), si.as_slice());
                let mut out: Vec<i8> = vec![0i8; n1.len()];
                match matmul_int8_requant(ai.as_slice(), ssm_out.as_slice(), m, q_dim, hidden, ssm_scales.proj, out.as_mut_slice()) {
                    Ok(()) => Ok(out),
                    Err(e) => Err(LayerError::Matmul(e)),
                }
            } else {
                let mut ya: Vec<i8> = vec![0i8; n1.len()];
                match gated_attention_forward(n1, attn_qkv_fused.as_slice(), attn_gate.as_slice(), attn_out.as_slice(),
                    hidden, *num_q_heads, *num_kv_heads, *head_dim, *attn_scales, q_norm_gamma.as_slice(),
                    k_norm_gamma.as_slice(), *qk_norm_eps_q, *qk_norm_post_scale, ctx.rope_tables, ctx.softmax_lut,
                    ctx.sigmoid_lut, m, ya.as_mut_slice()) {
                    Ok(()) => {},
                    Err(e) => {
                        return Err(e);
                    },
                }
                let mut ys: Vec<i8> = vec![0i8; n1.len()];
                match ssm_forward(n1, hidden, m, opts, ys.as_mut_slice()) {
                    Ok(()) => {},
                    Err(e) => {
                        return Err(LayerError::Ssm(e));
                    },
                }
                add_residual_inplace(ya.as_mut_slice(), ys.as_slice());
                Ok(ya)
            }
        },
        _ => Err(LayerError::ZeroM),
    }
}

/// Hybrid block after the size checks.
fn forward_qwen_hybrid_ssm_layer(input: &[i8], layer: &LayerWeights, ctx: &LayerContext, m: u32, hidden: u32, output: &mut [i8]) -> (r: Result<(), LayerError>)
    requires
        m > 0,
        hidden == layer_hidden(*layer),
        hidden > 0,
        input@.len() == m * hidden,
        old(output)@.len() == m * hidden,
        layer_fits(*layer, *ctx, m as int),
        layer is QwenHybridSsm,
    ensures
        match hybrid_layer_spec(input@, *layer, *ctx, m as int, hidden as int) {
            Ok(o) => r is Ok && final(output)@ == o,
            Err(e) => r == Err::<(), LayerError>(e) && final(output)@ == old(output)@,
        },
{
    match layer {
        LayerWeights::QwenHybridSsm { norm1, norm2, ffn, ffn_scales, .. } => {
            let n = input.len();
            let mut normed1: Vec<i8> = vec![0i8; n];
            match apply_norm_per_token(norm1, input, m, hidden, normed1.as_mut_slice()) {
                Err(e) => {
                    return Err(e);
                },
                Ok(()) => {},
            }
            let mut sub = match hybrid_sub(normed1.as_slice(), layer, ctx, m, hidden) {
                Ok(v) => v,
                Err(e) => {
                    return Err(e);
                },
            };
            add_residual_inplace(sub.as_mut_slice(), input);
            ffn_tail(sub.as_slice(), norm2, ffn, *ffn_scales, ctx.ffn_activation, m, hidden, output)
        },
        _ => Err(LayerError::ZeroM),
    }
}

/// Forward one transformer block over an `(m, hidden)` row-major input.
pub fn forward_layer(input: &[i8], layer: &LayerWeights, ctx: &LayerContext, m: u32, output: &mut [i8]) -> (r: Result<(), LayerError>)
    requires
        layer_fits(*layer, *ctx, m as int),
    ensures
        final(output)@.len() == old(output)@.len(),
        match layer_spec(input@, old(output)@.len() as int, *layer, *ctx, m as int) {
            Ok(o) => r is Ok && final(output)@ == o,
            Err(e) => r == Err::<(), LayerError>(e) && final(output)@ == old(output)@,
        },
{
    proof {
        reveal(layer_spec);
    }
    if m == 0 {
        return Err(LayerError::ZeroM);
    }
    let hidden = match layer {
        LayerWeights::Attention { attn, .. } => attn.hidden,
        LayerWeights::DeltaNet { dnet, .. } => dnet.hidden,
        LayerWeights::QwenStandard { attn, .. } => attn.hidden,
        LayerWeights::QwenHybridSsm { ffn, .. } => ffn.hidden,
        LayerWeights::Gemma { attn, .. } => attn.hidden,
    };
    if hidden == 0 {
        return Err(LayerError::ZeroHidden);
    }
    let mh = mul_u32(m, hidden);
    if input.len() as u64 != mh {
        return Err(LayerError::BadInputLen);
    }
    if output.len() as u64 != mh {
        return Err(LayerError::BadOutputLen);
    }
    let gammas_ok = match layer {
        LayerWeights::QwenStandard { attn, q_norm_gamma, k_norm_gamma, .. } =>
            q_norm_gamma.len() as u64 == attn.head_dim as u64 && k_norm_gamma.len() as u64 == attn.head_dim as u64,
        LayerWeights::Gemma { attn, q_norm_gamma, k_norm_gamma, .. } =>
            q_norm_gamma.len() as u64 == attn.head_dim as u64 && k_norm_gamma.len() as u64 == attn.head_dim as u64,
        LayerWeights::QwenHybridSsm { head_dim, q_norm_gamma, k_norm_gamma, .. } =>
            q_norm_gamma.len() as u64 == *head_dim as u64 && k_norm_gamma.len() as u64 == *head_dim as u64,
        _ => true,
    };
    if !gammas_ok {
        return Err(LayerError::BadNormShape);
    }
    match layer {
        LayerWeights::Gemma { .. } => forward_gemma_layer(input, layer, ctx, m, hidden, output),
        LayerWeights::QwenHybridSsm { .. } => forward_qwen_hybrid_ssm_layer(input, layer, ctx, m, hidden, output),
        _ => forward_std_layer(input, layer, ctx, m, hidden, output),
    }
}

} // verus!
