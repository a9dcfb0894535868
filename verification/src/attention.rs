//! Multi-head / grouped-query causal attention, integer only.
//!
//! Layouts as in `matmul_int8`: activations row-major, weights
//! column-major. The `q` head `h` reads key/value head
//! `h * num_kv_heads / num_q_heads`; scores are taken over the causal
//! window `[lo, i]` in ascending order, softmaxed through the exponent
//! LUT, and the value sum is accumulated in wrapping `i32` before one
//! requantization.
use vstd::prelude::*;
use crate::arith::{wrap_i32, sat_i32, lemma_wrap_i32_add, lemma_wrapping_add_i32, lemma_wrap_i32_id};
use crate::matmul_int8::{dot_at, dot_at_i8, matmul_int8_requant, matmul_spec, requant_seq, mul_u32, MatmulError, lemma_row_major_index};
use crate::quant::{rescale_and_requantize, round_half_to_even_div_pow2, round_half_even, requant, Scale, SCALE_DENOM_LOG2};
use crate::rmsnorm::{rmsnorm, rmsnorm_spec, RmsNormError};
use crate::rope::{rope_at, rope_head, RopeError, RopeTables};
use crate::softmax::{softmax_int, softmax_spec, ExpLut, SoftmaxError};

verus! {

/// Weights of one attention block, all column-major:
/// `w_q` is `(hidden, num_q_heads * head_dim)`, `w_k` and `w_v` are
/// `(hidden, num_kv_heads * head_dim)`, `w_o` is
/// `(num_q_heads * head_dim, hidden)`.
#[derive(Debug, Clone, PartialEq, Eq)]
pub struct AttentionWeights {
    pub hidden: u32,
    pub num_q_heads: u32,
    pub num_kv_heads: u32,
    pub head_dim: u32,
    pub w_q: Vec<i8>,
    pub w_k: Vec<i8>,
    pub w_v: Vec<i8>,
    pub w_o: Vec<i8>,
}

/// Per-tensor scales of one attention step.
#[derive(Debug, Clone, Copy, PartialEq, Eq)]
pub struct AttentionScales {
    /// Q projection `i32 -> i8`.
    pub q: Scale,
    /// K projection `i32 -> i8`.
    pub k: Scale,
    /// V projection `i32 -> i8`.
    pub v: Scale,
    /// `Q . K` dot product into softmax-domain `i32` units.
    pub score: Scale,
    /// Value-weighted sum `i32 -> i8`.
    pub attn_out: Scale,
    /// Output projection `i32 -> i8`.
    pub o: Scale,
}

#[derive(Debug, Clone, Copy, PartialEq, Eq)]
pub enum AttentionError {
    BadInputLen,
    BadOutputLen,
    BadWqLen,
    BadWkLen,
    BadWvLen,
    BadWoLen,
    HeadDimOdd,
    RopeHalfHeadDimMismatch,
    RopeSeqLenTooShort,
    BadKvHeads,
    ZeroDim,
    BadQkNormLen,
    Matmul(MatmulError),
    Rope(RopeError),
    Softmax(SoftmaxError),
}

/// Options of the QK-normed, optionally windowed attention used by the
/// Gemma and Qwen standard blocks.
#[derive(Debug, Clone, Copy)]
pub struct GemmaAttentionOpts<'a> {
    /// RMSNorm gamma (length `head_dim`) applied to every Q head before RoPE.
    pub q_norm_gamma: Option<&'a [i8]>,
    /// Same for every K head.
    pub k_norm_gamma: Option<&'a [i8]>,
    pub qk_norm_eps_q: i64,
    /// Requantization of the QK-norm `i32` output back to `i8`.
    pub qk_norm_post_scale: Scale,
    /// `Some(w)`: query `i` only sees keys `j >= i - (w - 1)` (saturating).
    pub sliding_window: Option<u32>,
}

// ---------------------------------------------------------------------
// Specification
// ---------------------------------------------------------------------

/// Banker's-rounded `raw * num / 2^15`, saturated to `i32`.
pub open spec fn scale_score_spec(raw: int, num: int) -> int {
    sat_i32(round_half_even(raw * num, SCALE_DENOM_LOG2 as nat))
}

/// Requantized projection `x @ w`.
pub open spec fn proj_spec(x: Seq<i8>, w: Seq<i8>, m: int, k: int, n: int, num: int) -> Seq<i8> {
    requant_seq(matmul_spec(x, w, m, k, n), num)
}

/// Every `head_dim`-wide head of `x` RMS-normalized with `gamma` and
/// requantized with `post`.
pub open spec fn qk_norm_spec(x: Seq<i8>, hd: int, gamma: Seq<i8>, eps: int, post: int) -> Seq<i8> {
    Seq::new(x.len(), |i: int| {
        let b = (i / hd) * hd;
        requant(rmsnorm_spec(x.subrange(b, b + hd), gamma, eps)[i - b] as int, post) as i8
    })
}

/// Optional QK norm.
pub open spec fn maybe_qk_norm(x: Seq<i8>, hd: int, gamma: Option<Seq<i8>>, eps: int, post: int) -> Seq<i8> {
    match gamma {
        Some(g) => qk_norm_spec(x, hd, g, eps, post),
        None => x,
    }
}

/// RoPE on every head of an `(m, nh, hd)` buffer; global head `g` sits at
/// position `g / nh`.
pub open spec fn rope_spec(x: Seq<i8>, nh: int, hd: int, t: RopeTables) -> Seq<i8> {
    Seq::new(x.len(), |i: int| rope_head(x, (i / hd) * hd, (i / hd) / nh, t)[i])
}

/// First key position visible from query `i`.
pub open spec fn win_lo(i: int, window: Option<u32>) -> int {
    match window {
        None => 0,
        Some(w) => {
            let w1 = if w == 0 { 0 } else { w - 1 };
            if i >= w1 { i - w1 } else { 0 }
        },
    }
}

/// Scaled scores of query slot `qo` against keys `lo .. lo + n` of kv head `kvh`.
pub open spec fn head_scores(q: Seq<i8>, k: Seq<i8>, qo: int, nkv: int, kvh: int, hd: int, lo: int, n: int, num: int) -> Seq<i32> {
    Seq::new(n as nat, |t: int| scale_score_spec(wrap_i32(dot_at(q, qo, k, ((lo + t) * nkv + kvh) * hd, hd)), num) as i32)
}

/// `sum_{t < n} p[t] * v[slot(lo + t) + d]`.
pub open spec fn vsum(p: Seq<i8>, v: Seq<i8>, nkv: int, kvh: int, hd: int, d: int, lo: int, n: int) -> int
    decreases n,
{
    if n <= 0 {
        0
    } else {
        vsum(p, v, nkv, kvh, hd, d, lo, n - 1) + (p[n - 1] as int) * (v[((lo + n - 1) * nkv + kvh) * hd + d] as int)
    }
}

/// One output entry of the attention core: query `i`, head `h`, lane `d`.
pub open spec fn core_entry(
    q: Seq<i8>, k: Seq<i8>, v: Seq<i8>, nq: int, nkv: int, hd: int, window: Option<u32>,
    score_num: int, out_num: int, table: Seq<i32>, i: int, h: int, d: int,
) -> i8 {
    let kvh = h * nkv / nq;
    let lo = win_lo(i, window);
    let n = i - lo + 1;
    let probs = softmax_spec(head_scores(q, k, (i * nq + h) * hd, nkv, kvh, hd, lo, n, score_num), table);
    requant(wrap_i32(vsum(probs, v, nkv, kvh, hd, d, lo, n)), out_num) as i8
}

/// The attention core over an `(m, nq * hd)` query buffer.
pub open spec fn core_spec(
    q: Seq<i8>, k: Seq<i8>, v: Seq<i8>, m: int, nq: int, nkv: int, hd: int, window: Option<u32>,
    score_num: int, out_num: int, table: Seq<i32>,
) -> Seq<i8> {
    Seq::new((m * nq * hd) as nat, |idx: int|
        core_entry(q, k, v, nq, nkv, hd, window, score_num, out_num, table, (idx / hd) / nq, (idx / hd) % nq, idx % hd))
}

/// The complete attention block on a well-shaped input.
pub open spec fn attention_spec(
    x: Seq<i8>, w: AttentionWeights, s: AttentionScales, t: RopeTables, table: Seq<i32>, m: int,
    qn: Option<Seq<i8>>, kn: Option<Seq<i8>>, eps: int, post: int, window: Option<u32>,
) -> Seq<i8> {
    let hidden = w.hidden as int;
    let nq = w.num_q_heads as int;
    let nkv = w.num_kv_heads as int;
    let hd = w.head_dim as int;
    let q0 = proj_spec(x, w.w_q@, m, hidden, nq * hd, s.q.num as int);
    let k0 = proj_spec(x, w.w_k@, m, hidden, nkv * hd, s.k.num as int);
    let v = proj_spec(x, w.w_v@, m, hidden, nkv * hd, s.v.num as int);
    let q = rope_spec(maybe_qk_norm(q0, hd, qn, eps, post), nq, hd, t);
    let k = rope_spec(maybe_qk_norm(k0, hd, kn, eps, post), nkv, hd, t);
    let a = core_spec(q, k, v, m, nq, nkv, hd, window, s.score.num as int, s.attn_out.num as int, table);
    proj_spec(a, w.w_o@, m, nq * hd, hidden, s.o.num as int)
}

// ---------------------------------------------------------------------
// Index arithmetic
// ---------------------------------------------------------------------

/// Slot `(t, h)` of an `(m, nh, hd)` buffer lies inside it.
pub proof fn lemma_slot(t: int, h: int, nh: int, hd: int, m: int)
    requires
        0 <= t < m,
        0 <= h < nh,
        hd >= 0,
    ensures
        0 <= t * nh + h < m * nh,
        0 <= (t * nh + h) * hd,
        (t * nh + h) * hd + hd <= m * nh * hd,
{
    assert(0 <= t * nh + h && t * nh + h + 1 <= m * nh) by (nonlinear_arith) requires 0 <= t < m, 0 <= h < nh {}
    assert((t * nh + h) * hd + hd == (t * nh + h + 1) * hd) by (nonlinear_arith) {}
    assert((t * nh + h + 1) * hd <= (m * nh) * hd) by (nonlinear_arith)
        requires t * nh + h + 1 <= m * nh, hd >= 0 {}
    assert(0 <= (t * nh + h) * hd) by (nonlinear_arith) requires 0 <= t * nh + h, hd >= 0 {}
}

/// `(i * nq + h) * hd + d` decomposes back into `(i, h, d)`.
proof fn lemma_core_index(i: int, h: int, d: int, m: int, nq: int, hd: int)
    requires
        0 <= i < m,
        0 <= h < nq,
        0 <= d < hd,
    ensures
        ((i * nq + h) * hd + d) / hd == i * nq + h,
        ((i * nq + h) * hd + d) % hd == d,
        (i * nq + h) / nq == i,
        (i * nq + h) % nq == h,
        0 <= (i * nq + h) * hd + d < m * nq * hd,
{
    lemma_row_major_index(i, h, nq, m);
    lemma_row_major_index(i * nq + h, d, hd, m * nq);
}

// ---------------------------------------------------------------------
// Executable pieces
// ---------------------------------------------------------------------

/// Banker's-rounded `raw * scale / 2^15`, saturated to `i32`.
pub fn scale_score(raw: i32, scale: Scale) -> (r: i32)
    ensures
        r == scale_score_spec(raw as int, scale.num as int),
{
    let a = raw as i64;
    let s = scale.num as i64;
    assert(-0x4000_0000_0000_0000 <= a * s <= 0x4000_0000_0000_0000) by (nonlinear_arith)
        requires
            -0x8000_0000 <= a <= 0x7fff_ffff,
            -0x8000_0000 <= s <= 0x7fff_ffff,
    {}
    let rounded = round_half_to_even_div_pow2(a * s, SCALE_DENOM_LOG2);
    if rounded < -0x8000_0000i64 {
        -0x8000_0000i32
    } else if rounded > 0x7fff_ffffi64 {
        0x7fff_ffffi32
    } else {
        rounded as i32
    }
}

/// RMS-normalize every `hd`-wide head of `x` in place.
pub fn qk_norm_heads(x: &mut [i8], hd: usize, gamma: &[i8], eps: i64, post: Scale)
    requires
        0 < hd < 0x8000_0000,
        gamma@.len() == hd,
        (old(x)@.len() as int) % (hd as int) == 0,
    ensures
        final(x)@ == qk_norm_spec(old(x)@, hd as int, gamma@, eps as int, post.num as int),
{
    let ghost orig = x@;
    let ghost spec = qk_norm_spec(orig, hd as int, gamma@, eps as int, post.num as int);
    let xlen = x.len();
    let nheads = xlen / hd;
    proof {
        vstd::arithmetic::div_mod::lemma_fundamental_div_mod(xlen as int, hd as int);
        vstd::arithmetic::mul::lemma_mul_is_commutative(hd as int, (xlen / hd) as int);
    }
    let mut acc: Vec<i32> = vec![0i32; hd];
    let mut g: usize = 0;
    while g < nheads
        invariant
            0 < hd < 0x8000_0000,
            gamma@.len() == hd,
            xlen == x@.len(),
            xlen == orig.len(),
            nheads * hd == xlen,
            g <= nheads,
            acc@.len() == hd,
            spec == qk_norm_spec(orig, hd as int, gamma@, eps as int, post.num as int),
            forall|i: int| 0 <= i < g * hd ==> x@[i] == spec[i],
            forall|i: int| g * hd <= i < xlen ==> x@[i] == orig[i],
        decreases nheads - g,
    {
        proof {
            lemma_slot(g as int, 0, 1, hd as int, nheads as int);
        }
        let base = g * hd;
        let mut head: Vec<i8> = Vec::new();
        let mut d: usize = 0;
        while d < hd
            invariant
                d <= hd,
                base + hd <= xlen,
                xlen == x@.len(),
                head@.len() == d,
                forall|t: int| 0 <= t < d ==> head@[t] == x@[base + t],
            decreases hd - d,
        {
            head.push(x[base + d]);
            d = d + 1;
        }
        proof {
            assert forall|t: int| 0 <= t < hd implies head@[t] == orig[base + t] by {}
            assert(head@ =~= orig.subrange(base as int, base + hd));
        }
        let _ = rmsnorm(head.as_slice(), gamma, acc.as_mut_slice(), eps);
        let mut d: usize = 0;
        while d < hd
            invariant
                d <= hd,
                0 < hd,
                g < nheads,
                nheads * hd == xlen,
                base == g * hd,
                base + hd <= xlen,
                xlen == x@.len(),
                xlen == orig.len(),
                acc@ == rmsnorm_spec(orig.subrange(base as int, base + hd), gamma@, eps as int),
                spec == qk_norm_spec(orig, hd as int, gamma@, eps as int, post.num as int),
                forall|i: int| 0 <= i < base + d ==> x@[i] == spec[i],
                forall|i: int| base + d <= i < xlen ==> x@[i] == orig[i],
            decreases hd - d,
        {
            proof {
                let i = base + d;
                assert(i / (hd as int) == g) by {
                    lemma_row_major_index(g as int, d as int, hd as int, nheads as int);
                }
            }
            x[base + d] = rescale_and_requantize(acc[d], post);
            d = d + 1;
        }
        proof {
            assert((g + 1) * hd == g * hd + hd) by (nonlinear_arith) {}
        }
        g = g + 1;
    }
    proof {
        assert(x@ =~= spec);
    }
}

/// RoPE in place on every head of an `(m, nh, hd)` buffer.
pub fn rope_heads(x: &mut [i8], m: usize, nh: usize, hd: usize, tables: &RopeTables)
    requires
        tables.wf(),
        hd == 2 * tables.half_head_dim,
        hd > 0,
        nh > 0,
        m <= tables.seq_len,
        old(x)@.len() == m * nh * hd,
    ensures
        final(x)@ == rope_spec(old(x)@, nh as int, hd as int, *tables),
{
    let ghost orig = x@;
    let ghost spec = rope_spec(orig, nh as int, hd as int, *tables);
    let xlen = x.len();
    proof {
        assert(m * nh * hd == (m * nh) * hd) by (nonlinear_arith) {}
        assert(m * nh <= xlen) by (nonlinear_arith) requires xlen == (m * nh) * hd, hd > 0 {}
    }
    let total = m * nh;
    let mut g: usize = 0;
    while g < total
        invariant
            tables.wf(),
            hd == 2 * tables.half_head_dim,
            hd > 0,
            nh > 0,
            m <= tables.seq_len,
            total == m * nh,
            xlen == x@.len(),
            xlen == orig.len(),
            xlen == total * hd,
            g <= total,
            spec == rope_spec(orig, nh as int, hd as int, *tables),
            forall|i: int| 0 <= i < g * hd ==> x@[i] == spec[i],
            forall|i: int| g * hd <= i < xlen ==> x@[i] == orig[i],
        decreases total - g,
    {
        proof {
            lemma_slot(g as int, 0, 1, hd as int, total as int);
            vstd::arithmetic::div_mod::lemma_fundamental_div_mod(g as int, nh as int);
            vstd::arithmetic::div_mod::lemma_div_is_ordered(g as int, total as int, nh as int);
            vstd::arithmetic::div_mod::lemma_div_multiples_vanish(m as int, nh as int);
            assert(g < nh * m) by (nonlinear_arith) requires g < total, total == m * nh {}
            vstd::arithmetic::div_mod::lemma_multiply_divide_lt(g as int, nh as int, m as int);
        }
        let base = g * hd;
        let pos = g / nh;
        let ghost before = x@;
        rope_at(x, base, pos as u32, tables);
        proof {
            assert((g + 1) * hd == g * hd + hd) by (nonlinear_arith) {}
            assert forall|i: int| 0 <= i < (g + 1) * hd implies x@[i] == spec[i] by {
                if i >= g * hd {
                    lemma_row_major_index(g as int, i - g * hd, hd as int, total as int);
                    assert(i / (hd as int) == g);
                    let h = tables.half_head_dim as int;
                    let j = (i - base) / 2;
                    assert(0 <= j < h) by (nonlinear_arith) requires 0 <= i - base < 2 * h, j == (i - base) / 2 {}
                    assert(before[base + 2 * j] == orig[base + 2 * j]);
                    assert(before[base + 2 * j + 1] == orig[base + 2 * j + 1]);
                }
            }
        }
        g = g + 1;
    }
    proof {
        assert(x@ =~= spec);
    }
}

/// First key position visible from query `i`.
pub fn win_lo_exec(i: usize, window: Option<u32>) -> (r: usize)
    ensures
        r == win_lo(i as int, window),
        r <= i,
{
    match window {
        None => 0,
        Some(w) => {
            let w1: u64 = if w == 0 { 0 } else { (w - 1) as u64 };
            if (i as u64) >= w1 {
                i - (w1 as usize)
            } else {
                0
            }
        },
    }
}

/// Key/value head read by query head `h`.
pub fn kv_head_of(h: usize, nq: usize, nkv: usize) -> (r: usize)
    requires
        h < nq,
        0 < nkv,
    ensures
        r == (h as int) * (nkv as int) / (nq as int),
        r < nkv,
{
    proof {
        assert(h * nkv < nq * nkv) by (nonlinear_arith) requires h < nq, 0 < nkv {}
        vstd::arithmetic::div_mod::lemma_multiply_divide_lt((h * nkv) as int, nq as int, nkv as int);
        assert((h as u128) * (nkv as u128) <= 0xffff_ffff_ffff_ffff_ffff_ffff_ffff_ffff) by (nonlinear_arith)
            requires h <= 0xffff_ffff_ffff_ffff, nkv <= 0xffff_ffff_ffff_ffff {}
    }
    (((h as u128) * (nkv as u128)) / (nq as u128)) as usize
}

/// `wrap_i32(sum_{t < n} p[t] * v[slot(lo + t) + d])`.
fn value_sum(p: &[i8], v: &[i8], m: usize, nkv: usize, kvh: usize, hd: usize, d: usize, lo: usize, n: usize) -> (r: i32)
    requires
        p@.len() == n,
        kvh < nkv,
        d < hd,
        lo + n <= m,
        v@.len() == m * nkv * hd,
    ensures
        r == wrap_i32(vsum(p@, v@, nkv as int, kvh as int, hd as int, d as int, lo as int, n as int)),
{
    let mut acc: i32 = 0;
    let mut t: usize = 0;
    let vlen = v.len();
    proof {
        lemma_wrap_i32_id(0);
    }
    while t < n
        invariant
            t <= n,
            p@.len() == n,
            kvh < nkv,
            d < hd,
            lo + n <= m,
            vlen == v@.len(),
            v@.len() == m * nkv * hd,
            acc == wrap_i32(vsum(p@, v@, nkv as int, kvh as int, hd as int, d as int, lo as int, t as int)),
        decreases n - t,
    {
        proof {
            lemma_slot((lo + t) as int, kvh as int, nkv as int, hd as int, m as int);
            let row = (lo + t) * nkv + kvh;
            assert(row <= row * hd) by (nonlinear_arith) requires row >= 0, hd >= 1 {}
        }
        let row = (lo + t) * nkv + kvh;
        let off = row * hd + d;
        let x = p[t] as i32;
        let y = v[off] as i32;
        assert(-16384 <= x * y <= 16384) by (nonlinear_arith)
            requires -128 <= x <= 127, -128 <= y <= 127 {}
        let prod = x * y;
        proof {
            lemma_wrapping_add_i32(acc, prod);
            lemma_wrap_i32_add(vsum(p@, v@, nkv as int, kvh as int, hd as int, d as int, lo as int, t as int), prod as int);
        }
        acc = acc.wrapping_add(prod);
        t = t + 1;
    }
    acc
}

/// Scores of query slot `qo` against keys `lo .. lo + n` of kv head `kvh`.
fn query_scores(q: &[i8], k: &[i8], m: usize, nkv: usize, kvh: usize, hd: usize, qo: usize, lo: usize, n: usize, score: Scale) -> (r: Vec<i32>)
    requires
        hd >= 1,
        qo + hd <= q@.len(),
        kvh < nkv,
        lo + n <= m,
        k@.len() == m * nkv * hd,
    ensures
        r@ == head_scores(q@, k@, qo as int, nkv as int, kvh as int, hd as int, lo as int, n as int, score.num as int),
{
    let mut r: Vec<i32> = Vec::new();
    let mut t: usize = 0;
    let klen = k.len();
    while t < n
        invariant
            hd >= 1,
            t <= n,
            qo + hd <= q@.len(),
            kvh < nkv,
            lo + n <= m,
            klen == k@.len(),
            k@.len() == m * nkv * hd,
            r@.len() == t,
            forall|u: int| 0 <= u < t ==> r@[u] == head_scores(q@, k@, qo as int, nkv as int, kvh as int, hd as int, lo as int, n as int, score.num as int)[u],
        decreases n - t,
    {
        proof {
            lemma_slot((lo + t) as int, kvh as int, nkv as int, hd as int, m as int);
            let row = (lo + t) * nkv + kvh;
            assert(row <= row * hd) by (nonlinear_arith) requires row >= 0, hd >= 1 {}
        }
        let row = (lo + t) * nkv + kvh;
        let ko = row * hd;
        let raw = dot_at_i8(q, qo, k, ko, hd);
        r.push(scale_score(raw, score));
        t = t + 1;
    }
    proof {
        assert(r@ =~= head_scores(q@, k@, qo as int, nkv as int, kvh as int, hd as int, lo as int, n as int, score.num as int));
    }
    r
}

/// The attention core: per query `i`, head `h`, softmax over the visible
/// keys and a requantized value sum for each lane.
pub fn attention_core(
    q: &[i8], k: &[i8], v: &[i8], m: usize, nq: usize, nkv: usize, hd: usize,
    window: Option<u32>, score: Scale, out_scale: Scale, lut: &ExpLut,
) -> (r: Vec<i8>)
    requires
        0 < nkv <= nq,
        0 < hd,
        q@.len() == m * nq * hd,
        k@.len() == m * nkv * hd,
        v@.len() == m * nkv * hd,
    ensures
        r@ == core_spec(q@, k@, v@, m as int, nq as int, nkv as int, hd as int, window,
            score.num as int, out_scale.num as int, lut.table@),
{
    let ghost spec = core_spec(q@, k@, v@, m as int, nq as int, nkv as int, hd as int, window,
        score.num as int, out_scale.num as int, lut.table@);
    let mut r: Vec<i8> = Vec::new();
    let qlen = q.len();
    let mut i: usize = 0;
    while i < m
        invariant
            qlen == q@.len(),
            0 < nkv <= nq,
            0 < hd,
            i <= m,
            q@.len() == m * nq * hd,
            k@.len() == m * nkv * hd,
            v@.len() == m * nkv * hd,
            spec == core_spec(q@, k@, v@, m as int, nq as int, nkv as int, hd as int, window,
                score.num as int, out_scale.num as int, lut.table@),
            r@.len() == (i * nq) * hd,
            forall|u: int| 0 <= u < r@.len() ==> r@[u] == spec[u],
        decreases m - i,
    {
        let mut h: usize = 0;
        while h < nq
            invariant
                qlen == q@.len(),
                0 < nkv <= nq,
                0 < hd,
                i < m,
                h <= nq,
                q@.len() == m * nq * hd,
                k@.len() == m * nkv * hd,
                v@.len() == m * nkv * hd,
                spec == core_spec(q@, k@, v@, m as int, nq as int, nkv as int, hd as int, window,
                    score.num as int, out_scale.num as int, lut.table@),
                r@.len() == (i * nq + h) * hd,
                forall|u: int| 0 <= u < r@.len() ==> r@[u] == spec[u],
            decreases nq - h,
        {
            proof {
                lemma_slot(i as int, h as int, nq as int, hd as int, m as int);
                let row = i * nq + h;
                assert(row <= row * hd) by (nonlinear_arith) requires row >= 0, hd >= 1 {}
                assert(m * nq <= m * nq * hd) by (nonlinear_arith) requires m * nq >= 0, hd >= 1 {}
            }
            let kvh = kv_head_of(h, nq, nkv);
            let lo = win_lo_exec(i, window);
            let n = i - lo + 1;
            let row = i * nq + h;
            let qo = row * hd;
            let scores = query_scores(q, k, m, nkv, kvh, hd, qo, lo, n, score);
            let mut probs: Vec<i8> = vec![0i8; n];
            let _ = softmax_int(scores.as_slice(), lut, probs.as_mut_slice());
            let ghost pr = softmax_spec(
                head_scores(q@, k@, qo as int, nkv as int, kvh as int, hd as int, lo as int, n as int, score.num as int),
                lut.table@);
            assert(probs@ == pr);
            let mut d: usize = 0;
            while d < hd
                invariant
                    0 < nkv <= nq,
                    0 < hd,
                    i < m,
                    h < nq,
                    d <= hd,
                    kvh == (h as int) * (nkv as int) / (nq as int),
                    kvh < nkv,
                    lo == win_lo(i as int, window),
                    lo <= i,
                    n == i - lo + 1,
                    qo == (i * nq + h) * hd,
                    probs@ == pr,
                    pr == softmax_spec(
                        head_scores(q@, k@, qo as int, nkv as int, kvh as int, hd as int, lo as int, n as int, score.num as int),
                        lut.table@),
                    q@.len() == m * nq * hd,
                    k@.len() == m * nkv * hd,
                    v@.len() == m * nkv * hd,
                    spec == core_spec(q@, k@, v@, m as int, nq as int, nkv as int, hd as int, window,
                        score.num as int, out_scale.num as int, lut.table@),
                    r@.len() == (i * nq + h) * hd + d,
                    forall|u: int| 0 <= u < r@.len() ==> r@[u] == spec[u],
                decreases hd - d,
            {
                let acc = value_sum(probs.as_slice(), v, m, nkv, kvh, hd, d, lo, n);
                let val = rescale_and_requantize(acc, out_scale);
                proof {
                    lemma_core_index(i as int, h as int, d as int, m as int, nq as int, hd as int);
                    let p = (i * nq + h) * hd + d;
                    assert(spec[p] == core_entry(q@, k@, v@, nq as int, nkv as int, hd as int, window,
                        score.num as int, out_scale.num as int, lut.table@, i as int, h as int, d as int));
                }
                r.push(val);
                d = d + 1;
            }
            proof {
                assert((i * nq + h) * hd + hd == (i * nq + (h + 1)) * hd) by (nonlinear_arith) {}
            }
            h = h + 1;
        }
        proof {
            assert(i * nq + nq == (i + 1) * nq) by (nonlinear_arith) {}
        }
        i = i + 1;
    }
    proof {
        assert(r@ =~= spec);
    }
    r
}

/// Which check of the attention forward fails first, if any. `qn` / `kn`
/// are the lengths of the optional QK-norm gammas.
pub open spec fn attention_check(
    in_len: int, out_len: int, w: AttentionWeights, t: RopeTables, m: int,
    qn: Option<int>, kn: Option<int>,
) -> Result<(), AttentionError> {
    let hidden = w.hidden as int;
    let nq = w.num_q_heads as int;
    let nkv = w.num_kv_heads as int;
    let hd = w.head_dim as int;
    if hidden == 0 || nq == 0 || hd == 0 || m == 0 {
        Err(AttentionError::ZeroDim)
    } else if nkv == 0 || nkv > nq || nq % nkv != 0 {
        Err(AttentionError::BadKvHeads)
    } else if hd % 2 != 0 {
        Err(AttentionError::HeadDimOdd)
    } else if t.half_head_dim != hd / 2 {
        Err(AttentionError::RopeHalfHeadDimMismatch)
    } else if t.seq_len < m {
        Err(AttentionError::RopeSeqLenTooShort)
    } else if in_len != m * hidden {
        Err(AttentionError::BadInputLen)
    } else if out_len != m * hidden {
        Err(AttentionError::BadOutputLen)
    } else if w.w_q@.len() != hidden * (nq * hd) {
        Err(AttentionError::BadWqLen)
    } else if w.w_k@.len() != hidden * (nkv * hd) {
        Err(AttentionError::BadWkLen)
    } else if w.w_v@.len() != hidden * (nkv * hd) {
        Err(AttentionError::BadWvLen)
    } else if w.w_o@.len() != (nq * hd) * hidden {
        Err(AttentionError::BadWoLen)
    } else if (qn is Some && qn->0 != hd) || (kn is Some && kn->0 != hd) {
        Err(AttentionError::BadQkNormLen)
    } else if hidden > 0x8000 || nq * hd > 0x8000 {
        Err(AttentionError::Matmul(MatmulError::KOutOfRange))
    } else {
        Ok(())
    }
}

/// Length of an optional gamma.
pub open spec fn opt_len(g: Option<&[i8]>) -> Option<int> {
    match g {
        Some(x) => Some(x@.len() as int),
        None => None,
    }
}

/// View of an optional gamma.
pub open spec fn opt_view(g: Option<&[i8]>) -> Option<Seq<i8>> {
    match g {
        Some(x) => Some(x@),
        None => None,
    }
}

/// `requant(x @ w)` into a fresh buffer.
pub fn project(x: &[i8], w: &[i8], m: u32, k: u32, n: u32, scale: Scale, len: usize) -> (r: Result<Vec<i8>, MatmulError>)
    requires
        len == m * n,
        x@.len() == m * k,
        w@.len() == k * n,
        m > 0,
        k > 0,
        n > 0,
    ensures
        k > 0x8000 ==> r == Err::<Vec<i8>, MatmulError>(MatmulError::KOutOfRange),
        k <= 0x8000 ==> r is Ok && r->Ok_0@ == proj_spec(x@, w@, m as int, k as int, n as int, scale.num as int),
{
    let mut out: Vec<i8> = vec![0i8; len];
    match matmul_int8_requant(x, w, m, k, n, scale, out.as_mut_slice()) {
        Ok(()) => Ok(out),
        Err(e) => Err(e),
    }
}

fn attention_impl(
    input: &[i8],
    weights: &AttentionWeights,
    scales: AttentionScales,
    rope_tables: &RopeTables,
    softmax_lut: &ExpLut,
    q_norm: Option<&[i8]>,
    k_norm: Option<&[i8]>,
    eps: i64,
    post: Scale,
    window: Option<u32>,
    m: u32,
    output: &mut [i8],
) -> (r: Result<(), AttentionError>)
    requires
        rope_tables.wf(),
        weights.num_q_heads * weights.head_dim <= u32::MAX,
        m * weights.num_q_heads * weights.head_dim <= usize::MAX,
        (q_norm is Some || k_norm is Some) ==> weights.head_dim < 0x8000_0000,
    ensures
        r == attention_check(input@.len() as int, old(output)@.len() as int, *weights, *rope_tables, m as int,
            opt_len(q_norm), opt_len(k_norm)),
        r is Ok ==> final(output)@ == attention_spec(input@, *weights, scales, *rope_tables, softmax_lut.table@,
            m as int, opt_view(q_norm), opt_view(k_norm), eps as int, post.num as int, window),
        r is Err ==> final(output)@ == old(output)@,
{
    let hidden = weights.hidden;
    let num_q = weights.num_q_heads;
    let num_kv = weights.num_kv_heads;
    let hd = weights.head_dim;
    if hidden == 0 || num_q == 0 || hd == 0 || m == 0 {
        return Err(AttentionError::ZeroDim);
    }
    if num_kv == 0 || num_kv > num_q || num_q % num_kv != 0 {
        return Err(AttentionError::BadKvHeads);
    }
    if hd % 2 != 0 {
        return Err(AttentionError::HeadDimOdd);
    }
    if rope_tables.half_head_dim != hd / 2 {
        return Err(AttentionError::RopeHalfHeadDimMismatch);
    }
    if rope_tables.seq_len < m {
        return Err(AttentionError::RopeSeqLenTooShort);
    }
    proof {
        assert(num_kv * hd <= num_q * hd) by (nonlinear_arith) requires num_kv <= num_q {}
        assert(num_kv * hd > 0) by (nonlinear_arith) requires num_kv > 0, hd > 0 {}
    }
    let q_dim: u32 = num_q * hd;
    let kv_dim: u32 = num_kv * hd;
    let m_hidden = mul_u32(m, hidden);
    if input.len() as u64 != m_hidden {
        return Err(AttentionError::BadInputLen);
    }
    if output.len() as u64 != m_hidden {
        return Err(AttentionError::BadOutputLen);
    }
    if weights.w_q.len() as u64 != mul_u32(hidden, q_dim) {
        return Err(AttentionError::BadWqLen);
    }
    if weights.w_k.len() as u64 != mul_u32(hidden, kv_dim) {
        return Err(AttentionError::BadWkLen);
    }
    if weights.w_v.len() as u64 != mul_u32(hidden, kv_dim) {
        return Err(AttentionError::BadWvLen);
    }
    if weights.w_o.len() as u64 != mul_u32(q_dim, hidden) {
        return Err(AttentionError::BadWoLen);
    }
    match q_norm {
        Some(g) => {
            if g.len() as u64 != hd as u64 {
                return Err(AttentionError::BadQkNormLen);
            }
        },
        None => {},
    }
    match k_norm {
        Some(g) => {
            if g.len() as u64 != hd as u64 {
                return Err(AttentionError::BadQkNormLen);
            }
        },
        None => {},
    }
    if hidden > 0x8000 || q_dim > 0x8000 {
        return Err(AttentionError::Matmul(MatmulError::KOutOfRange));
    }
    let mu = m as usize;
    let nqu = num_q as usize;
    let nkvu = num_kv as usize;
    let hdu = hd as usize;
    proof {
        assert(m * num_kv * hd <= m * num_q * hd) by (nonlinear_arith) requires num_kv <= num_q {}
        assert(m * (num_q * hd) == m * num_q * hd) by (nonlinear_arith) {}
        assert(m * (num_kv * hd) == m * num_kv * hd) by (nonlinear_arith) {}
        assert(m * num_q <= m * num_q * hd) by (nonlinear_arith) requires hd >= 1 {}
        assert(m * num_kv <= m * num_kv * hd) by (nonlinear_arith) requires hd >= 1 {}
    }
    let q_len = mu * nqu * hdu;
    let kv_len = mu * nkvu * hdu;
    let ghost x = input@;

    let mut q = match project(input, weights.w_q.as_slice(), m, hidden, q_dim, scales.q, q_len) {
        Ok(v) => v,
        Err(e) => {
            return Err(AttentionError::Matmul(e));
        },
    };
    let mut k = match project(input, weights.w_k.as_slice(), m, hidden, kv_dim, scales.k, kv_len) {
        Ok(v) => v,
        Err(e) => {
            return Err(AttentionError::Matmul(e));
        },
    };
    let v = match project(input, weights.w_v.as_slice(), m, hidden, kv_dim, scales.v, kv_len) {
        Ok(v) => v,
        Err(e) => {
            return Err(AttentionError::Matmul(e));
        },
    };
    let ghost q0 = q@;
    let ghost k0 = k@;
    proof {
        vstd::arithmetic::div_mod::lemma_mod_multiples_basic((mu * nqu) as int, hdu as int);
        vstd::arithmetic::div_mod::lemma_mod_multiples_basic((mu * nkvu) as int, hdu as int);
    }
    match q_norm {
        Some(g) => {
            qk_norm_heads(q.as_mut_slice(), hdu, g, eps, post);
        },
        None => {},
    }
    match k_norm {
        Some(g) => {
            qk_norm_heads(k.as_mut_slice(), hdu, g, eps, post);
        },
        None => {},
    }
    assert(q@ == maybe_qk_norm(q0, hd as int, opt_view(q_norm), eps as int, post.num as int));
    assert(k@ == maybe_qk_norm(k0, hd as int, opt_view(k_norm), eps as int, post.num as int));
    rope_heads(q.as_mut_slice(), mu, nqu, hdu, rope_tables);
    rope_heads(k.as_mut_slice(), mu, nkvu, hdu, rope_tables);
    let attn = attention_core(q.as_slice(), k.as_slice(), v.as_slice(), mu, nqu, nkvu, hdu, window,
        scales.score, scales.attn_out, softmax_lut);
    match matmul_int8_requant(attn.as_slice(), weights.w_o.as_slice(), m, q_dim, hidden, scales.o, output) {
        Ok(()) => Ok(()),
        Err(e) => Err(AttentionError::Matmul(e)),
    }
}

/// Full causal attention forward (multi-head or grouped-query) over an
/// `(m, hidden)` row-major input.
pub fn attention_forward(
    input: &[i8],
    weights: &AttentionWeights,
    scales: AttentionScales,
    rope_tables: &RopeTables,
    softmax_lut: &ExpLut,
    m: u32,
    output: &mut [i8],
) -> (r: Result<(), AttentionError>)
    requires
        rope_tables.wf(),
        weights.num_q_heads * weights.head_dim <= u32::MAX,
        m * weights.num_q_heads * weights.head_dim <= usize::MAX,
    ensures
        r == attention_check(input@.len() as int, old(output)@.len() as int, *weights, *rope_tables, m as int,
            None, None),
        r is Ok ==> final(output)@ == attention_spec(input@, *weights, scales, *rope_tables, softmax_lut.table@,
            m as int, None, None, 0, 0, None),
        r is Err ==> final(output)@ == old(output)@,
{
    let unit = Scale { num: 1 };
    attention_impl(input, weights, scales, rope_tables, softmax_lut, None, None, 0, unit, None, m, output)
}

/// Attention with per-head QK RMSNorm before RoPE and an optional
/// sliding window (Gemma and Qwen standard blocks).
pub fn attention_forward_gemma(
    input: &[i8],
    weights: &AttentionWeights,
    scales: AttentionScales,
    rope_tables: &RopeTables,
    softmax_lut: &ExpLut,
    opts: GemmaAttentionOpts,
    m: u32,
    output: &mut [i8],
) -> (r: Result<(), AttentionError>)
    requires
        rope_tables.wf(),
        weights.num_q_heads * weights.head_dim <= u32::MAX,
        m * weights.num_q_heads * weights.head_dim <= usize::MAX,
        weights.head_dim < 0x8000_0000,
    ensures
        r == attention_check(input@.len() as int, old(output)@.len() as int, *weights, *rope_tables, m as int,
            opt_len(opts.q_norm_gamma), opt_len(opts.k_norm_gamma)),
        r is Ok ==> final(output)@ == attention_spec(input@, *weights, scales, *rope_tables, softmax_lut.table@,
            m as int, opt_view(opts.q_norm_gamma), opt_view(opts.k_norm_gamma), opts.qk_norm_eps_q as int,
            opts.qk_norm_post_scale.num as int, opts.sliding_window),
        r is Err ==> final(output)@ == old(output)@,
{
    attention_impl(input, weights, scales, rope_tables, softmax_lut, opts.q_norm_gamma, opts.k_norm_gamma,
        opts.qk_norm_eps_q, opts.qk_norm_post_scale, opts.sliding_window, m, output)
}

} // verus!
