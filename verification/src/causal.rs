//! Causality of the sequence blocks: the outputs for the first `m2` tokens
//! of a run over `m` tokens are the outputs of a run over those `m2`
//! tokens alone.
use vstd::prelude::*;
use crate::activation_lut::lut_map;
use crate::attention::{proj_spec, qk_norm_spec};
use crate::matmul_int8::{dot_at, matmul_spec};
use crate::softmax::softmax_spec;
use crate::ssm::{conv_spec, conv_sum, conv_taps, ssm_check, ssm_spec, ssm_state, ssm_states, SsmOpts};
use crate::deltanet::{col_dot, deltanet_check, deltanet_spec, dn_concat, dn_next, dn_state, dn_u, lemma_dn_state_len, DeltaNetScales, DeltaNetWeights};
use crate::attention::{attention_check, attention_spec, core_entry, core_spec, head_scores, lemma_slot, maybe_qk_norm, rope_spec, vsum, win_lo, AttentionScales, AttentionWeights};
use crate::rope::{rope_head, RopeTables};

verus! {

/// `a` and `b` hold at least `n` entries and agree on the first `n`.
pub open spec fn agree(a: Seq<i8>, b: Seq<i8>, n: int) -> bool {
    &&& 0 <= n <= a.len()
    &&& n <= b.len()
    &&& forall|i: int| 0 <= i < n ==> a[i] == b[i]
}

proof fn lemma_dot_agree(a: Seq<i8>, a2: Seq<i8>, ao: int, b: Seq<i8>, bo: int, n: int)
    requires
        forall|i: int| ao <= i < ao + n ==> a[i] == a2[i],
    ensures
        dot_at(a, ao, b, bo, n) == dot_at(a2, ao, b, bo, n),
    decreases n,
{
    if n > 0 {
        lemma_dot_agree(a, a2, ao, b, bo, n - 1);
    }
}

proof fn lemma_row_of(idx: int, w: int, m2: int)
    requires
        w > 0,
        0 <= idx < m2 * w,
    ensures
        0 <= idx / w < m2,
        0 <= idx % w < w,
        (idx / w) * w + idx % w == idx,
{
    vstd::arithmetic::div_mod::lemma_fundamental_div_mod(idx, w);
    vstd::arithmetic::div_mod::lemma_mod_bound(idx, w);
    vstd::arithmetic::div_mod::lemma_div_pos_is_pos(idx, w);
    assert(idx / w < m2) by (nonlinear_arith)
        requires idx < m2 * w, w > 0, idx == w * (idx / w) + idx % w, idx % w >= 0;
    assert((idx / w) * w == w * (idx / w)) by (nonlinear_arith);
}

proof fn lemma_row_span(r: int, k: int, m2: int)
    requires
        0 <= r < m2,
        k >= 0,
    ensures
        0 <= r * k,
        r * k + k <= m2 * k,
{
    assert(0 <= r * k) by (nonlinear_arith) requires r >= 0, k >= 0;
    assert(r * k + k <= m2 * k) by (nonlinear_arith) requires r < m2, k >= 0;
}

proof fn lemma_mul_le(a: int, b: int, k: int)
    requires
        0 <= a <= b,
        k >= 0,
    ensures
        0 <= a * k <= b * k,
{
    assert(0 <= a * k <= b * k) by (nonlinear_arith) requires 0 <= a <= b, k >= 0;
}

/// Row `r` of a product reads row `r` of its left operand only.
proof fn lemma_matmul_prefix(x: Seq<i8>, x2: Seq<i8>, w: Seq<i8>, m: int, m2: int, k: int, n: int)
    requires
        0 <= m2 <= m,
        k >= 0,
        n > 0,
        forall|i: int| 0 <= i < m2 * k ==> x[i] == x2[i],
    ensures
        matmul_spec(x2, w, m2, k, n).len() == m2 * n,
        m2 * n <= matmul_spec(x, w, m, k, n).len(),
        forall|idx: int| 0 <= idx < m2 * n ==> matmul_spec(x2, w, m2, k, n)[idx] == matmul_spec(x, w, m, k, n)[idx],
{
    lemma_mul_le(m2, m, n);
    assert forall|idx: int| 0 <= idx < m2 * n implies matmul_spec(x2, w, m2, k, n)[idx] == matmul_spec(x, w, m, k, n)[idx] by {
        lemma_row_of(idx, n, m2);
        lemma_row_span(idx / n, k, m2);
        lemma_dot_agree(x, x2, (idx / n) * k, w, (idx % n) * k, k);
    }
}

proof fn lemma_proj_prefix(x: Seq<i8>, x2: Seq<i8>, w: Seq<i8>, m: int, m2: int, k: int, n: int, num: int)
    requires
        0 <= m2 <= m,
        k >= 0,
        n > 0,
        forall|i: int| 0 <= i < m2 * k ==> x[i] == x2[i],
    ensures
        proj_spec(x2, w, m2, k, n, num).len() == m2 * n,
        agree(proj_spec(x, w, m, k, n, num), proj_spec(x2, w, m2, k, n, num), m2 * n),
{
    lemma_matmul_prefix(x, x2, w, m, m2, k, n);
    lemma_mul_le(0, m2, n);
}

proof fn lemma_lut_prefix(t: Seq<i8>, a: Seq<i8>, a2: Seq<i8>, n: int)
    requires
        agree(a, a2, n),
    ensures
        agree(lut_map(t, a), lut_map(t, a2), n),
{
}

proof fn lemma_qk_norm_prefix(y: Seq<i8>, y2: Seq<i8>, hd: int, rows: int, gamma: Seq<i8>, eps: int, post: int)
    requires
        hd > 0,
        rows >= 0,
        agree(y, y2, rows * hd),
    ensures
        agree(qk_norm_spec(y, hd, gamma, eps, post), qk_norm_spec(y2, hd, gamma, eps, post), rows * hd),
{
    assert forall|i: int| 0 <= i < rows * hd implies
        qk_norm_spec(y, hd, gamma, eps, post)[i] == qk_norm_spec(y2, hd, gamma, eps, post)[i] by {
        lemma_row_of(i, hd, rows);
        let b = (i / hd) * hd;
        lemma_row_span(i / hd, hd, rows);
        assert(y.subrange(b, b + hd) =~= y2.subrange(b, b + hd));
    }
}

// ----- the SSM block -----

proof fn lemma_conv_sum_agree(x: Seq<i8>, x2: Seq<i8>, conv: Seq<i8>, hu: int, t: int, c: int, n: int)
    requires
        hu > 0,
        0 <= c < hu,
        0 <= n <= t + 1,
        forall|i: int| 0 <= i < (t + 1) * hu ==> x[i] == x2[i],
    ensures
        conv_sum(x, conv, hu, t, c, n) == conv_sum(x2, conv, hu, t, c, n),
    decreases n,
{
    if n > 0 {
        lemma_conv_sum_agree(x, x2, conv, hu, t, c, n - 1);
        let r = t - (n - 1);
        lemma_row_span(r, hu, t + 1);
    }
}

proof fn lemma_conv_prefix(x: Seq<i8>, x2: Seq<i8>, conv: Seq<i8>, m: int, m2: int, hu: int, ksz: int, qnum: int)
    requires
        0 <= m2 <= m,
        hu > 0,
        ksz > 0,
        forall|i: int| 0 <= i < m2 * hu ==> x[i] == x2[i],
    ensures
        conv_spec(x2, conv, m2, hu, ksz, qnum).len() == m2 * hu,
        agree(conv_spec(x, conv, m, hu, ksz, qnum), conv_spec(x2, conv, m2, hu, ksz, qnum), m2 * hu),
{
    lemma_mul_le(m2, m, hu);
    assert forall|idx: int| 0 <= idx < m2 * hu implies
        conv_spec(x, conv, m, hu, ksz, qnum)[idx] == conv_spec(x2, conv, m2, hu, ksz, qnum)[idx] by {
        lemma_row_of(idx, hu, m2);
        let t = idx / hu;
        lemma_row_span(t, hu, m2);
        assert forall|i: int| 0 <= i < (t + 1) * hu implies x[i] == x2[i] by {
            assert((t + 1) * hu == t * hu + hu) by (nonlinear_arith);
        }
        lemma_conv_sum_agree(x, x2, conv, hu, t, idx % hu, conv_taps(t, ksz));
    }
}

proof fn lemma_ssm_state_agree(
    xc: Seq<i8>, xc2: Seq<i8>, a: Seq<i8>, a2: Seq<i8>, b: Seq<i8>, b2: Seq<i8>, sa: Seq<i8>, sdt: Seq<i8>,
    hu: int, nv: int, hd: int, sc: DeltaNetScales, big_t: int, t: int, v: int, d: int,
)
    requires
        hu > 0,
        0 <= v < nv,
        0 <= t <= big_t,
        forall|i: int| 0 <= i < big_t * hu ==> xc[i] == xc2[i],
        forall|i: int| 0 <= i < big_t * nv ==> a[i] == a2[i],
        forall|i: int| 0 <= i < big_t * nv ==> b[i] == b2[i],
    ensures
        ssm_state(xc, a, b, sa, sdt, hu, nv, hd, sc, t, v, d) == ssm_state(xc2, a2, b2, sa, sdt, hu, nv, hd, sc, t, v, d),
    decreases t,
{
    if t > 0 {
        lemma_ssm_state_agree(xc, xc2, a, a2, b, b2, sa, sdt, hu, nv, hd, sc, big_t, t - 1, v, d);
        lemma_row_span(t - 1, nv, big_t);
        lemma_row_span(t - 1, hu, big_t);
        vstd::arithmetic::div_mod::lemma_mod_bound(v * hd + d, hu);
    }
}

proof fn lemma_ssm_states_prefix(
    xc: Seq<i8>, xc2: Seq<i8>, a: Seq<i8>, a2: Seq<i8>, b: Seq<i8>, b2: Seq<i8>, sa: Seq<i8>, sdt: Seq<i8>,
    m: int, m2: int, hu: int, nv: int, hd: int, sc: DeltaNetScales,
)
    requires
        0 <= m2 <= m,
        hu > 0,
        nv > 0,
        hd > 0,
        forall|i: int| 0 <= i < m2 * hu ==> xc[i] == xc2[i],
        forall|i: int| 0 <= i < m2 * nv ==> a[i] == a2[i],
        forall|i: int| 0 <= i < m2 * nv ==> b[i] == b2[i],
    ensures
        ssm_states(xc2, a2, b2, sa, sdt, m2, hu, nv, hd, sc).len() == m2 * (nv * hd),
        agree(ssm_states(xc, a, b, sa, sdt, m, hu, nv, hd, sc), ssm_states(xc2, a2, b2, sa, sdt, m2, hu, nv, hd, sc),
            m2 * (nv * hd)),
{
    assert(nv * hd > 0) by (nonlinear_arith) requires nv > 0, hd > 0;
    let w = nv * hd;
    lemma_mul_le(m2, m, w);
    assert forall|idx: int| 0 <= idx < m2 * w implies
        ssm_states(xc, a, b, sa, sdt, m, hu, nv, hd, sc)[idx] == ssm_states(xc2, a2, b2, sa, sdt, m2, hu, nv, hd, sc)[idx] by {
        lemma_row_of(idx, w, m2);
        let s = idx % w;
        lemma_row_of(s, hd, nv);
        lemma_ssm_state_agree(xc, xc2, a, a2, b, b2, sa, sdt, hu, nv, hd, sc, m2, idx / w + 1, s / hd, s % hd);
    }
}

/// The SSM block is causal: over the first `m2` tokens of an input it gives
/// the first `m2` rows of its output over all `m` tokens.
pub proof fn lemma_ssm_causal(x: Seq<i8>, hidden: u32, m: int, m2: int, o: SsmOpts)
    requires
        1 <= m2 <= m,
        ssm_check(x.len() as int, None, hidden as int, m, o) is Ok,
    ensures
        ssm_spec(x.take(m2 * hidden), hidden as int, m2, o) == ssm_spec(x, hidden as int, m, o).take(m2 * hidden),
{
    let hu = hidden as int;
    let x2 = x.take(m2 * hu);
    let nv = o.num_v_heads as int;
    let hd = o.head_dim as int;
    let sc = o.scales;
    lemma_mul_le(m2, m, hu);
    let xc = conv_spec(x, o.ssm_conv1d@, m, hu, o.kernel_size as int, sc.q.num as int);
    let xc2 = conv_spec(x2, o.ssm_conv1d@, m2, hu, o.kernel_size as int, sc.q.num as int);
    lemma_conv_prefix(x, x2, o.ssm_conv1d@, m, m2, hu, o.kernel_size as int, sc.q.num as int);
    let pa = proj_spec(xc, o.ssm_alpha@, m, hu, nv, sc.alpha_logit.num as int);
    let pa2 = proj_spec(xc2, o.ssm_alpha@, m2, hu, nv, sc.alpha_logit.num as int);
    lemma_proj_prefix(xc, xc2, o.ssm_alpha@, m, m2, hu, nv, sc.alpha_logit.num as int);
    let pb = proj_spec(xc, o.ssm_beta@, m, hu, nv, sc.beta_logit.num as int);
    let pb2 = proj_spec(xc2, o.ssm_beta@, m2, hu, nv, sc.beta_logit.num as int);
    lemma_proj_prefix(xc, xc2, o.ssm_beta@, m, m2, hu, nv, sc.beta_logit.num as int);
    let sig = o.sigmoid_lut.table@;
    lemma_lut_prefix(sig, pa, pa2, m2 * nv);
    lemma_lut_prefix(sig, pb, pb2, m2 * nv);
    let a = lut_map(sig, pa);
    let a2 = lut_map(sig, pa2);
    let b = lut_map(sig, pb);
    let b2 = lut_map(sig, pb2);
    lemma_ssm_states_prefix(xc, xc2, a, a2, b, b2, o.ssm_a@, o.ssm_dt@, m, m2, hu, nv, hd, sc);
    let y = ssm_states(xc, a, b, o.ssm_a@, o.ssm_dt@, m, hu, nv, hd, sc);
    let y2 = ssm_states(xc2, a2, b2, o.ssm_a@, o.ssm_dt@, m2, hu, nv, hd, sc);
    assert(m2 * (nv * hd) == (m2 * nv) * hd) by (nonlinear_arith);
    lemma_mul_le(0, m2 * nv, hd);
    lemma_qk_norm_prefix(y, y2, hd, m2 * nv, o.ssm_norm_gamma@, o.ssm_norm_eps_q as int, o.ssm_norm_post_scale.num as int);
    let z = qk_norm_spec(y, hd, o.ssm_norm_gamma@, o.ssm_norm_eps_q as int, o.ssm_norm_post_scale.num as int);
    let z2 = qk_norm_spec(y2, hd, o.ssm_norm_gamma@, o.ssm_norm_eps_q as int, o.ssm_norm_post_scale.num as int);
    assert(nv * hd > 0) by (nonlinear_arith) requires nv > 0, hd > 0;
    lemma_proj_prefix(z, z2, o.ssm_out@, m, m2, nv * hd, hu, sc.proj.num as int);
    assert(ssm_spec(x2, hu, m2, o) =~= ssm_spec(x, hu, m, o).take(m2 * hu));
}

// ----- the DeltaNet block -----

proof fn lemma_col_dot_agree(s: Seq<i8>, hv: int, d: int, x: Seq<i8>, x2: Seq<i8>, xo: int, n: int)
    requires
        forall|i: int| xo <= i < xo + n ==> x[i] == x2[i],
    ensures
        col_dot(s, hv, d, x, xo, n) == col_dot(s, hv, d, x2, xo, n),
    decreases n,
{
    if n > 0 {
        lemma_col_dot_agree(s, hv, d, x, x2, xo, n - 1);
        assert(x[xo + (n - 1)] == x2[xo + (n - 1)]);
    }
}

/// V head `h` reads QK head `h * nq / nv`, which exists.
proof fn lemma_group(h: int, nq: int, nv: int)
    requires
        0 <= h < nv,
        0 < nq,
    ensures
        0 <= h * nq / nv < nq,
{
    assert(0 <= h * nq < nv * nq) by (nonlinear_arith) requires 0 <= h < nv, 0 < nq;
    vstd::arithmetic::div_mod::lemma_multiply_divide_lt(h * nq, nv, nq);
    vstd::arithmetic::div_mod::lemma_div_pos_is_pos(h * nq, nv);
}

proof fn lemma_dn_state_agree(
    k: Seq<i8>, k2: Seq<i8>, v: Seq<i8>, v2: Seq<i8>, a: Seq<i8>, a2: Seq<i8>, b: Seq<i8>, b2: Seq<i8>,
    big_t: int, t: int, h: int, nq: int, nv: int, hq: int, hv: int, sc: DeltaNetScales,
)
    requires
        0 <= t <= big_t,
        0 <= h < nv,
        nq > 0,
        hq > 0,
        hv > 0,
        forall|i: int| 0 <= i < big_t * nq * hq ==> k[i] == k2[i],
        forall|i: int| 0 <= i < big_t * nv * hv ==> v[i] == v2[i],
        forall|i: int| 0 <= i < big_t * nq ==> a[i] == a2[i],
        forall|i: int| 0 <= i < big_t * nq ==> b[i] == b2[i],
    ensures
        dn_state(k, v, a, b, t, h, nq, nv, hq, hv, sc) == dn_state(k2, v2, a2, b2, t, h, nq, nv, hq, hv, sc),
    decreases t,
{
    if t > 0 {
        lemma_dn_state_agree(k, k2, v, v2, a, a2, b, b2, big_t, t - 1, h, nq, nv, hq, hv, sc);
        let prev = dn_state(k, v, a, b, t - 1, h, nq, nv, hq, hv, sc);
        lemma_dn_state_len(k, v, a, b, t - 1, h, nq, nv, hq, hv, sc);
        let g = h * nq / nv;
        lemma_group(h, nq, nv);
        lemma_slot(t - 1, g, nq, hq, big_t);
        lemma_slot(t - 1, h, nv, hv, big_t);
        let ko = ((t - 1) * nq + g) * hq;
        let vo = ((t - 1) * nv + h) * hv;
        let u = dn_u(prev, hq, hv, k, ko, sc.u.num as int);
        let u2 = dn_u(prev, hq, hv, k2, ko, sc.u.num as int);
        assert forall|d: int| 0 <= d < hv implies u[d] == u2[d] by {
            lemma_col_dot_agree(prev, hv, d, k, k2, ko, hq);
        }
        assert(u =~= u2);
        let n1 = dn_next(prev, hq, hv, k, ko, v, vo, a[(t - 1) * nq + g] as int, b[(t - 1) * nq + g] as int, sc);
        let n2 = dn_next(prev, hq, hv, k2, ko, v2, vo, a2[(t - 1) * nq + g] as int, b2[(t - 1) * nq + g] as int, sc);
        assert forall|idx: int| 0 <= idx < prev.len() implies n1[idx] == n2[idx] by {
            lemma_row_of(idx, hv, hq);
        }
        assert(n1 =~= n2);
    }
}

proof fn lemma_dn_concat_prefix(
    q: Seq<i8>, q2: Seq<i8>, k: Seq<i8>, k2: Seq<i8>, v: Seq<i8>, v2: Seq<i8>,
    a: Seq<i8>, a2: Seq<i8>, b: Seq<i8>, b2: Seq<i8>,
    m: int, m2: int, nq: int, nv: int, hq: int, hv: int, sc: DeltaNetScales,
)
    requires
        0 <= m2 <= m,
        nq > 0,
        nv > 0,
        hq > 0,
        hv > 0,
        forall|i: int| 0 <= i < m2 * nq * hq ==> q[i] == q2[i],
        forall|i: int| 0 <= i < m2 * nq * hq ==> k[i] == k2[i],
        forall|i: int| 0 <= i < m2 * nv * hv ==> v[i] == v2[i],
        forall|i: int| 0 <= i < m2 * nq ==> a[i] == a2[i],
        forall|i: int| 0 <= i < m2 * nq ==> b[i] == b2[i],
    ensures
        dn_concat(q2, k2, v2, a2, b2, m2, nq, nv, hq, hv, sc).len() == m2 * nv * hv,
        agree(dn_concat(q, k, v, a, b, m, nq, nv, hq, hv, sc), dn_concat(q2, k2, v2, a2, b2, m2, nq, nv, hq, hv, sc),
            m2 * nv * hv),
{
    lemma_mul_le(m2, m, nv);
    lemma_mul_le(m2 * nv, m * nv, hv);
    let c = dn_concat(q, k, v, a, b, m, nq, nv, hq, hv, sc);
    let c2 = dn_concat(q2, k2, v2, a2, b2, m2, nq, nv, hq, hv, sc);
    assert forall|idx: int| 0 <= idx < m2 * nv * hv implies c[idx] == c2[idx] by {
        lemma_row_of(idx, hv, m2 * nv);
        let gidx = idx / hv;
        lemma_row_of(gidx, nv, m2);
        let t = gidx / nv;
        let h = gidx % nv;
        let g = h * nq / nv;
        lemma_group(h, nq, nv);
        lemma_slot(t, g, nq, hq, m2);
        lemma_dn_state_agree(k, k2, v, v2, a, a2, b, b2, m2, t + 1, h, nq, nv, hq, hv, sc);
        let st = dn_state(k, v, a, b, t + 1, h, nq, nv, hq, hv, sc);
        lemma_dn_state_len(k, v, a, b, t + 1, h, nq, nv, hq, hv, sc);
        lemma_col_dot_agree(st, hv, idx % hv, q, q2, (t * nq + g) * hq, hq);
    }
}

/// The DeltaNet block is causal: its state starts at zero on every call and
/// token `t` reads tokens `0 ..= t` only, so over the first `m2` tokens of
/// an input it gives the first `m2` rows of its output over all `m` tokens.
pub proof fn lemma_deltanet_causal(x: Seq<i8>, w: DeltaNetWeights, sc: DeltaNetScales, table: Seq<i8>, m: int, m2: int)
    requires
        1 <= m2 <= m,
        deltanet_check(x.len() as int, m * w.hidden, w, m) is Ok,
    ensures
        deltanet_spec(x.take(m2 * w.hidden), w, sc, table, m2) == deltanet_spec(x, w, sc, table, m).take(m2 * w.hidden),
{
    let hu = w.hidden as int;
    let nq = w.num_qk_heads as int;
    let nv = w.num_v_heads as int;
    let hq = w.head_dim_qk as int;
    let hv = w.head_dim_v as int;
    let x2 = x.take(m2 * hu);
    lemma_mul_le(m2, m, hu);
    assert(nq * hq > 0 && nv * hv > 0) by (nonlinear_arith) requires nq > 0, hq > 0, nv > 0, hv > 0;
    assert(m2 * (nq * hq) == m2 * nq * hq && m2 * (nv * hv) == m2 * nv * hv) by (nonlinear_arith);
    let q = proj_spec(x, w.w_q@, m, hu, nq * hq, sc.q.num as int);
    let q2 = proj_spec(x2, w.w_q@, m2, hu, nq * hq, sc.q.num as int);
    lemma_proj_prefix(x, x2, w.w_q@, m, m2, hu, nq * hq, sc.q.num as int);
    let k = proj_spec(x, w.w_k@, m, hu, nq * hq, sc.k.num as int);
    let k2 = proj_spec(x2, w.w_k@, m2, hu, nq * hq, sc.k.num as int);
    lemma_proj_prefix(x, x2, w.w_k@, m, m2, hu, nq * hq, sc.k.num as int);
    let v = proj_spec(x, w.w_v@, m, hu, nv * hv, sc.v.num as int);
    let v2 = proj_spec(x2, w.w_v@, m2, hu, nv * hv, sc.v.num as int);
    lemma_proj_prefix(x, x2, w.w_v@, m, m2, hu, nv * hv, sc.v.num as int);
    let pa = proj_spec(x, w.w_alpha@, m, hu, nq, sc.alpha_logit.num as int);
    let pa2 = proj_spec(x2, w.w_alpha@, m2, hu, nq, sc.alpha_logit.num as int);
    lemma_proj_prefix(x, x2, w.w_alpha@, m, m2, hu, nq, sc.alpha_logit.num as int);
    let pb = proj_spec(x, w.w_beta@, m, hu, nq, sc.beta_logit.num as int);
    let pb2 = proj_spec(x2, w.w_beta@, m2, hu, nq, sc.beta_logit.num as int);
    lemma_proj_prefix(x, x2, w.w_beta@, m, m2, hu, nq, sc.beta_logit.num as int);
    lemma_lut_prefix(table, pa, pa2, m2 * nq);
    lemma_lut_prefix(table, pb, pb2, m2 * nq);
    let a = lut_map(table, pa);
    let a2 = lut_map(table, pa2);
    let b = lut_map(table, pb);
    let b2 = lut_map(table, pb2);
    lemma_dn_concat_prefix(q, q2, k, k2, v, v2, a, a2, b, b2, m, m2, nq, nv, hq, hv, sc);
    let c = dn_concat(q, k, v, a, b, m, nq, nv, hq, hv, sc);
    let c2 = dn_concat(q2, k2, v2, a2, b2, m2, nq, nv, hq, hv, sc);
    lemma_proj_prefix(c, c2, w.w_o@, m, m2, nv * hv, hu, sc.proj.num as int);
    assert(deltanet_spec(x2, w, sc, table, m2) =~= deltanet_spec(x, w, sc, table, m).take(m2 * hu));
}

// ----- the attention block -----

proof fn lemma_dot_agree2(a: Seq<i8>, a2: Seq<i8>, ao: int, b: Seq<i8>, b2: Seq<i8>, bo: int, n: int)
    requires
        forall|i: int| ao <= i < ao + n ==> a[i] == a2[i],
        forall|i: int| bo <= i < bo + n ==> b[i] == b2[i],
    ensures
        dot_at(a, ao, b, bo, n) == dot_at(a2, ao, b2, bo, n),
    decreases n,
{
    if n > 0 {
        lemma_dot_agree2(a, a2, ao, b, b2, bo, n - 1);
        assert(a[ao + (n - 1)] == a2[ao + (n - 1)]);
        assert(b[bo + (n - 1)] == b2[bo + (n - 1)]);
    }
}

/// RoPE rotates pairs inside one head, so it keeps agreement on whole rows.
proof fn lemma_rope_prefix(x: Seq<i8>, x2: Seq<i8>, nh: int, hd: int, t: RopeTables, rows: int)
    requires
        hd > 0,
        rows >= 0,
        2 * t.half_head_dim == hd,
        agree(x, x2, rows * hd),
    ensures
        agree(rope_spec(x, nh, hd, t), rope_spec(x2, nh, hd, t), rows * hd),
{
    assert forall|i: int| 0 <= i < rows * hd implies rope_spec(x, nh, hd, t)[i] == rope_spec(x2, nh, hd, t)[i] by {
        lemma_row_of(i, hd, rows);
        lemma_row_span(i / hd, hd, rows);
        let off = (i / hd) * hd;
        let pos = (i / hd) / nh;
        let h = t.half_head_dim as int;
        if off <= i < off + 2 * h {
            let j = (i - off) / 2;
            assert(0 <= 2 * j && 2 * j + 1 < hd);
            assert(x[off + 2 * j] == x2[off + 2 * j]);
            assert(x[off + 2 * j + 1] == x2[off + 2 * j + 1]);
        }
        assert(rope_head(x, off, pos, t)[i] == rope_head(x2, off, pos, t)[i]);
    }
}

proof fn lemma_vsum_agree(
    p: Seq<i8>, v: Seq<i8>, v2: Seq<i8>, nkv: int, kvh: int, hd: int, d: int, lo: int, n: int, rows: int,
)
    requires
        0 <= lo,
        0 <= n,
        lo + n <= rows,
        0 <= kvh < nkv,
        0 <= d < hd,
        forall|i: int| 0 <= i < rows * nkv * hd ==> v[i] == v2[i],
    ensures
        vsum(p, v, nkv, kvh, hd, d, lo, n) == vsum(p, v2, nkv, kvh, hd, d, lo, n),
    decreases n,
{
    if n > 0 {
        lemma_vsum_agree(p, v, v2, nkv, kvh, hd, d, lo, n - 1, rows);
        lemma_slot(lo + n - 1, kvh, nkv, hd, rows);
    }
}

proof fn lemma_core_prefix(
    q: Seq<i8>, q2: Seq<i8>, k: Seq<i8>, k2: Seq<i8>, v: Seq<i8>, v2: Seq<i8>,
    m: int, m2: int, nq: int, nkv: int, hd: int, window: Option<u32>, score_num: int, out_num: int, table: Seq<i32>,
)
    requires
        0 <= m2 <= m,
        nq > 0,
        nkv > 0,
        hd > 0,
        forall|i: int| 0 <= i < m2 * nq * hd ==> q[i] == q2[i],
        forall|i: int| 0 <= i < m2 * nkv * hd ==> k[i] == k2[i],
        forall|i: int| 0 <= i < m2 * nkv * hd ==> v[i] == v2[i],
    ensures
        core_spec(q2, k2, v2, m2, nq, nkv, hd, window, score_num, out_num, table).len() == m2 * nq * hd,
        agree(core_spec(q, k, v, m, nq, nkv, hd, window, score_num, out_num, table),
            core_spec(q2, k2, v2, m2, nq, nkv, hd, window, score_num, out_num, table), m2 * nq * hd),
{
    lemma_mul_le(m2, m, nq);
    lemma_mul_le(m2 * nq, m * nq, hd);
    let c = core_spec(q, k, v, m, nq, nkv, hd, window, score_num, out_num, table);
    let c2 = core_spec(q2, k2, v2, m2, nq, nkv, hd, window, score_num, out_num, table);
    assert forall|idx: int| 0 <= idx < m2 * nq * hd implies c[idx] == c2[idx] by {
        lemma_row_of(idx, hd, m2 * nq);
        lemma_row_of(idx / hd, nq, m2);
        let i = (idx / hd) / nq;
        let h = (idx / hd) % nq;
        let d = idx % hd;
        let kvh = h * nkv / nq;
        lemma_group(h, nkv, nq);
        let lo = win_lo(i, window);
        let n = i - lo + 1;
        assert(0 <= lo <= i);
        let qo = (i * nq + h) * hd;
        lemma_slot(i, h, nq, hd, m2);
        let s1 = head_scores(q, k, qo, nkv, kvh, hd, lo, n, score_num);
        let s2 = head_scores(q2, k2, qo, nkv, kvh, hd, lo, n, score_num);
        assert forall|tt: int| 0 <= tt < n implies s1[tt] == s2[tt] by {
            lemma_slot(lo + tt, kvh, nkv, hd, m2);
            lemma_dot_agree2(q, q2, qo, k, k2, ((lo + tt) * nkv + kvh) * hd, hd);
        }
        assert(s1 =~= s2);
        let probs = softmax_spec(s1, table);
        lemma_vsum_agree(probs, v, v2, nkv, kvh, hd, d, lo, n, m2);
        assert(core_entry(q, k, v, nq, nkv, hd, window, score_num, out_num, table, i, h, d)
            == core_entry(q2, k2, v2, nq, nkv, hd, window, score_num, out_num, table, i, h, d));
    }
}

/// The attention block is causal: query `i` attends to keys `j <= i` only,
/// so over the first `m2` tokens of an input it gives the first `m2` rows
/// of its output over all `m` tokens, with or without QK norm and sliding
/// window.
pub proof fn lemma_attention_causal(
    x: Seq<i8>, w: AttentionWeights, s: AttentionScales, t: RopeTables, table: Seq<i32>, m: int, m2: int,
    qn: Option<Seq<i8>>, kn: Option<Seq<i8>>, eps: int, post: int, window: Option<u32>,
)
    requires
        1 <= m2 <= m,
        attention_check(x.len() as int, m * w.hidden, w, t, m, None, None) is Ok,
    ensures
        attention_spec(x.take(m2 * w.hidden), w, s, t, table, m2, qn, kn, eps, post, window)
            == attention_spec(x, w, s, t, table, m, qn, kn, eps, post, window).take(m2 * w.hidden),
{
    let hu = w.hidden as int;
    let nq = w.num_q_heads as int;
    let nkv = w.num_kv_heads as int;
    let hd = w.head_dim as int;
    let x2 = x.take(m2 * hu);
    lemma_mul_le(m2, m, hu);
    assert(nq * hd > 0 && nkv * hd > 0) by (nonlinear_arith) requires nq > 0, nkv > 0, hd > 0;
    assert(m2 * (nq * hd) == (m2 * nq) * hd && m2 * (nkv * hd) == (m2 * nkv) * hd) by (nonlinear_arith);
    lemma_mul_le(0, m2, nq);
    lemma_mul_le(0, m2, nkv);
    let q0 = proj_spec(x, w.w_q@, m, hu, nq * hd, s.q.num as int);
    let q02 = proj_spec(x2, w.w_q@, m2, hu, nq * hd, s.q.num as int);
    lemma_proj_prefix(x, x2, w.w_q@, m, m2, hu, nq * hd, s.q.num as int);
    let k0 = proj_spec(x, w.w_k@, m, hu, nkv * hd, s.k.num as int);
    let k02 = proj_spec(x2, w.w_k@, m2, hu, nkv * hd, s.k.num as int);
    lemma_proj_prefix(x, x2, w.w_k@, m, m2, hu, nkv * hd, s.k.num as int);
    let v = proj_spec(x, w.w_v@, m, hu, nkv * hd, s.v.num as int);
    let v2 = proj_spec(x2, w.w_v@, m2, hu, nkv * hd, s.v.num as int);
    lemma_proj_prefix(x, x2, w.w_v@, m, m2, hu, nkv * hd, s.v.num as int);
    let qa = maybe_qk_norm(q0, hd, qn, eps, post);
    let qa2 = maybe_qk_norm(q02, hd, qn, eps, post);
    if let Some(g) = qn {
        lemma_qk_norm_prefix(q0, q02, hd, m2 * nq, g, eps, post);
    }
    let ka = maybe_qk_norm(k0, hd, kn, eps, post);
    let ka2 = maybe_qk_norm(k02, hd, kn, eps, post);
    if let Some(g) = kn {
        lemma_qk_norm_prefix(k0, k02, hd, m2 * nkv, g, eps, post);
    }
    lemma_rope_prefix(qa, qa2, nq, hd, t, m2 * nq);
    lemma_rope_prefix(ka, ka2, nkv, hd, t, m2 * nkv);
    let q = rope_spec(qa, nq, hd, t);
    let q2 = rope_spec(qa2, nq, hd, t);
    let k = rope_spec(ka, nkv, hd, t);
    let k2 = rope_spec(ka2, nkv, hd, t);
    lemma_core_prefix(q, q2, k, k2, v, v2, m, m2, nq, nkv, hd, window, s.score.num as int, s.attn_out.num as int, table);
    let a = core_spec(q, k, v, m, nq, nkv, hd, window, s.score.num as int, s.attn_out.num as int, table);
    let a2 = core_spec(q2, k2, v2, m2, nq, nkv, hd, window, s.score.num as int, s.attn_out.num as int, table);
    lemma_proj_prefix(a, a2, w.w_o@, m, m2, nq * hd, hu, s.o.num as int);
    assert(attention_spec(x2, w, s, t, table, m2, qn, kn, eps, post, window)
        =~= attention_spec(x, w, s, t, table, m, qn, kn, eps, post, window).take(m2 * hu));
}

} // verus!
