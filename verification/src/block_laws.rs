//! Laws of the sequence blocks stated over their inputs and results: the
//! SSM state's memory, the Gemma block's residual wiring, the grouped-query
//! head mapping of attention and the position dependence of RoPE.
use vstd::prelude::*;
use crate::arith::sat_i8;
use crate::quant::requant;
use crate::matmul_int8::lemma_row_major_index;
use crate::ssm::{ssm_state, ssm_states};
use crate::deltanet::{col_dot, dn_concat, dn_next, dn_out, dn_state, dn_u, lemma_dn_state_len, DeltaNetScales};
use crate::layer::{gemma_layer_spec, hybrid_layer_spec, hybrid_sub_spec, maybe_channelwise, norm_result, std_layer_spec, LayerContext, LayerWeights, NormSpec};
use crate::ffn::FfnScales;
use crate::deltanet::deltanet_spec;
use crate::attention::{attention_spec, core_spec, core_entry, head_scores, vsum, win_lo};
use crate::matmul_int8::dot_at;
use crate::softmax::softmax_spec;
use crate::rope::{imrope_head, rope_head, RopeTables};
use crate::ffn::ffn_spec;

verus! {

proof fn lemma_ssm_state_range(
    xc: Seq<i8>, a: Seq<i8>, b: Seq<i8>, sa: Seq<i8>, sdt: Seq<i8>, hu: int, nv: int, hd: int,
    sc: DeltaNetScales, t: int, v: int, d: int,
)
    ensures
        -128 <= ssm_state(xc, a, b, sa, sdt, hu, nv, hd, sc, t, v, d) <= 127,
{
}

/// The SSM state is a decaying memory. Lane `(v, d)` of the raw state
/// after token `t` is
/// `sat(requant(prev * sat(floor(alpha * ssm_a / 128)), decay)
///     + requant(sat(floor(beta * ssm_dt / 128)) * x_conv, update))`,
/// where `prev` is the same lane after token `t - 1` (zero before the first
/// token), `alpha` and `beta` are token `t`'s gates of V head `v` and
/// `x_conv` is token `t`'s conv output at channel `(v * hd + d) mod hidden`.
pub proof fn lemma_ssm_state_keeps_memory(
    xc: Seq<i8>, a: Seq<i8>, b: Seq<i8>, sa: Seq<i8>, sdt: Seq<i8>, m: int, hu: int, nv: int, hd: int,
    sc: DeltaNetScales, t: int, v: int, d: int,
)
    requires
        0 <= t < m,
        hu > 0,
        0 <= v < nv,
        0 <= d < hd,
    ensures
        ({
            let y = ssm_states(xc, a, b, sa, sdt, m, hu, nv, hd, sc);
            let w = nv * hd;
            let prev = if t == 0 { 0 } else { y[(t - 1) * w + v * hd + d] as int };
            let decay = sat_i8((a[t * nv + v] as int) * (sa[v] as int) / 128);
            let update = sat_i8((b[t * nv + v] as int) * (sdt[v] as int) / 128);
            &&& y.len() == m * w
            &&& y[t * w + v * hd + d] as int == sat_i8(
                requant(prev * decay, sc.decay.num as int)
                    + requant(update * (xc[t * hu + (v * hd + d) % hu] as int), sc.update.num as int))
        }),
{
    let w = nv * hd;
    lemma_row_major_index(v, d, hd, nv);
    lemma_row_major_index(t, v * hd + d, w, m);
    lemma_ssm_state_range(xc, a, b, sa, sdt, hu, nv, hd, sc, t + 1, v, d);
    lemma_ssm_state_range(xc, a, b, sa, sdt, hu, nv, hd, sc, t, v, d);
    if t > 0 {
        lemma_row_major_index(t - 1, v * hd + d, w, m);
    }
}

/// A Gemma block is two residual sublayers in sequence, the second reading
/// the stream the first leaves. With `xg` the input after the optional
/// input gate, the first residual sum is
/// `r1[i] = sat(xg[i] + post_attn_norm(attention(norm1(xg)))[i])`, and the
/// block's output is `sat(r1[i] + scale(post_ffn_norm(ffn(norm2(r1))))[i])`:
/// the FFN sublayer reads `r1`, not the block's input.
pub proof fn lemma_gemma_ffn_reads_first_residual(x: Seq<i8>, layer: LayerWeights, ctx: LayerContext, m: int, h: int)
    requires
        gemma_layer_spec(x, layer, ctx, m, h) is Ok,
    ensures
        match layer {
            LayerWeights::Gemma {
                norm1, attn, attn_scales, q_norm_gamma, k_norm_gamma, qk_norm_eps_q, qk_norm_post_scale,
                post_attn_norm, norm2, ffn, ffn_scales, post_ffn_norm, sliding_window, inp_gate, layer_output_scale,
            } => {
                let xg = maybe_channelwise(x, inp_gate, h)->Ok_0;
                let att = attention_spec(norm_result(norm1, xg, m, h)->Ok_0, attn, attn_scales, *ctx.rope_tables,
                    ctx.softmax_lut.table@, m, Some(q_norm_gamma@), Some(k_norm_gamma@), qk_norm_eps_q as int,
                    qk_norm_post_scale.num as int, sliding_window);
                let pa = norm_result(post_attn_norm, att, m, h)->Ok_0;
                let r1 = Seq::new(xg.len(), |i: int| sat_i8(xg[i] as int + pa[i] as int) as i8);
                let f = ffn_spec(norm_result(norm2, r1, m, h)->Ok_0, ffn, ctx.ffn_activation.table@, ffn_scales, m);
                let pf = maybe_channelwise(norm_result(post_ffn_norm, f, m, h)->Ok_0, layer_output_scale, h)->Ok_0;
                gemma_layer_spec(x, layer, ctx, m, h)->Ok_0 == Seq::new(r1.len(), |i: int| sat_i8(r1[i] as int + pf[i] as int) as i8)
            },
            _ => false,
        },
{
    match layer {
        LayerWeights::Gemma {
            norm1, attn, attn_scales, q_norm_gamma, k_norm_gamma, qk_norm_eps_q, qk_norm_post_scale,
            post_attn_norm, norm2, ffn, ffn_scales, post_ffn_norm, sliding_window, inp_gate, layer_output_scale,
        } => {
            let xg = maybe_channelwise(x, inp_gate, h)->Ok_0;
            let att = attention_spec(norm_result(norm1, xg, m, h)->Ok_0, attn, attn_scales, *ctx.rope_tables,
                ctx.softmax_lut.table@, m, Some(q_norm_gamma@), Some(k_norm_gamma@), qk_norm_eps_q as int,
                qk_norm_post_scale.num as int, sliding_window);
            let pa = norm_result(post_attn_norm, att, m, h)->Ok_0;
            let r1 = Seq::new(xg.len(), |i: int| sat_i8(xg[i] as int + pa[i] as int) as i8);
            assert(r1 =~= crate::layer::residual_spec(xg, pa));
            let f = ffn_spec(norm_result(norm2, r1, m, h)->Ok_0, ffn, ctx.ffn_activation.table@, ffn_scales, m);
            let pf = maybe_channelwise(norm_result(post_ffn_norm, f, m, h)->Ok_0, layer_output_scale, h)->Ok_0;
            assert(gemma_layer_spec(x, layer, ctx, m, h)->Ok_0
                =~= Seq::new(r1.len(), |i: int| sat_i8(r1[i] as int + pf[i] as int) as i8));
        },
        _ => {},
    }
}

proof fn lemma_dot_agree_both(a: Seq<i8>, a2: Seq<i8>, ao: int, b: Seq<i8>, b2: Seq<i8>, bo: int, n: int)
    requires
        forall|j: int| ao <= j < ao + n ==> a[j] == a2[j],
        forall|j: int| bo <= j < bo + n ==> b[j] == b2[j],
    ensures
        dot_at(a, ao, b, bo, n) == dot_at(a2, ao, b2, bo, n),
    decreases n,
{
    if n > 0 {
        lemma_dot_agree_both(a, a2, ao, b, b2, bo, n - 1);
        assert(a[ao + (n - 1)] == a2[ao + (n - 1)]);
        assert(b[bo + (n - 1)] == b2[bo + (n - 1)]);
    }
}

/// Entry `e` of slot `(r, g)` of an `(m, nkv, hd)` buffer lies in kv head `g`.
proof fn lemma_kv_slot(r: int, g: int, e: int, m: int, nkv: int, hd: int)
    requires
        0 <= r < m,
        0 <= g < nkv,
        0 <= e < hd,
    ensures
        0 <= (r * nkv + g) * hd + e < m * nkv * hd,
        (((r * nkv + g) * hd + e) / hd) % nkv == g,
{
    lemma_row_major_index(r, g, nkv, m);
    lemma_row_major_index(r * nkv + g, e, hd, m * nkv);
}

proof fn lemma_vsum_head_agree(
    p: Seq<i8>, v: Seq<i8>, v2: Seq<i8>, m: int, nkv: int, g: int, hd: int, d: int, lo: int, n: int,
)
    requires
        0 <= lo,
        0 <= n,
        lo + n <= m,
        0 <= g < nkv,
        0 <= d < hd,
        forall|j: int| 0 <= j < m * nkv * hd && (j / hd) % nkv == g ==> v[j] == v2[j],
    ensures
        vsum(p, v, nkv, g, hd, d, lo, n) == vsum(p, v2, nkv, g, hd, d, lo, n),
    decreases n,
{
    if n > 0 {
        lemma_vsum_head_agree(p, v, v2, m, nkv, g, hd, d, lo, n - 1);
        lemma_kv_slot(lo + n - 1, g, d, m, nkv, hd);
    }
}

/// Grouped-query attention groups query heads contiguously: the output of
/// query head `h` at token `i` is computed from that token's query of head
/// `h` and from the keys and values of kv head `h * num_kv_heads /
/// num_q_heads`, and from no other query or kv head, so replacing every
/// other query and the keys and values of every other kv head leaves it
/// unchanged.
pub proof fn lemma_attention_query_head_reads_its_group(
    q: Seq<i8>, q2: Seq<i8>, k: Seq<i8>, k2: Seq<i8>, v: Seq<i8>, v2: Seq<i8>, m: int, nq: int, nkv: int, hd: int,
    window: Option<u32>, score_num: int, out_num: int, table: Seq<i32>, i: int, h: int, d: int,
)
    requires
        0 <= i < m,
        0 <= h < nq,
        0 <= d < hd,
        0 < nkv,
        forall|j: int| (i * nq + h) * hd <= j < (i * nq + h) * hd + hd ==> q[j] == q2[j],
        forall|j: int| 0 <= j < m * nkv * hd && (j / hd) % nkv == h * nkv / nq ==> k[j] == k2[j] && v[j] == v2[j],
    ensures
        0 <= (i * nq + h) * hd + d < m * nq * hd,
        core_spec(q, k, v, m, nq, nkv, hd, window, score_num, out_num, table)[(i * nq + h) * hd + d]
            == core_spec(q2, k2, v2, m, nq, nkv, hd, window, score_num, out_num, table)[(i * nq + h) * hd + d],
{
    let idx = (i * nq + h) * hd + d;
    lemma_row_major_index(i, h, nq, m);
    lemma_row_major_index(i * nq + h, d, hd, m * nq);
    let g = h * nkv / nq;
    assert(0 <= h * nkv < nq * nkv) by (nonlinear_arith) requires 0 <= h < nq, 0 < nkv;
    vstd::arithmetic::div_mod::lemma_multiply_divide_lt(h * nkv, nq, nkv);
    vstd::arithmetic::div_mod::lemma_div_pos_is_pos(h * nkv, nq);
    let lo = win_lo(i, window);
    let n = i - lo + 1;
    assert(0 <= lo <= i);
    let qo = (i * nq + h) * hd;
    let s1 = head_scores(q, k, qo, nkv, g, hd, lo, n, score_num);
    let s2 = head_scores(q2, k2, qo, nkv, g, hd, lo, n, score_num);
    assert forall|tt: int| 0 <= tt < n implies s1[tt] == s2[tt] by {
        let bo = ((lo + tt) * nkv + g) * hd;
        assert forall|j: int| bo <= j < bo + hd implies k[j] == k2[j] by {
            lemma_kv_slot(lo + tt, g, j - bo, m, nkv, hd);
        }
        lemma_dot_agree_both(q, q2, qo, k, k2, bo, hd);
    }
    assert(s1 =~= s2);
    lemma_vsum_head_agree(softmax_spec(s1, table), v, v2, m, nkv, g, hd, d, lo, n);
    assert(core_entry(q, k, v, nq, nkv, hd, window, score_num, out_num, table, i, h, d)
        == core_entry(q2, k2, v2, nq, nkv, hd, window, score_num, out_num, table, i, h, d));
}

/// The table row RoPE uses at position `pos`: `len` entries from
/// `pos * half_head_dim`, cosines and sines.
pub open spec fn rope_row(t: RopeTables, pos: int, len: int) -> (Seq<i16>, Seq<i16>) {
    let b = pos * (t.half_head_dim as int);
    (t.cos@.subrange(b, b + len), t.sin@.subrange(b, b + len))
}

/// IMRoPE at position `pos` rotates NEOX pair `j` of a head by table entry
/// `pos * half_head_dim + j`: two calls whose tables agree on the rows of
/// their positions give the same result, whatever the other rows hold.
pub proof fn lemma_imrope_reads_its_position_row(
    x: Seq<i8>, off: int, n_rot: int, t: RopeTables, pos: int, t2: RopeTables, pos2: int,
)
    requires
        0 <= pos,
        0 <= pos2,
        0 <= n_rot,
        pos * (t.half_head_dim as int) + n_rot / 2 <= t.cos@.len(),
        pos * (t.half_head_dim as int) + n_rot / 2 <= t.sin@.len(),
        pos2 * (t2.half_head_dim as int) + n_rot / 2 <= t2.cos@.len(),
        pos2 * (t2.half_head_dim as int) + n_rot / 2 <= t2.sin@.len(),
        rope_row(t, pos, n_rot / 2) == rope_row(t2, pos2, n_rot / 2),
    ensures
        imrope_head(x, off, pos, n_rot, t) == imrope_head(x, off, pos2, n_rot, t2),
{
    let h = t.half_head_dim as int;
    let h2 = t2.half_head_dim as int;
    let half = n_rot / 2;
    assert(0 <= pos * h && 0 <= pos2 * h2) by (nonlinear_arith) requires 0 <= pos, 0 <= pos2, 0 <= h, 0 <= h2;
    let r1 = imrope_head(x, off, pos, n_rot, t);
    let r2 = imrope_head(x, off, pos2, n_rot, t2);
    assert forall|i: int| 0 <= i < x.len() implies r1[i] == r2[i] by {
        if off <= i < off + half {
            let j = i - off;
            assert(rope_row(t, pos, half).0[j] == rope_row(t2, pos2, half).0[j]);
            assert(rope_row(t, pos, half).1[j] == rope_row(t2, pos2, half).1[j]);
        } else if off + half <= i < off + 2 * half {
            let j = i - off - half;
            assert(rope_row(t, pos, half).0[j] == rope_row(t2, pos2, half).0[j]);
            assert(rope_row(t, pos, half).1[j] == rope_row(t2, pos2, half).1[j]);
        }
    }
    assert(r1 =~= r2);
}

/// RoPE at position `pos` rotates adjacent pair `j` of a head by table entry
/// `pos * half_head_dim + j`: two calls whose tables (of one half head
/// dimension) agree on the rows of their positions give the same result,
/// whatever the other rows hold.
pub proof fn lemma_rope_reads_its_position_row(x: Seq<i8>, off: int, t: RopeTables, pos: int, t2: RopeTables, pos2: int)
    requires
        0 <= pos,
        0 <= pos2,
        t.half_head_dim == t2.half_head_dim,
        (pos + 1) * (t.half_head_dim as int) <= t.cos@.len(),
        (pos + 1) * (t.half_head_dim as int) <= t.sin@.len(),
        (pos2 + 1) * (t2.half_head_dim as int) <= t2.cos@.len(),
        (pos2 + 1) * (t2.half_head_dim as int) <= t2.sin@.len(),
        rope_row(t, pos, t.half_head_dim as int) == rope_row(t2, pos2, t.half_head_dim as int),
    ensures
        rope_head(x, off, pos, t) == rope_head(x, off, pos2, t2),
{
    let h = t.half_head_dim as int;
    assert(0 <= pos * h && 0 <= pos2 * h) by (nonlinear_arith) requires 0 <= pos, 0 <= pos2, 0 <= h;
    assert((pos + 1) * h == pos * h + h && (pos2 + 1) * h == pos2 * h + h) by (nonlinear_arith);
    let r1 = rope_head(x, off, pos, t);
    let r2 = rope_head(x, off, pos2, t2);
    assert forall|i: int| 0 <= i < x.len() implies r1[i] == r2[i] by {
        if off <= i < off + 2 * h {
            let j = (i - off) / 2;
            assert(0 <= j < h);
            assert(rope_row(t, pos, h).0[j] == rope_row(t2, pos2, h).0[j]);
            assert(rope_row(t, pos, h).1[j] == rope_row(t2, pos2, h).1[j]);
        }
    }
    assert(r1 =~= r2);
}

proof fn lemma_col_dot_agree_x(s: Seq<i8>, hv: int, d: int, x: Seq<i8>, x2: Seq<i8>, xo: int, n: int)
    requires
        forall|j: int| xo <= j < xo + n ==> x[j] == x2[j],
    ensures
        col_dot(s, hv, d, x, xo, n) == col_dot(s, hv, d, x2, xo, n),
    decreases n,
{
    if n > 0 {
        lemma_col_dot_agree_x(s, hv, d, x, x2, xo, n - 1);
        assert(x[xo + (n - 1)] == x2[xo + (n - 1)]);
    }
}

/// QK head `h * nq / nv` exists.
proof fn lemma_group_bound(h: int, nq: int, nv: int)
    requires
        0 <= h < nv,
        0 < nq,
    ensures
        0 <= h * nq / nv < nq,
{
    assert(0 <= h * nq < nv * nq) by (nonlinear_arith) requires 0 <= h < nv, 0 < nq;
    vstd::arithmetic::div_mod::lemma_multiply_divide_lt(h * nq, nv, nq);
    vstd::arithmetic::div_mod::lemma_div_pos_is_pos(h * nq, nv);
}

proof fn lemma_dn_state_head_agree(
    k: Seq<i8>, k2: Seq<i8>, v: Seq<i8>, v2: Seq<i8>, a: Seq<i8>, a2: Seq<i8>, b: Seq<i8>, b2: Seq<i8>,
    m: int, t: int, h: int, nq: int, nv: int, hq: int, hv: int, sc: DeltaNetScales,
)
    requires
        0 <= t <= m,
        0 <= h < nv,
        nq > 0,
        hq > 0,
        hv > 0,
        forall|j: int| 0 <= j < m * nq * hq && (j / hq) % nq == h * nq / nv ==> k[j] == k2[j],
        forall|j: int| 0 <= j < m * nq && j % nq == h * nq / nv ==> a[j] == a2[j] && b[j] == b2[j],
        forall|j: int| 0 <= j < m * nv * hv && (j / hv) % nv == h ==> v[j] == v2[j],
    ensures
        dn_state(k, v, a, b, t, h, nq, nv, hq, hv, sc) == dn_state(k2, v2, a2, b2, t, h, nq, nv, hq, hv, sc),
    decreases t,
{
    if t > 0 {
        lemma_dn_state_head_agree(k, k2, v, v2, a, a2, b, b2, m, t - 1, h, nq, nv, hq, hv, sc);
        let prev = dn_state(k, v, a, b, t - 1, h, nq, nv, hq, hv, sc);
        lemma_dn_state_len(k, v, a, b, t - 1, h, nq, nv, hq, hv, sc);
        let g = h * nq / nv;
        lemma_group_bound(h, nq, nv);
        lemma_row_major_index(t - 1, g, nq, m);
        let ko = ((t - 1) * nq + g) * hq;
        let vo = ((t - 1) * nv + h) * hv;
        assert forall|j: int| ko <= j < ko + hq implies k[j] == k2[j] by {
            lemma_kv_slot(t - 1, g, j - ko, m, nq, hq);
        }
        assert forall|j: int| vo <= j < vo + hv implies v[j] == v2[j] by {
            lemma_kv_slot(t - 1, h, j - vo, m, nv, hv);
        }
        let u = dn_u(prev, hq, hv, k, ko, sc.u.num as int);
        let u2 = dn_u(prev, hq, hv, k2, ko, sc.u.num as int);
        assert forall|dd: int| 0 <= dd < hv implies u[dd] == u2[dd] by {
            lemma_col_dot_agree_x(prev, hv, dd, k, k2, ko, hq);
        }
        assert(u =~= u2);
        let n1 = dn_next(prev, hq, hv, k, ko, v, vo, a[(t - 1) * nq + g] as int, b[(t - 1) * nq + g] as int, sc);
        let n2 = dn_next(prev, hq, hv, k2, ko, v2, vo, a2[(t - 1) * nq + g] as int, b2[(t - 1) * nq + g] as int, sc);
        assert forall|idx: int| 0 <= idx < prev.len() implies n1[idx] == n2[idx] by {
            vstd::arithmetic::div_mod::lemma_fundamental_div_mod(idx, hv);
            vstd::arithmetic::div_mod::lemma_mod_pos_bound(idx, hv);
            vstd::arithmetic::div_mod::lemma_div_pos_is_pos(idx, hv);
            assert(idx < hv * hq) by (nonlinear_arith) requires idx < hq * hv;
            vstd::arithmetic::div_mod::lemma_multiply_divide_lt(idx, hv, hq);
        }
        assert(n1 =~= n2);
    }
}

/// DeltaNet groups V heads contiguously: the output of V head `h` at token
/// `t` is computed from the queries, keys and gates of QK head
/// `h * num_qk_heads / num_v_heads` and from the values of V head `h`, and
/// from no other head, so replacing every other head's inputs leaves it
/// unchanged.
pub proof fn lemma_deltanet_v_head_reads_its_group(
    q: Seq<i8>, q2: Seq<i8>, k: Seq<i8>, k2: Seq<i8>, v: Seq<i8>, v2: Seq<i8>,
    a: Seq<i8>, a2: Seq<i8>, b: Seq<i8>, b2: Seq<i8>,
    m: int, nq: int, nv: int, hq: int, hv: int, sc: DeltaNetScales, t: int, h: int, d: int,
)
    requires
        0 <= t < m,
        0 <= h < nv,
        0 <= d < hv,
        nq > 0,
        hq > 0,
        forall|j: int| 0 <= j < m * nq * hq && (j / hq) % nq == h * nq / nv ==> q[j] == q2[j] && k[j] == k2[j],
        forall|j: int| 0 <= j < m * nq && j % nq == h * nq / nv ==> a[j] == a2[j] && b[j] == b2[j],
        forall|j: int| 0 <= j < m * nv * hv && (j / hv) % nv == h ==> v[j] == v2[j],
    ensures
        0 <= (t * nv + h) * hv + d < m * nv * hv,
        dn_concat(q, k, v, a, b, m, nq, nv, hq, hv, sc)[(t * nv + h) * hv + d]
            == dn_concat(q2, k2, v2, a2, b2, m, nq, nv, hq, hv, sc)[(t * nv + h) * hv + d],
{
    lemma_row_major_index(t, h, nv, m);
    lemma_row_major_index(t * nv + h, d, hv, m * nv);
    let g = h * nq / nv;
    lemma_group_bound(h, nq, nv);
    lemma_dn_state_head_agree(k, k2, v, v2, a, a2, b, b2, m, t + 1, h, nq, nv, hq, hv, sc);
    let st = dn_state(k, v, a, b, t + 1, h, nq, nv, hq, hv, sc);
    let qo = (t * nq + g) * hq;
    assert forall|j: int| qo <= j < qo + hq implies q[j] == q2[j] by {
        lemma_kv_slot(t, g, j - qo, m, nq, hq);
    }
    lemma_col_dot_agree_x(st, hv, d, q, q2, qo, hq);
    assert(dn_out(st, hq, hv, q, qo, sc.o.num as int)[d] == dn_out(st, hq, hv, q2, qo, sc.o.num as int)[d]);
}

/// The first sublayer of a non-Gemma block (attention, DeltaNet, QK-normed
/// attention, or gated attention + SSM) on its `norm1`-normalized input.
pub open spec fn first_sublayer(x: Seq<i8>, layer: LayerWeights, ctx: LayerContext, m: int, h: int) -> Seq<i8> {
    match layer {
        LayerWeights::Attention { norm1, attn, attn_scales, .. } =>
            attention_spec(norm_result(norm1, x, m, h)->Ok_0, attn, attn_scales, *ctx.rope_tables,
                ctx.softmax_lut.table@, m, None, None, 0, 0, None),
        LayerWeights::DeltaNet { norm1, dnet, dnet_scales, .. } =>
            deltanet_spec(norm_result(norm1, x, m, h)->Ok_0, dnet, dnet_scales, ctx.sigmoid_lut.table@, m),
        LayerWeights::QwenStandard { norm1, attn, attn_scales, q_norm_gamma, k_norm_gamma, qk_norm_eps_q, qk_norm_post_scale, .. } =>
            attention_spec(norm_result(norm1, x, m, h)->Ok_0, attn, attn_scales, *ctx.rope_tables,
                ctx.softmax_lut.table@, m, Some(q_norm_gamma@), Some(k_norm_gamma@), qk_norm_eps_q as int,
                qk_norm_post_scale.num as int, None),
        LayerWeights::QwenHybridSsm { norm1, .. } =>
            hybrid_sub_spec(norm_result(norm1, x, m, h)->Ok_0, layer, ctx, m, h)->Ok_0,
        LayerWeights::Gemma { .. } => x,
    }
}

/// The second sublayer's weights of a block: `(norm2, ffn, ffn scales)`.
pub open spec fn second_sublayer(layer: LayerWeights) -> (NormSpec, crate::ffn::FfnWeights, FfnScales) {
    match layer {
        LayerWeights::Attention { norm2, ffn, ffn_scales, .. } => (norm2, ffn, ffn_scales),
        LayerWeights::DeltaNet { norm2, ffn, ffn_scales, .. } => (norm2, ffn, ffn_scales),
        LayerWeights::QwenStandard { norm2, ffn, ffn_scales, .. } => (norm2, ffn, ffn_scales),
        LayerWeights::QwenHybridSsm { norm2, ffn, ffn_scales, .. } => (norm2, ffn, ffn_scales),
        LayerWeights::Gemma { norm2, ffn, ffn_scales, .. } => (norm2, ffn, ffn_scales),
    }
}

/// Every non-Gemma block is two residual sublayers in sequence, the second
/// reading the stream the first leaves: with
/// `r1[i] = sat(first_sublayer(norm1(x))[i] + x[i])`, the output is
/// `sat(r1[i] + ffn(norm2(r1))[i])`; the FFN reads `r1`, not the block's
/// input.
pub proof fn lemma_block_ffn_reads_first_residual(x: Seq<i8>, layer: LayerWeights, ctx: LayerContext, m: int, h: int)
    requires
        !(layer is Gemma),
        (if layer is QwenHybridSsm { hybrid_layer_spec(x, layer, ctx, m, h) } else { std_layer_spec(x, layer, ctx, m, h) }) is Ok,
    ensures
        ({
            let sub = first_sublayer(x, layer, ctx, m, h);
            let (norm2, ffn, fs) = second_sublayer(layer);
            let r1 = Seq::new(sub.len(), |i: int| sat_i8(sub[i] as int + x[i] as int) as i8);
            let f = ffn_spec(norm_result(norm2, r1, m, h)->Ok_0, ffn, ctx.ffn_activation.table@, fs, m);
            let out = if layer is QwenHybridSsm { hybrid_layer_spec(x, layer, ctx, m, h) } else { std_layer_spec(x, layer, ctx, m, h) };
            out->Ok_0 == Seq::new(r1.len(), |i: int| sat_i8(r1[i] as int + f[i] as int) as i8)
        }),
{
    let sub = first_sublayer(x, layer, ctx, m, h);
    let (norm2, ffn, fs) = second_sublayer(layer);
    let r1 = Seq::new(sub.len(), |i: int| sat_i8(sub[i] as int + x[i] as int) as i8);
    assert(r1 =~= crate::layer::residual_spec(sub, x));
    let f = ffn_spec(norm_result(norm2, r1, m, h)->Ok_0, ffn, ctx.ffn_activation.table@, fs, m);
    let out = if layer is QwenHybridSsm { hybrid_layer_spec(x, layer, ctx, m, h) } else { std_layer_spec(x, layer, ctx, m, h) };
    assert(out->Ok_0 =~= Seq::new(r1.len(), |i: int| sat_i8(r1[i] as int + f[i] as int) as i8));
}

} // verus!
