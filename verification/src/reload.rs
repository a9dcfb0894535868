//! Reading back what was written: a model saved as a manifest and its
//! canonical weight stream is parsed back into the same model.
use vstd::prelude::*;
use crate::bytes::{le_bytes, le_signed, le_val, to_signed};
use crate::io::{i8s_of, i16s_of, psum, first_short, seg, weights_outcome, tensor_at, nlen, norm_matches, opt_matches,
    attn_matches, dnet_matches, gemma_matches, layer_matches, model_matches};
use crate::rope::{i16s_bytes, RopeTables};
use crate::comm_w::{i8s_bytes, norm_weight_bytes, layer_weight_bytes, layers_weight_bytes, canonical_bytes_spec};
use crate::activation_lut::lut_bytes;
use crate::softmax::exp_lut_bytes;
use crate::layer::{LayerWeights, NormSpec};
use crate::attention::AttentionWeights;
use crate::deltanet::DeltaNetWeights;
use crate::ffn::FfnWeights;
use crate::model::Model;
use crate::io::{norm_sizes, layer_sizes, layers_sizes, final_sizes, fixed_sizes, norm_meta_of, layer_meta_of,
    manifest_view_of, LayerMeta};

verus! {

// ----- a stream cut into pieces -----

/// Pieces laid end to end.
pub open spec fn cat(p: Seq<Seq<u8>>) -> Seq<u8>
    decreases p.len(),
{
    if p.len() == 0 { Seq::<u8>::empty() } else { cat(p.drop_last()) + p.last() }
}

/// The length of every piece.
pub open spec fn lens(p: Seq<Seq<u8>>) -> Seq<nat> {
    Seq::new(p.len(), |i: int| p[i].len())
}

proof fn lemma_cat_append(a: Seq<Seq<u8>>, b: Seq<Seq<u8>>)
    ensures
        cat(a + b) == cat(a) + cat(b),
    decreases b.len(),
{
    if b.len() == 0 {
        assert(a + b =~= a);
        assert(cat(a) + cat(b) =~= cat(a));
    } else {
        assert((a + b).drop_last() =~= a + b.drop_last());
        lemma_cat_append(a, b.drop_last());
        assert(cat(a) + cat(b.drop_last()) + b.last() =~= cat(a) + (cat(b.drop_last()) + b.last()));
    }
}

proof fn lemma_lens_append(a: Seq<Seq<u8>>, b: Seq<Seq<u8>>)
    ensures
        lens(a + b) == lens(a) + lens(b),
{
    assert(lens(a + b) =~= lens(a) + lens(b));
}

proof fn lemma_psum_lens(p: Seq<Seq<u8>>)
    ensures
        psum(lens(p)) == cat(p).len(),
    decreases p.len(),
{
    if p.len() > 0 {
        assert(lens(p).drop_last() =~= lens(p.drop_last()));
        lemma_psum_lens(p.drop_last());
    }
}

/// Segment `k` of a stream that starts with the pieces `p` is piece `k`.
proof fn lemma_seg_cat(p: Seq<Seq<u8>>, rest: Seq<u8>, k: int)
    requires
        0 <= k < p.len(),
    ensures
        seg(cat(p) + rest, lens(p), k) == p[k],
        psum(lens(p)) == cat(p).len(),
{
    lemma_psum_lens(p);
    assert(lens(p).take(k) =~= lens(p.take(k)));
    lemma_psum_lens(p.take(k));
    assert(p =~= p.take(k + 1) + p.skip(k + 1));
    lemma_cat_append(p.take(k + 1), p.skip(k + 1));
    assert(p.take(k + 1).drop_last() =~= p.take(k));
    let a = cat(p.take(k)).len() as int;
    let x = cat(p.take(k));
    let y = cat(p.skip(k + 1));
    assert(cat(p) + rest =~= x + p[k] + (y + rest));
    assert((cat(p) + rest).subrange(a, a + p[k].len()) =~= p[k]);
}

proof fn lemma_first_short_none(v: Seq<nat>, len: nat)
    requires
        psum(v) <= len,
    ensures
        first_short(v, len) is None,
    decreases v.len(),
{
    if v.len() > 0 {
        lemma_first_short_none(v.drop_last(), len);
    }
}

// ----- element encodings read back -----

proof fn lemma_i8s_round_trip(xs: Seq<i8>)
    ensures
        i8s_of(i8s_bytes(xs)) == xs,
{
    assert forall|i: int| 0 <= i < xs.len() implies #[trigger] i8s_of(i8s_bytes(xs))[i] == xs[i] by {
        let x = xs[i];
        assert(((x as u8) as i8) == x) by (bit_vector);
    }
    assert(i8s_of(i8s_bytes(xs)) =~= xs);
}

proof fn lemma_i16s_bytes(xs: Seq<i16>)
    ensures
        i16s_bytes(xs).len() == 2 * xs.len(),
        forall|i: int| 0 <= i < xs.len() ==>
            (#[trigger] i16s_bytes(xs).subrange(2 * i, 2 * i + 2)) == le_signed(xs[i] as int, 2),
    decreases xs.len(),
{
    if xs.len() > 0 {
        let d = xs.drop_last();
        lemma_i16s_bytes(d);
        let l = xs.last();
        crate::bytes::lemma_pow256_values();
        crate::bytes::lemma_signed_le_roundtrip(l as int, 2);
        assert forall|i: int| 0 <= i < xs.len() implies
            (#[trigger] i16s_bytes(xs).subrange(2 * i, 2 * i + 2)) == le_signed(xs[i] as int, 2) by {
            if i < d.len() {
                assert(i16s_bytes(xs).subrange(2 * i, 2 * i + 2) =~= i16s_bytes(d).subrange(2 * i, 2 * i + 2));
            } else {
                assert(i16s_bytes(xs).subrange(2 * i, 2 * i + 2) =~= le_signed(l as int, 2));
            }
        }
    }
}

proof fn lemma_i16s_round_trip(xs: Seq<i16>)
    ensures
        i16s_of(i16s_bytes(xs)) == xs,
        i16s_bytes(xs).len() == 2 * xs.len(),
{
    lemma_i16s_bytes(xs);
    crate::bytes::lemma_pow256_values();
    assert forall|i: int| 0 <= i < xs.len() implies #[trigger] i16s_of(i16s_bytes(xs))[i] == xs[i] by {
        assert(i16s_bytes(xs).subrange(2 * i, 2 * i + 2) == le_signed(xs[i] as int, 2));
        crate::bytes::lemma_signed_le_roundtrip(xs[i] as int, 2);
    }
    assert(i16s_of(i16s_bytes(xs)) =~= xs);
}

// ----- the pieces of a model's weight stream -----

/// Tensors of a norm, in stream order.
pub open spec fn norm_pieces(ns: NormSpec) -> Seq<Seq<u8>> {
    match ns {
        NormSpec::RmsNorm { gamma, .. } => seq![i8s_bytes(gamma@)],
        NormSpec::LayerNorm { gamma, beta, .. } => seq![i8s_bytes(gamma@), i8s_bytes(beta@)],
    }
}

/// An optional tensor.
pub open spec fn opt_pieces(x: Option<Vec<i8>>) -> Seq<Seq<u8>> {
    match x {
        Some(t) => seq![i8s_bytes(t@)],
        None => Seq::<Seq<u8>>::empty(),
    }
}

/// Tensors of a block of a kind the manifest describes, in stream order.
pub open spec fn layer_pieces(lw: LayerWeights) -> Seq<Seq<u8>> {
    match lw {
        LayerWeights::Attention { norm1, attn, norm2, ffn, .. } =>
            norm_pieces(norm1) + seq![i8s_bytes(attn.w_q@), i8s_bytes(attn.w_k@), i8s_bytes(attn.w_v@), i8s_bytes(attn.w_o@)]
                + norm_pieces(norm2) + seq![i8s_bytes(ffn.w_gate@), i8s_bytes(ffn.w_up@), i8s_bytes(ffn.w_down@)],
        LayerWeights::DeltaNet { norm1, dnet, norm2, ffn, .. } =>
            norm_pieces(norm1) + seq![i8s_bytes(dnet.w_q@), i8s_bytes(dnet.w_k@), i8s_bytes(dnet.w_v@),
                i8s_bytes(dnet.w_alpha@), i8s_bytes(dnet.w_beta@), i8s_bytes(dnet.w_o@)]
                + norm_pieces(norm2) + seq![i8s_bytes(ffn.w_gate@), i8s_bytes(ffn.w_up@), i8s_bytes(ffn.w_down@)],
        LayerWeights::Gemma {
            norm1, attn, q_norm_gamma, k_norm_gamma, post_attn_norm, norm2, ffn, post_ffn_norm, inp_gate,
            layer_output_scale, ..
        } =>
            norm_pieces(norm1) + seq![i8s_bytes(attn.w_q@), i8s_bytes(attn.w_k@), i8s_bytes(attn.w_v@),
                i8s_bytes(attn.w_o@), i8s_bytes(q_norm_gamma@), i8s_bytes(k_norm_gamma@)]
                + norm_pieces(post_attn_norm) + norm_pieces(norm2)
                + seq![i8s_bytes(ffn.w_gate@), i8s_bytes(ffn.w_up@), i8s_bytes(ffn.w_down@)]
                + norm_pieces(post_ffn_norm) + opt_pieces(inp_gate) + opt_pieces(layer_output_scale),
        _ => Seq::<Seq<u8>>::empty(),
    }
}

/// Tensors of the first `n` blocks.
pub open spec fn layers_pieces(ls: Seq<LayerWeights>, n: int) -> Seq<Seq<u8>>
    decreases n,
{
    if n <= 0 { Seq::<Seq<u8>>::empty() } else { layers_pieces(ls, n - 1) + layer_pieces(ls[n - 1]) }
}

/// Tensors of the final norm, if any.
pub open spec fn final_pieces(f: Option<NormSpec>) -> Seq<Seq<u8>> {
    match f {
        Some(n) => norm_pieces(n),
        None => Seq::<Seq<u8>>::empty(),
    }
}

/// The eight-byte header of the RoPE tables.
pub open spec fn rope_header(t: RopeTables) -> Seq<u8> {
    le_bytes(t.seq_len as nat, 4) + le_bytes(t.half_head_dim as nat, 4)
}

/// The segments of a model's weight stream up to the RoPE tables.
pub open spec fn model_pieces(m: Model) -> Seq<Seq<u8>> {
    seq![i8s_bytes(m.embed@)] + layers_pieces(m.layers@, m.layers@.len() as int) + final_pieces(m.final_norm)
        + seq![lut_bytes(m.ffn_activation.table@), lut_bytes(m.sigmoid_lut.table@), exp_lut_bytes(m.softmax_lut.table@),
            rope_header(m.rope_tables)]
}

/// A block of a kind the manifest describes.
pub open spec fn layer_kind_ok(lw: LayerWeights) -> bool {
    lw is Attention || lw is DeltaNet || lw is Gemma
}

proof fn lemma_cat_push(p: Seq<Seq<u8>>, x: Seq<u8>)
    ensures
        cat(p.push(x)) == cat(p) + x,
{
    assert(p.push(x).drop_last() =~= p);
}

proof fn lemma_cat_one(a: Seq<u8>)
    ensures
        cat(seq![a]) == a,
{
    lemma_cat_push(Seq::<Seq<u8>>::empty(), a);
    assert(seq![a] =~= Seq::<Seq<u8>>::empty().push(a));
    assert(Seq::<u8>::empty() + a =~= a);
}

proof fn lemma_cat_lit(a: Seq<u8>, b: Seq<u8>, c: Seq<u8>, d: Seq<u8>, e: Seq<u8>, f: Seq<u8>)
    ensures
        cat(seq![a, b]) == a + b,
        cat(seq![a, b, c]) == a + b + c,
        cat(seq![a, b, c, d]) == a + b + c + d,
        cat(seq![a, b, c, d, e, f]) == a + b + c + d + e + f,
{
    lemma_cat_one(a);
    lemma_cat_push(seq![a], b);
    assert(seq![a].push(b) =~= seq![a, b]);
    lemma_cat_push(seq![a, b], c);
    assert(seq![a, b].push(c) =~= seq![a, b, c]);
    lemma_cat_push(seq![a, b, c], d);
    assert(seq![a, b, c].push(d) =~= seq![a, b, c, d]);
    lemma_cat_push(seq![a, b, c, d], e);
    assert(seq![a, b, c, d].push(e) =~= seq![a, b, c, d, e]);
    lemma_cat_push(seq![a, b, c, d, e], f);
    assert(seq![a, b, c, d, e].push(f) =~= seq![a, b, c, d, e, f]);
}

proof fn lemma_norm_cat(ns: NormSpec)
    ensures
        cat(norm_pieces(ns)) == norm_weight_bytes(ns),
{
    match ns {
        NormSpec::RmsNorm { gamma, .. } => lemma_cat_one(i8s_bytes(gamma@)),
        NormSpec::LayerNorm { gamma, beta, .. } => {
            let e = Seq::<u8>::empty();
            lemma_cat_lit(i8s_bytes(gamma@), i8s_bytes(beta@), e, e, e, e);
        },
    }
}

proof fn lemma_opt_cat(x: Option<Vec<i8>>)
    ensures
        cat(opt_pieces(x)) == crate::comm_w::opt_i8s_bytes(x),
{
    match x {
        Some(t) => lemma_cat_one(i8s_bytes(t@)),
        None => {},
    }
}

proof fn lemma_attn_cat(lw: LayerWeights)
    requires
        lw is Attention,
    ensures
        cat(layer_pieces(lw)) == layer_weight_bytes(lw),
{
    let e = Seq::<u8>::empty();
    match lw {
        LayerWeights::Attention { norm1, attn, norm2, ffn, .. } => {
            let a = seq![i8s_bytes(attn.w_q@), i8s_bytes(attn.w_k@), i8s_bytes(attn.w_v@), i8s_bytes(attn.w_o@)];
            let f = seq![i8s_bytes(ffn.w_gate@), i8s_bytes(ffn.w_up@), i8s_bytes(ffn.w_down@)];
            lemma_cat_lit(i8s_bytes(attn.w_q@), i8s_bytes(attn.w_k@), i8s_bytes(attn.w_v@), i8s_bytes(attn.w_o@), e, e);
            lemma_cat_lit(i8s_bytes(ffn.w_gate@), i8s_bytes(ffn.w_up@), i8s_bytes(ffn.w_down@), e, e, e);
            lemma_norm_cat(norm1);
            lemma_norm_cat(norm2);
            lemma_cat_append(norm_pieces(norm1), a);
            lemma_cat_append(norm_pieces(norm1) + a, norm_pieces(norm2));
            lemma_cat_append(norm_pieces(norm1) + a + norm_pieces(norm2), f);
            assert(cat(layer_pieces(lw)) =~= layer_weight_bytes(lw));
        },
        _ => {},
    }
}

proof fn lemma_dnet_cat(lw: LayerWeights)
    requires
        lw is DeltaNet,
    ensures
        cat(layer_pieces(lw)) == layer_weight_bytes(lw),
{
    let e = Seq::<u8>::empty();
    match lw {
        LayerWeights::DeltaNet { norm1, dnet, norm2, ffn, .. } => {
            let a = seq![i8s_bytes(dnet.w_q@), i8s_bytes(dnet.w_k@), i8s_bytes(dnet.w_v@),
                i8s_bytes(dnet.w_alpha@), i8s_bytes(dnet.w_beta@), i8s_bytes(dnet.w_o@)];
            let f = seq![i8s_bytes(ffn.w_gate@), i8s_bytes(ffn.w_up@), i8s_bytes(ffn.w_down@)];
            lemma_cat_lit(i8s_bytes(dnet.w_q@), i8s_bytes(dnet.w_k@), i8s_bytes(dnet.w_v@),
                i8s_bytes(dnet.w_alpha@), i8s_bytes(dnet.w_beta@), i8s_bytes(dnet.w_o@));
            lemma_cat_lit(i8s_bytes(ffn.w_gate@), i8s_bytes(ffn.w_up@), i8s_bytes(ffn.w_down@), e, e, e);
            lemma_norm_cat(norm1);
            lemma_norm_cat(norm2);
            lemma_cat_append(norm_pieces(norm1), a);
            lemma_cat_append(norm_pieces(norm1) + a, norm_pieces(norm2));
            lemma_cat_append(norm_pieces(norm1) + a + norm_pieces(norm2), f);
            assert(cat(layer_pieces(lw)) =~= layer_weight_bytes(lw));
        },
        _ => {},
    }
}

proof fn lemma_gemma_cat(lw: LayerWeights)
    requires
        lw is Gemma,
    ensures
        cat(layer_pieces(lw)) == layer_weight_bytes(lw),
{
    let e = Seq::<u8>::empty();
    match lw {
        LayerWeights::Gemma {
            norm1, attn, q_norm_gamma, k_norm_gamma, post_attn_norm, norm2, ffn, post_ffn_norm, inp_gate,
            layer_output_scale, ..
        } => {
            let a = seq![i8s_bytes(attn.w_q@), i8s_bytes(attn.w_k@), i8s_bytes(attn.w_v@),
                i8s_bytes(attn.w_o@), i8s_bytes(q_norm_gamma@), i8s_bytes(k_norm_gamma@)];
            let f = seq![i8s_bytes(ffn.w_gate@), i8s_bytes(ffn.w_up@), i8s_bytes(ffn.w_down@)];
            lemma_cat_lit(i8s_bytes(attn.w_q@), i8s_bytes(attn.w_k@), i8s_bytes(attn.w_v@),
                i8s_bytes(attn.w_o@), i8s_bytes(q_norm_gamma@), i8s_bytes(k_norm_gamma@));
            lemma_cat_lit(i8s_bytes(ffn.w_gate@), i8s_bytes(ffn.w_up@), i8s_bytes(ffn.w_down@), e, e, e);
            lemma_norm_cat(norm1);
            lemma_norm_cat(post_attn_norm);
            lemma_norm_cat(norm2);
            lemma_norm_cat(post_ffn_norm);
            lemma_opt_cat(inp_gate);
            lemma_opt_cat(layer_output_scale);
            let p1 = norm_pieces(norm1) + a;
            let p2 = p1 + norm_pieces(post_attn_norm);
            let p3 = p2 + norm_pieces(norm2);
            let p4 = p3 + f;
            let p5 = p4 + norm_pieces(post_ffn_norm);
            let p6 = p5 + opt_pieces(inp_gate);
            lemma_cat_append(norm_pieces(norm1), a);
            lemma_cat_append(p1, norm_pieces(post_attn_norm));
            lemma_cat_append(p2, norm_pieces(norm2));
            lemma_cat_append(p3, f);
            lemma_cat_append(p4, norm_pieces(post_ffn_norm));
            lemma_cat_append(p5, opt_pieces(inp_gate));
            lemma_cat_append(p6, opt_pieces(layer_output_scale));
            assert(cat(layer_pieces(lw)) =~= layer_weight_bytes(lw));
        },
        _ => {},
    }
}

proof fn lemma_layer_cat(lw: LayerWeights)
    requires
        layer_kind_ok(lw),
    ensures
        cat(layer_pieces(lw)) == layer_weight_bytes(lw),
{
    match lw {
        LayerWeights::Attention { .. } => lemma_attn_cat(lw),
        LayerWeights::DeltaNet { .. } => lemma_dnet_cat(lw),
        LayerWeights::Gemma { .. } => lemma_gemma_cat(lw),
        _ => {},
    }
}

proof fn lemma_layers_cat(ls: Seq<LayerWeights>, n: int)
    requires
        n <= ls.len(),
        forall|k: int| 0 <= k < ls.len() ==> layer_kind_ok(#[trigger] ls[k]),
    ensures
        cat(layers_pieces(ls, n)) == layers_weight_bytes(ls, n),
    decreases n,
{
    if n > 0 {
        lemma_layers_cat(ls, n - 1);
        lemma_layer_cat(ls[n - 1]);
        lemma_cat_append(layers_pieces(ls, n - 1), layer_pieces(ls[n - 1]));
    }
}

/// The canonical stream is the model's pieces followed by the two RoPE tables.
proof fn lemma_canonical_cat(m: Model)
    requires
        forall|k: int| 0 <= k < m.layers@.len() ==> layer_kind_ok(#[trigger] m.layers@[k]),
    ensures
        canonical_bytes_spec(m) == cat(model_pieces(m)) + i16s_bytes(m.rope_tables.cos@) + i16s_bytes(m.rope_tables.sin@),
{
    let n = m.layers@.len() as int;
    let e = Seq::<u8>::empty();
    let a = seq![i8s_bytes(m.embed@)];
    let l = layers_pieces(m.layers@, n);
    let f = final_pieces(m.final_norm);
    let t = seq![lut_bytes(m.ffn_activation.table@), lut_bytes(m.sigmoid_lut.table@), exp_lut_bytes(m.softmax_lut.table@),
        rope_header(m.rope_tables)];
    lemma_cat_one(i8s_bytes(m.embed@));
    lemma_layers_cat(m.layers@, n);
    match m.final_norm {
        Some(x) => lemma_norm_cat(x),
        None => {},
    }
    lemma_cat_lit(lut_bytes(m.ffn_activation.table@), lut_bytes(m.sigmoid_lut.table@), exp_lut_bytes(m.softmax_lut.table@),
        rope_header(m.rope_tables), e, e);
    lemma_cat_append(a, l);
    lemma_cat_append(a + l, f);
    lemma_cat_append(a + l + f, t);
    assert(canonical_bytes_spec(m) =~= cat(model_pieces(m)) + i16s_bytes(m.rope_tables.cos@) + i16s_bytes(m.rope_tables.sin@));
}

// ----- shapes -----

/// Every tensor of a block has the length the reader computes from the
/// block's manifest entry and the hidden size `hu`.
pub open spec fn layer_shaped(lw: LayerWeights, hu: nat) -> bool {
    lens(layer_pieces(lw)) == layer_sizes(layer_meta_of(lw), hu)
}

/// Every tensor of a model has the length its shape gives: the embedding
/// `vocab * hidden`, each block's tensors as its manifest entry gives them,
/// the final norm `hidden` per tensor, each RoPE table
/// `seq_len * half_head_dim`.
pub open spec fn weights_shaped(m: Model) -> bool {
    let hu = m.dims.hidden as nat;
    &&& m.embed@.len() == m.dims.vocab * hu
    &&& forall|k: int| 0 <= k < m.layers@.len() ==> layer_shaped(#[trigger] m.layers@[k], hu)
    &&& match m.final_norm {
        Some(n) => lens(norm_pieces(n)) == norm_sizes(norm_meta_of(n), hu),
        None => true,
    }
    &&& m.rope_tables.cos@.len() == m.rope_tables.seq_len * m.rope_tables.half_head_dim
    &&& m.rope_tables.sin@.len() == m.rope_tables.seq_len * m.rope_tables.half_head_dim
}

/// Manifest entries of a list of blocks.
pub open spec fn metas_of(ls: Seq<LayerWeights>) -> Seq<LayerMeta> {
    Seq::new(ls.len(), |k: int| layer_meta_of(ls[k]))
}

proof fn lemma_layers_lens(ls: Seq<LayerWeights>, n: int, hu: nat)
    requires
        0 <= n <= ls.len(),
        forall|k: int| 0 <= k < ls.len() ==> layer_shaped(#[trigger] ls[k], hu),
    ensures
        lens(layers_pieces(ls, n)) == layers_sizes(metas_of(ls).take(n), hu),
    decreases n,
{
    let x = metas_of(ls).take(n);
    if n == 0 {
        assert(x =~= Seq::<LayerMeta>::empty());
        assert(lens(layers_pieces(ls, n)) =~= Seq::<nat>::empty());
    } else {
        lemma_layers_lens(ls, n - 1, hu);
        lemma_lens_append(layers_pieces(ls, n - 1), layer_pieces(ls[n - 1]));
        assert(x.drop_last() =~= metas_of(ls).take(n - 1));
        assert(x.last() == layer_meta_of(ls[n - 1]));
        assert(layer_shaped(ls[n - 1], hu));
    }
}

proof fn lemma_model_lens(m: Model)
    requires
        weights_shaped(m),
    ensures
        lens(model_pieces(m)) == fixed_sizes(manifest_view_of(m)),
{
    let hu = m.dims.hidden as nat;
    let n = m.layers@.len() as int;
    let a = seq![i8s_bytes(m.embed@)];
    let l = layers_pieces(m.layers@, n);
    let f = final_pieces(m.final_norm);
    let t = seq![lut_bytes(m.ffn_activation.table@), lut_bytes(m.sigmoid_lut.table@), exp_lut_bytes(m.softmax_lut.table@),
        rope_header(m.rope_tables)];
    lemma_layers_lens(m.layers@, n, hu);
    assert(metas_of(m.layers@).take(n) =~= manifest_view_of(m).layer_metas);
    lemma_lens_append(a, l);
    lemma_lens_append(a + l, f);
    lemma_lens_append(a + l + f, t);
    assert(m.ffn_activation.table@.len() == 256);
    assert(m.sigmoid_lut.table@.len() == 256);
    assert(m.softmax_lut.table@.len() == 256);
    assert(lens(a) =~= seq![m.dims.vocab as nat * hu]);
    assert(lens(t) =~= seq![256nat, 256nat, 1024nat, 8nat]);
    assert(lens(f) =~= final_sizes(manifest_view_of(m).final_norm, hu));
    assert(lens(model_pieces(m)) =~= fixed_sizes(manifest_view_of(m)));
}

// ----- the stream of a saved model -----

proof fn lemma_layer_piece_at(ls: Seq<LayerWeights>, n: int, k: int)
    requires
        0 <= k < n <= ls.len(),
    ensures
        layers_pieces(ls, k).len() + layer_pieces(ls[k]).len() <= layers_pieces(ls, n).len(),
        forall|i: int| 0 <= i < layer_pieces(ls[k]).len() ==>
            layers_pieces(ls, n)[layers_pieces(ls, k).len() + i] == #[trigger] layer_pieces(ls[k])[i],
    decreases n,
{
    if k < n - 1 {
        lemma_layer_piece_at(ls, n - 1, k);
    }
}

/// A saved model's stream is its pieces followed by the two RoPE tables,
/// and the segment table over it is the pieces' lengths.
proof fn lemma_stream(m: Model)
    requires
        weights_shaped(m),
        forall|k: int| 0 <= k < m.layers@.len() ==> layer_kind_ok(#[trigger] m.layers@[k]),
    ensures
        canonical_bytes_spec(m) == cat(model_pieces(m)) + (i16s_bytes(m.rope_tables.cos@) + i16s_bytes(m.rope_tables.sin@)),
        lens(model_pieces(m)) == fixed_sizes(manifest_view_of(m)),
        psum(fixed_sizes(manifest_view_of(m))) == cat(model_pieces(m)).len(),
        forall|j: int| 0 <= j < model_pieces(m).len() ==>
            #[trigger] seg(canonical_bytes_spec(m), fixed_sizes(manifest_view_of(m)), j) == model_pieces(m)[j],
{
    let p = model_pieces(m);
    let rest = i16s_bytes(m.rope_tables.cos@) + i16s_bytes(m.rope_tables.sin@);
    lemma_canonical_cat(m);
    lemma_model_lens(m);
    assert(canonical_bytes_spec(m) =~= cat(p) + rest);
    assert forall|j: int| 0 <= j < p.len() implies
        #[trigger] seg(canonical_bytes_spec(m), fixed_sizes(manifest_view_of(m)), j) == p[j] by {
        lemma_seg_cat(p, rest, j);
    }
    lemma_seg_cat(p, rest, 0);
}

/// A saved model's weight stream passes every check of the reader.
pub proof fn lemma_saved_weights_accepted(m: Model)
    requires
        weights_shaped(m),
        forall|k: int| 0 <= k < m.layers@.len() ==> layer_kind_ok(#[trigger] m.layers@[k]),
    ensures
        weights_outcome(manifest_view_of(m), canonical_bytes_spec(m)) == Ok::<(), crate::io::LoadError>(()),
{
    let pm = manifest_view_of(m);
    let p = model_pieces(m);
    let v = fixed_sizes(pm);
    let b = canonical_bytes_spec(m);
    let t = m.rope_tables;
    lemma_stream(m);
    lemma_i16s_round_trip(t.cos@);
    lemma_i16s_round_trip(t.sin@);
    let p0 = psum(v);
    lemma_first_short_none(v, b.len());
    let last = p.len() - 1;
    assert(seg(b, v, last) == rope_header(t));
    assert(v.take(last) =~= v.drop_last());
    assert(b.subrange(p0 - 8, p0 - 4) =~= le_bytes(t.seq_len as nat, 4));
    assert(b.subrange(p0 - 4, p0 as int) =~= le_bytes(t.half_head_dim as nat, 4));
    crate::bytes::lemma_pow256_values();
    crate::bytes::lemma_le_roundtrip(t.seq_len as nat, 4);
    crate::bytes::lemma_le_roundtrip(t.half_head_dim as nat, 4);
    assert(t.seq_len * t.half_head_dim * 2 == 2 * (t.seq_len * t.half_head_dim));
}

// ----- the reader's view of a saved model -----

/// The pieces `ps` are the segments from `o` on.
pub open spec fn pieces_at(b: Seq<u8>, v: Seq<nat>, o: int, ps: Seq<Seq<u8>>) -> bool {
    forall|i: int| 0 <= i < ps.len() ==> seg(b, v, o + i) == #[trigger] ps[i]
}

proof fn lemma_pieces_split(b: Seq<u8>, v: Seq<nat>, o: int, a: Seq<Seq<u8>>, c: Seq<Seq<u8>>)
    requires
        pieces_at(b, v, o, a + c),
    ensures
        pieces_at(b, v, o, a),
        pieces_at(b, v, o + a.len(), c),
{
    assert forall|i: int| 0 <= i < a.len() implies seg(b, v, o + i) == #[trigger] a[i] by {
        assert((a + c)[i] == a[i]);
    }
    assert forall|i: int| 0 <= i < c.len() implies seg(b, v, o + a.len() + i) == #[trigger] c[i] by {
        assert((a + c)[a.len() + i] == c[i]);
    }
}

proof fn lemma_piece_tensor(b: Seq<u8>, v: Seq<nat>, o: int, ps: Seq<Seq<u8>>, i: int, x: Seq<i8>)
    requires
        pieces_at(b, v, o, ps),
        0 <= i < ps.len(),
        ps[i] == i8s_bytes(x),
    ensures
        tensor_at(b, v, o + i) == x,
{
    lemma_i8s_round_trip(x);
}

proof fn lemma_norm_self(ns: NormSpec, b: Seq<u8>, v: Seq<nat>, o: int)
    requires
        pieces_at(b, v, o, norm_pieces(ns)),
    ensures
        norm_matches(ns, norm_meta_of(ns), b, v, o),
        norm_pieces(ns).len() == nlen(norm_meta_of(ns)),
{
    match ns {
        NormSpec::RmsNorm { gamma, .. } => {
            lemma_piece_tensor(b, v, o, norm_pieces(ns), 0, gamma@);
        },
        NormSpec::LayerNorm { gamma, beta, .. } => {
            lemma_piece_tensor(b, v, o, norm_pieces(ns), 0, gamma@);
            lemma_piece_tensor(b, v, o, norm_pieces(ns), 1, beta@);
        },
    }
}

proof fn lemma_opt_self(x: Option<Vec<i8>>, b: Seq<u8>, v: Seq<nat>, o: int)
    requires
        pieces_at(b, v, o, opt_pieces(x)),
    ensures
        opt_matches(x, x is Some, b, v, o),
        opt_pieces(x).len() == (if x is Some { 1int } else { 0int }),
{
    match x {
        Some(t) => lemma_piece_tensor(b, v, o, opt_pieces(x), 0, t@),
        None => {},
    }
}

proof fn lemma_attn_self(lw: LayerWeights, b: Seq<u8>, v: Seq<nat>, o: int)
    requires
        lw is Attention,
        layer_consistent(lw),
        pieces_at(b, v, o, layer_pieces(lw)),
    ensures
        attn_matches(lw, layer_meta_of(lw), b, v, o),
{
    match lw {
        LayerWeights::Attention { norm1, attn, norm2, ffn, .. } => {
            let a = seq![i8s_bytes(attn.w_q@), i8s_bytes(attn.w_k@), i8s_bytes(attn.w_v@), i8s_bytes(attn.w_o@)];
            let f = seq![i8s_bytes(ffn.w_gate@), i8s_bytes(ffn.w_up@), i8s_bytes(ffn.w_down@)];
            let n1 = norm_pieces(norm1);
            let n2 = norm_pieces(norm2);
            lemma_pieces_split(b, v, o, n1 + a + n2, f);
            lemma_pieces_split(b, v, o, n1 + a, n2);
            lemma_pieces_split(b, v, o, n1, a);
            lemma_norm_self(norm1, b, v, o);
            let o1 = o + n1.len();
            lemma_norm_self(norm2, b, v, o1 + 4);
            let o2 = o1 + 4 + n2.len();
            lemma_piece_tensor(b, v, o1, a, 0, attn.w_q@);
            lemma_piece_tensor(b, v, o1, a, 1, attn.w_k@);
            lemma_piece_tensor(b, v, o1, a, 2, attn.w_v@);
            lemma_piece_tensor(b, v, o1, a, 3, attn.w_o@);
            lemma_piece_tensor(b, v, o2, f, 0, ffn.w_gate@);
            lemma_piece_tensor(b, v, o2, f, 1, ffn.w_up@);
            lemma_piece_tensor(b, v, o2, f, 2, ffn.w_down@);
        },
        _ => {},
    }
}

proof fn lemma_dnet_self(lw: LayerWeights, b: Seq<u8>, v: Seq<nat>, o: int)
    requires
        lw is DeltaNet,
        layer_consistent(lw),
        pieces_at(b, v, o, layer_pieces(lw)),
    ensures
        dnet_matches(lw, layer_meta_of(lw), b, v, o),
{
    match lw {
        LayerWeights::DeltaNet { norm1, dnet, norm2, ffn, .. } => {
            let a = seq![i8s_bytes(dnet.w_q@), i8s_bytes(dnet.w_k@), i8s_bytes(dnet.w_v@),
                i8s_bytes(dnet.w_alpha@), i8s_bytes(dnet.w_beta@), i8s_bytes(dnet.w_o@)];
            let f = seq![i8s_bytes(ffn.w_gate@), i8s_bytes(ffn.w_up@), i8s_bytes(ffn.w_down@)];
            let n1 = norm_pieces(norm1);
            let n2 = norm_pieces(norm2);
            lemma_pieces_split(b, v, o, n1 + a + n2, f);
            lemma_pieces_split(b, v, o, n1 + a, n2);
            lemma_pieces_split(b, v, o, n1, a);
            lemma_norm_self(norm1, b, v, o);
            let o1 = o + n1.len();
            lemma_norm_self(norm2, b, v, o1 + 6);
            let o2 = o1 + 6 + n2.len();
            lemma_piece_tensor(b, v, o1, a, 0, dnet.w_q@);
            lemma_piece_tensor(b, v, o1, a, 1, dnet.w_k@);
            lemma_piece_tensor(b, v, o1, a, 2, dnet.w_v@);
            lemma_piece_tensor(b, v, o1, a, 3, dnet.w_alpha@);
            lemma_piece_tensor(b, v, o1, a, 4, dnet.w_beta@);
            lemma_piece_tensor(b, v, o1, a, 5, dnet.w_o@);
            lemma_piece_tensor(b, v, o2, f, 0, ffn.w_gate@);
            lemma_piece_tensor(b, v, o2, f, 1, ffn.w_up@);
            lemma_piece_tensor(b, v, o2, f, 2, ffn.w_down@);
        },
        _ => {},
    }
}

/// A block that reads back as itself: its FFN has the block's hidden size
/// (the reader builds the FFN with the block's), and its sliding window, if
/// any, is not zero (a zero window is written as "no window").
pub open spec fn layer_consistent(lw: LayerWeights) -> bool {
    match lw {
        LayerWeights::Attention { attn, ffn, .. } => ffn.hidden == attn.hidden,
        LayerWeights::DeltaNet { dnet, ffn, .. } => ffn.hidden == dnet.hidden,
        LayerWeights::Gemma { attn, ffn, sliding_window, .. } =>
            ffn.hidden == attn.hidden && sliding_window != Some(0u32),
        _ => true,
    }
}

#[verifier::spinoff_prover]
#[verifier::rlimit(40)]
proof fn lemma_gemma_self(lw: LayerWeights, b: Seq<u8>, v: Seq<nat>, o: int)
    requires
        lw is Gemma,
        layer_consistent(lw),
        pieces_at(b, v, o, layer_pieces(lw)),
    ensures
        gemma_matches(lw, layer_meta_of(lw), b, v, o),
{
    match lw {
        LayerWeights::Gemma {
            norm1, attn, q_norm_gamma, k_norm_gamma, post_attn_norm, norm2, ffn, post_ffn_norm, inp_gate,
            layer_output_scale, ..
        } => {
            let a = seq![i8s_bytes(attn.w_q@), i8s_bytes(attn.w_k@), i8s_bytes(attn.w_v@),
                i8s_bytes(attn.w_o@), i8s_bytes(q_norm_gamma@), i8s_bytes(k_norm_gamma@)];
            let f = seq![i8s_bytes(ffn.w_gate@), i8s_bytes(ffn.w_up@), i8s_bytes(ffn.w_down@)];
            let p1 = norm_pieces(norm1) + a;
            let p2 = p1 + norm_pieces(post_attn_norm);
            let p3 = p2 + norm_pieces(norm2);
            let p4 = p3 + f;
            let p5 = p4 + norm_pieces(post_ffn_norm);
            let p6 = p5 + opt_pieces(inp_gate);
            assert(layer_pieces(lw) == p6 + opt_pieces(layer_output_scale));
            lemma_pieces_split(b, v, o, p6, opt_pieces(layer_output_scale));
            lemma_pieces_split(b, v, o, p5, opt_pieces(inp_gate));
            lemma_pieces_split(b, v, o, p4, norm_pieces(post_ffn_norm));
            lemma_pieces_split(b, v, o, p3, f);
            lemma_pieces_split(b, v, o, p2, norm_pieces(norm2));
            lemma_pieces_split(b, v, o, p1, norm_pieces(post_attn_norm));
            lemma_pieces_split(b, v, o, norm_pieces(norm1), a);
            lemma_norm_self(norm1, b, v, o);
            let o1 = o + norm_pieces(norm1).len();
            lemma_piece_tensor(b, v, o1, a, 0, attn.w_q@);
            lemma_piece_tensor(b, v, o1, a, 1, attn.w_k@);
            lemma_piece_tensor(b, v, o1, a, 2, attn.w_v@);
            lemma_piece_tensor(b, v, o1, a, 3, attn.w_o@);
            lemma_piece_tensor(b, v, o1, a, 4, q_norm_gamma@);
            lemma_piece_tensor(b, v, o1, a, 5, k_norm_gamma@);
            lemma_norm_self(post_attn_norm, b, v, o1 + 6);
            lemma_norm_self(norm2, b, v, o1 + 6 + norm_pieces(post_attn_norm).len());
            let o2 = o1 + 6 + norm_pieces(post_attn_norm).len() + norm_pieces(norm2).len();
            lemma_piece_tensor(b, v, o2, f, 0, ffn.w_gate@);
            lemma_piece_tensor(b, v, o2, f, 1, ffn.w_up@);
            lemma_piece_tensor(b, v, o2, f, 2, ffn.w_down@);
            lemma_norm_self(post_ffn_norm, b, v, o2 + 3);
            let o3 = o2 + 3 + norm_pieces(post_ffn_norm).len();
            lemma_opt_self(inp_gate, b, v, o3);
            lemma_opt_self(layer_output_scale, b, v, o3 + opt_pieces(inp_gate).len());
        },
        _ => {},
    }
}

proof fn lemma_layer_self(lw: LayerWeights, b: Seq<u8>, v: Seq<nat>, o: int)
    requires
        layer_kind_ok(lw),
        layer_consistent(lw),
        pieces_at(b, v, o, layer_pieces(lw)),
    ensures
        layer_matches(lw, layer_meta_of(lw), b, v, o),
{
    reveal(layer_matches);
    match lw {
        LayerWeights::Attention { .. } => lemma_attn_self(lw, b, v, o),
        LayerWeights::DeltaNet { .. } => lemma_dnet_self(lw, b, v, o),
        LayerWeights::Gemma { .. } => lemma_gemma_self(lw, b, v, o),
        _ => {},
    }
}

/// A model whose blocks are all of kinds the manifest describes and read
/// back as themselves.
pub open spec fn layers_reloadable(m: Model) -> bool {
    forall|k: int| 0 <= k < m.layers@.len() ==> layer_kind_ok(#[trigger] m.layers@[k]) && layer_consistent(m.layers@[k])
}

proof fn lemma_blocks_self(m: Model, b: Seq<u8>, v: Seq<nat>)
    requires
        weights_shaped(m),
        layers_reloadable(m),
        pieces_at(b, v, 1, layers_pieces(m.layers@, m.layers@.len() as int)),
    ensures
        forall|k: int| 0 <= k < m.layers@.len() ==> layer_matches(#[trigger] m.layers@[k], manifest_view_of(m).layer_metas[k],
            b, v, (1 + layers_sizes(manifest_view_of(m).layer_metas.take(k), m.dims.hidden as nat).len()) as int),
{
    let ls = m.layers@;
    let n = ls.len() as int;
    let hu = m.dims.hidden as nat;
    let metas = manifest_view_of(m).layer_metas;
    assert(metas =~= metas_of(ls));
    assert forall|k: int| 0 <= k < n implies layer_matches(#[trigger] ls[k], metas[k], b, v,
        (1 + layers_sizes(metas.take(k), hu).len()) as int) by {
        lemma_layer_piece_at(ls, n, k);
        lemma_layers_lens(ls, k, hu);
        let o = (1 + layers_pieces(ls, k).len()) as int;
        let lp = layer_pieces(ls[k]);
        assert forall|i: int| 0 <= i < lp.len() implies seg(b, v, o + i) == #[trigger] lp[i] by {
            let l = layers_pieces(ls, n);
            assert(l[layers_pieces(ls, k).len() + i] == lp[i]);
        }
        lemma_layer_self(ls[k], b, v, o);
    }
}

/// What the reader builds from a saved model's stream describes the model
/// itself.
#[verifier::spinoff_prover]
#[verifier::rlimit(40)]
pub proof fn lemma_saved_model_matches(m: Model)
    requires
        weights_shaped(m),
        layers_reloadable(m),
    ensures
        model_matches(m, manifest_view_of(m), canonical_bytes_spec(m)),
{
    let pm = manifest_view_of(m);
    let p = model_pieces(m);
    let v = fixed_sizes(pm);
    let b = canonical_bytes_spec(m);
    let hu = m.dims.hidden as nat;
    let n = m.layers@.len() as int;
    let a = seq![i8s_bytes(m.embed@)];
    let l = layers_pieces(m.layers@, n);
    let f = final_pieces(m.final_norm);
    let t = seq![lut_bytes(m.ffn_activation.table@), lut_bytes(m.sigmoid_lut.table@), exp_lut_bytes(m.softmax_lut.table@),
        rope_header(m.rope_tables)];
    assert forall|k: int| 0 <= k < m.layers@.len() implies layer_kind_ok(#[trigger] m.layers@[k]) by {
        assert(layer_kind_ok(m.layers@[k]) && layer_consistent(m.layers@[k]));
    }
    lemma_stream(m);
    assert(pieces_at(b, v, 0, p)) by {
        assert forall|i: int| 0 <= i < p.len() implies seg(b, v, 0 + i) == #[trigger] p[i] by {
            assert(seg(b, v, i) == p[i]);
        }
    }
    lemma_pieces_split(b, v, 0, a + l + f, t);
    lemma_pieces_split(b, v, 0, a + l, f);
    lemma_pieces_split(b, v, 0, a, l);
    lemma_piece_tensor(b, v, 0, a, 0, m.embed@);
    lemma_blocks_self(m, b, v);
    lemma_layers_lens(m.layers@, n, hu);
    assert(metas_of(m.layers@).take(n) =~= pm.layer_metas);
    let fb = (1 + l.len()) as int;
    match m.final_norm {
        Some(x) => {
            lemma_norm_self(x, b, v, fb);
            assert(final_sizes(pm.final_norm, hu).len() == f.len());
        },
        None => {},
    }
    let tt = fb + f.len() as int;
    assert(lut_bytes(m.ffn_activation.table@) =~= i8s_bytes(m.ffn_activation.table@));
    assert(lut_bytes(m.sigmoid_lut.table@) =~= i8s_bytes(m.sigmoid_lut.table@));
    lemma_piece_tensor(b, v, tt, t, 0, m.ffn_activation.table@);
    lemma_piece_tensor(b, v, tt, t, 1, m.sigmoid_lut.table@);
    assert(seg(b, v, tt + 2) == exp_lut_bytes(m.softmax_lut.table@)) by {
        assert(t[2] == exp_lut_bytes(m.softmax_lut.table@));
    }
    crate::softmax::lemma_exp_lut_bytes_roundtrip(m.softmax_lut.table@);
    let rt = m.rope_tables;
    lemma_i16s_round_trip(rt.cos@);
    lemma_i16s_round_trip(rt.sin@);
    let p0 = psum(v);
    let nn = rt.seq_len * rt.half_head_dim * 2;
    assert(nn == 2 * (rt.seq_len * rt.half_head_dim));
    assert(b.subrange(p0 as int, p0 + nn) =~= i16s_bytes(rt.cos@));
    assert(b.subrange(p0 + nn, p0 + 2 * nn) =~= i16s_bytes(rt.sin@));
}

// ----- equal models -----

/// Two norms of one flavor with equal tensors and scalars.
pub open spec fn norm_same(x: NormSpec, y: NormSpec) -> bool {
    match x {
        NormSpec::RmsNorm { gamma, eps_q, post_scale } =>
            y matches NormSpec::RmsNorm { gamma: g, eps_q: e, post_scale: s }
                && gamma@ == g@ && eps_q == e && post_scale == s,
        NormSpec::LayerNorm { gamma, beta, eps_q, post_scale } =>
            y matches NormSpec::LayerNorm { gamma: g, beta: bb, eps_q: e, post_scale: s }
                && gamma@ == g@ && beta@ == bb@ && eps_q == e && post_scale == s,
    }
}

/// Equal attention shapes and tensors.
pub open spec fn attn_same(x: AttentionWeights, y: AttentionWeights) -> bool {
    &&& x.hidden == y.hidden && x.num_q_heads == y.num_q_heads && x.num_kv_heads == y.num_kv_heads
    &&& x.head_dim == y.head_dim
    &&& x.w_q@ == y.w_q@ && x.w_k@ == y.w_k@ && x.w_v@ == y.w_v@ && x.w_o@ == y.w_o@
}

/// Equal FFN shapes and tensors.
pub open spec fn ffn_same(x: FfnWeights, y: FfnWeights) -> bool {
    &&& x.hidden == y.hidden && x.intermediate == y.intermediate
    &&& x.w_gate@ == y.w_gate@ && x.w_up@ == y.w_up@ && x.w_down@ == y.w_down@
}

/// Equal DeltaNet shapes and tensors.
pub open spec fn dnet_same(x: DeltaNetWeights, y: DeltaNetWeights) -> bool {
    &&& x.hidden == y.hidden && x.num_qk_heads == y.num_qk_heads && x.num_v_heads == y.num_v_heads
    &&& x.head_dim_qk == y.head_dim_qk && x.head_dim_v == y.head_dim_v
    &&& x.w_q@ == y.w_q@ && x.w_k@ == y.w_k@ && x.w_v@ == y.w_v@ && x.w_alpha@ == y.w_alpha@
    &&& x.w_beta@ == y.w_beta@ && x.w_o@ == y.w_o@
}

/// Both absent, or both present and equal.
pub open spec fn opt_same(x: Option<Vec<i8>>, y: Option<Vec<i8>>) -> bool {
    match x {
        Some(a) => y matches Some(c) && a@ == c@,
        None => y is None,
    }
}

/// Two blocks of one kind the manifest describes, equal in every field.
pub open spec fn layer_same(x: LayerWeights, y: LayerWeights) -> bool {
    match x {
        LayerWeights::Attention { norm1, attn, attn_scales, norm2, ffn, ffn_scales } =>
            y matches LayerWeights::Attention { norm1: n1, attn: a, attn_scales: s, norm2: n2, ffn: f, ffn_scales: fs }
                && norm_same(norm1, n1) && attn_same(attn, a) && attn_scales == s && norm_same(norm2, n2)
                && ffn_same(ffn, f) && ffn_scales == fs,
        LayerWeights::DeltaNet { norm1, dnet, dnet_scales, norm2, ffn, ffn_scales } =>
            y matches LayerWeights::DeltaNet { norm1: n1, dnet: d, dnet_scales: s, norm2: n2, ffn: f, ffn_scales: fs }
                && norm_same(norm1, n1) && dnet_same(dnet, d) && dnet_scales == s && norm_same(norm2, n2)
                && ffn_same(ffn, f) && ffn_scales == fs,
        LayerWeights::Gemma {
            norm1, attn, attn_scales, q_norm_gamma, k_norm_gamma, qk_norm_eps_q, qk_norm_post_scale,
            post_attn_norm, norm2, ffn, ffn_scales, post_ffn_norm, sliding_window, inp_gate, layer_output_scale,
        } =>
            y matches LayerWeights::Gemma {
                norm1: n1, attn: a, attn_scales: s, q_norm_gamma: qg, k_norm_gamma: kg, qk_norm_eps_q: e,
                qk_norm_post_scale: qs, post_attn_norm: pan, norm2: n2, ffn: f, ffn_scales: fs, post_ffn_norm: pfn,
                sliding_window: sw, inp_gate: ig, layer_output_scale: los,
            }
                && norm_same(norm1, n1) && attn_same(attn, a) && attn_scales == s && q_norm_gamma@ == qg@
                && k_norm_gamma@ == kg@ && qk_norm_eps_q == e && qk_norm_post_scale == qs
                && norm_same(post_attn_norm, pan) && norm_same(norm2, n2) && ffn_same(ffn, f) && ffn_scales == fs
                && norm_same(post_ffn_norm, pfn) && sliding_window == sw && opt_same(inp_gate, ig)
                && opt_same(layer_output_scale, los),
        _ => false,
    }
}

/// Two models equal in every field: dimensions, tag, flags, every tensor,
/// every block, the final norm, the RoPE tables and the three LUTs.
pub open spec fn model_same(x: Model, y: Model) -> bool {
    &&& x.dims == y.dims && x.arch_tag@ == y.arch_tag@ && x.feature_flags == y.feature_flags
    &&& x.embed@ == y.embed@
    &&& x.layers@.len() == y.layers@.len()
    &&& forall|k: int| 0 <= k < x.layers@.len() ==> layer_same(#[trigger] x.layers@[k], y.layers@[k])
    &&& match x.final_norm {
        Some(a) => y.final_norm matches Some(c) && norm_same(a, c),
        None => y.final_norm is None,
    }
    &&& x.rope_tables.seq_len == y.rope_tables.seq_len && x.rope_tables.half_head_dim == y.rope_tables.half_head_dim
    &&& x.rope_tables.cos@ == y.rope_tables.cos@ && x.rope_tables.sin@ == y.rope_tables.sin@
    &&& x.softmax_lut.table@ == y.softmax_lut.table@
    &&& x.sigmoid_lut.kind == y.sigmoid_lut.kind && x.sigmoid_lut.table@ == y.sigmoid_lut.table@
    &&& x.ffn_activation.kind == y.ffn_activation.kind && x.ffn_activation.table@ == y.ffn_activation.table@
}

proof fn lemma_norm_unique(x: NormSpec, y: NormSpec, nm: crate::io::NormMeta, b: Seq<u8>, v: Seq<nat>, o: int)
    requires
        norm_matches(x, nm, b, v, o),
        norm_matches(y, nm, b, v, o),
    ensures
        norm_same(x, y),
{
}

proof fn lemma_layer_unique(x: LayerWeights, y: LayerWeights, lm: LayerMeta, b: Seq<u8>, v: Seq<nat>, o: int)
    requires
        layer_matches(x, lm, b, v, o),
        layer_matches(y, lm, b, v, o),
    ensures
        layer_same(x, y),
{
    reveal(layer_matches);
    match lm {
        LayerMeta::Attention { norm1, norm2, .. } => {
            match (x, y) {
                (LayerWeights::Attention { norm1: a1, norm2: a2, .. }, LayerWeights::Attention { norm1: c1, norm2: c2, .. }) => {
                    lemma_norm_unique(a1, c1, norm1, b, v, o);
                    lemma_norm_unique(a2, c2, norm2, b, v, o + nlen(norm1) + 4);
                },
                _ => {},
            }
        },
        LayerMeta::DeltaNet { norm1, norm2, .. } => {
            match (x, y) {
                (LayerWeights::DeltaNet { norm1: a1, norm2: a2, .. }, LayerWeights::DeltaNet { norm1: c1, norm2: c2, .. }) => {
                    lemma_norm_unique(a1, c1, norm1, b, v, o);
                    lemma_norm_unique(a2, c2, norm2, b, v, o + nlen(norm1) + 6);
                },
                _ => {},
            }
        },
        LayerMeta::Gemma { norm1, post_attn_norm, norm2, post_ffn_norm, .. } => {
            match (x, y) {
                (LayerWeights::Gemma { norm1: a1, post_attn_norm: a2, norm2: a3, post_ffn_norm: a4, .. },
                 LayerWeights::Gemma { norm1: c1, post_attn_norm: c2, norm2: c3, post_ffn_norm: c4, .. }) => {
                    let o1 = o + nlen(norm1);
                    lemma_norm_unique(a1, c1, norm1, b, v, o);
                    lemma_norm_unique(a2, c2, post_attn_norm, b, v, o1 + 6);
                    lemma_norm_unique(a3, c3, norm2, b, v, o1 + 6 + nlen(post_attn_norm));
                    lemma_norm_unique(a4, c4, post_ffn_norm, b, v, o1 + 6 + nlen(post_attn_norm) + nlen(norm2) + 3);
                },
                _ => {},
            }
        },
    }
}

/// The reader's description of a stream fixes the model: two models that
/// both match it are equal in every field.
pub proof fn lemma_matches_unique(x: Model, y: Model, pm: crate::io::ManifestView, b: Seq<u8>)
    requires
        model_matches(x, pm, b),
        model_matches(y, pm, b),
    ensures
        model_same(x, y),
{
    let v = fixed_sizes(pm);
    let hu = pm.dims.hidden as nat;
    let ls = pm.layer_metas;
    assert forall|k: int| 0 <= k < x.layers@.len() implies layer_same(#[trigger] x.layers@[k], y.layers@[k]) by {
        let o = (1 + layers_sizes(ls.take(k), hu).len()) as int;
        assert(layer_matches(x.layers@[k], ls[k], b, v, o));
        assert(layer_matches(y.layers@[k], ls[k], b, v, o));
        lemma_layer_unique(x.layers@[k], y.layers@[k], ls[k], b, v, o);
    }
    let fb = (1 + layers_sizes(ls, hu).len()) as int;
    match pm.final_norm {
        Some(nm) => {
            match (x.final_norm, y.final_norm) {
                (Some(a), Some(c)) => lemma_norm_unique(a, c, nm, b, v, fb),
                _ => {},
            }
        },
        None => {},
    }
    assert(x.arch_tag@ == y.arch_tag@);
}

proof fn lemma_norm_same_bytes(a: NormSpec, c: NormSpec)
    requires
        norm_same(a, c),
    ensures
        norm_weight_bytes(a) == norm_weight_bytes(c),
        crate::comm_w::norm_meta_bytes(a) == crate::comm_w::norm_meta_bytes(c),
{
}

proof fn lemma_layer_same_bytes(x: LayerWeights, y: LayerWeights)
    requires
        layer_same(x, y),
    ensures
        layer_weight_bytes(x) == layer_weight_bytes(y),
        crate::comm_w::layer_meta_bytes(x) == crate::comm_w::layer_meta_bytes(y),
{
    match (x, y) {
        (LayerWeights::Attention { norm1: a1, norm2: a2, .. }, LayerWeights::Attention { norm1: c1, norm2: c2, .. }) => {
            lemma_norm_same_bytes(a1, c1);
            lemma_norm_same_bytes(a2, c2);
        },
        (LayerWeights::DeltaNet { norm1: a1, norm2: a2, .. }, LayerWeights::DeltaNet { norm1: c1, norm2: c2, .. }) => {
            lemma_norm_same_bytes(a1, c1);
            lemma_norm_same_bytes(a2, c2);
        },
        (LayerWeights::Gemma { norm1: a1, post_attn_norm: a2, norm2: a3, post_ffn_norm: a4, inp_gate: ag, layer_output_scale: ao, .. },
         LayerWeights::Gemma { norm1: c1, post_attn_norm: c2, norm2: c3, post_ffn_norm: c4, inp_gate: cg, layer_output_scale: co, .. }) => {
            lemma_norm_same_bytes(a1, c1);
            lemma_norm_same_bytes(a2, c2);
            lemma_norm_same_bytes(a3, c3);
            lemma_norm_same_bytes(a4, c4);
            assert(crate::comm_w::opt_i8s_bytes(ag) == crate::comm_w::opt_i8s_bytes(cg));
            assert(crate::comm_w::opt_i8s_bytes(ao) == crate::comm_w::opt_i8s_bytes(co));
        },
        _ => {},
    }
}

proof fn lemma_layers_same_bytes(xs: Seq<LayerWeights>, ys: Seq<LayerWeights>, n: int)
    requires
        n <= xs.len(),
        n <= ys.len(),
        forall|k: int| 0 <= k < n ==> layer_same(#[trigger] xs[k], ys[k]),
    ensures
        layers_weight_bytes(xs, n) == layers_weight_bytes(ys, n),
        crate::comm_w::layers_meta_bytes(xs, n) == crate::comm_w::layers_meta_bytes(ys, n),
    decreases n,
{
    if n > 0 {
        lemma_layers_same_bytes(xs, ys, n - 1);
        lemma_layer_same_bytes(xs[n - 1], ys[n - 1]);
    }
}

/// Models equal in every field have the same canonical weight bytes, the
/// same manifest summary and so the same `comm_W`.
pub proof fn lemma_same_comm_w(x: Model, y: Model)
    requires
        model_same(x, y),
    ensures
        canonical_bytes_spec(x) == canonical_bytes_spec(y),
        crate::comm_w::manifest_bytes_spec(x) == crate::comm_w::manifest_bytes_spec(y),
        crate::comm_w::comm_w_spec(x) == crate::comm_w::comm_w_spec(y),
{
    let n = x.layers@.len() as int;
    lemma_layers_same_bytes(x.layers@, y.layers@, n);
    match (x.final_norm, y.final_norm) {
        (Some(a), Some(c)) => lemma_norm_same_bytes(a, c),
        _ => {},
    }
    assert(canonical_bytes_spec(x) == canonical_bytes_spec(y));
    assert(crate::comm_w::manifest_bytes_spec(x) == crate::comm_w::manifest_bytes_spec(y));
}

// ----- the law -----

/// Loading what was saved gives the model back. Take a model whose blocks
/// the manifest can describe (see `manifest_encodable`), whose blocks read
/// back as themselves (see `layer_consistent`) and whose tensors have the
/// lengths its shape gives (see `weights_shaped`). Then the manifest written
/// for it parses to its manifest view, its canonical weight stream passes
/// every check against that view, the model itself is what the reader
/// describes, and every model the reader builds from the two streams equals
/// it in every field and has its `comm_W`.
pub proof fn lemma_load_after_save(m: Model, loaded: Model)
    requires
        crate::io::manifest_encodable(m),
        weights_shaped(m),
        forall|k: int| 0 <= k < m.layers@.len() ==> layer_consistent(#[trigger] m.layers@[k]),
    ensures
        crate::io::manifest_spec(crate::io::manifest_wire(m)) == Ok::<crate::io::ManifestView, crate::io::LoadError>(
            manifest_view_of(m)),
        weights_outcome(manifest_view_of(m), canonical_bytes_spec(m)) == Ok::<(), crate::io::LoadError>(()),
        model_matches(m, manifest_view_of(m), canonical_bytes_spec(m)),
        model_matches(loaded, manifest_view_of(m), canonical_bytes_spec(m)) ==> model_same(loaded, m)
            && crate::comm_w::comm_w_spec(loaded) == crate::comm_w::comm_w_spec(m),
{
    assert forall|k: int| 0 <= k < m.layers@.len() implies layer_kind_ok(#[trigger] m.layers@[k])
        && layer_consistent(m.layers@[k]) by {
        assert(crate::io::layer_encodable(m.layers@[k], m.dims.hidden));
    }
    crate::io::lemma_manifest_round_trip(m);
    lemma_saved_weights_accepted(m);
    lemma_saved_model_matches(m);
    if model_matches(loaded, manifest_view_of(m), canonical_bytes_spec(m)) {
        lemma_matches_unique(loaded, m, manifest_view_of(m), canonical_bytes_spec(m));
        lemma_same_comm_w(loaded, m);
    }
}

} // verus!
