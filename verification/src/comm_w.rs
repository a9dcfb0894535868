//! Canonical model commitment `comm_W`:
//!
//! ```text
//! weights_root  = merkle_root( tile_hash(64-byte tiles of canonical_weight_bytes) )
//! manifest_hash = derive_key("ai-pow-vi v1 manifest", le64(len) || manifest_bytes)
//! comm_W        = derive_key("ai-pow-vi v1 comm-w", weights_root || manifest_hash)
//! ```
//!
//! The last tile is zero-padded to 64 bytes; an empty stream hashes one
//! all-zero tile.
use vstd::prelude::*;
use crate::activation_lut::{ActivationLut, lut_bytes};
use crate::attention::AttentionScales;
use crate::bytes::{le_bytes, le_signed, push_u32, push_u64, push_i32, push_i64};
use crate::deltanet::DeltaNetScales;
use crate::ffn::FfnScales;
use crate::hashing::{derive_key, blake3_derive_key};
use crate::layer::{LayerWeights, NormSpec};
use crate::merkle::{merkle_root, merkle_root_spec, views32, concat32};
use crate::model::Model;
use crate::quant::Scale;
use crate::rope::{rope_bytes, append_i16s};
use crate::softmax::exp_lut_bytes;

verus! {

broadcast use vstd::array::group_array_axioms;

/// Tile size of the weight commitment.
pub const WEIGHT_TILE_BYTES: usize = 64;

// ---------------------------------------------------------------------
// Canonical weight bytes
// ---------------------------------------------------------------------

/// Each `i8` reinterpreted as a byte.
pub open spec fn i8s_bytes(xs: Seq<i8>) -> Seq<u8> {
    Seq::new(xs.len(), |i: int| xs[i] as u8)
}

/// Optional tensor bytes.
pub open spec fn opt_i8s_bytes(x: Option<Vec<i8>>) -> Seq<u8> {
    match x {
        Some(v) => i8s_bytes(v@),
        None => Seq::empty(),
    }
}

/// Per-channel tensors of a norm.
pub open spec fn norm_weight_bytes(norm: NormSpec) -> Seq<u8> {
    match norm {
        NormSpec::RmsNorm { gamma, .. } => i8s_bytes(gamma@),
        NormSpec::LayerNorm { gamma, beta, .. } => i8s_bytes(gamma@) + i8s_bytes(beta@),
    }
}

/// Weight tensors of one block, in canonical order.
pub open spec fn layer_weight_bytes(layer: LayerWeights) -> Seq<u8> {
    match layer {
        LayerWeights::Attention { norm1, attn, norm2, ffn, .. } =>
            norm_weight_bytes(norm1) + i8s_bytes(attn.w_q@) + i8s_bytes(attn.w_k@) + i8s_bytes(attn.w_v@)
                + i8s_bytes(attn.w_o@) + norm_weight_bytes(norm2) + i8s_bytes(ffn.w_gate@) + i8s_bytes(ffn.w_up@)
                + i8s_bytes(ffn.w_down@),
        LayerWeights::DeltaNet { norm1, dnet, norm2, ffn, .. } =>
            norm_weight_bytes(norm1) + i8s_bytes(dnet.w_q@) + i8s_bytes(dnet.w_k@) + i8s_bytes(dnet.w_v@)
                + i8s_bytes(dnet.w_alpha@) + i8s_bytes(dnet.w_beta@) + i8s_bytes(dnet.w_o@)
                + norm_weight_bytes(norm2) + i8s_bytes(ffn.w_gate@) + i8s_bytes(ffn.w_up@) + i8s_bytes(ffn.w_down@),
        LayerWeights::QwenStandard { norm1, attn, q_norm_gamma, k_norm_gamma, norm2, ffn, .. } =>
            norm_weight_bytes(norm1) + i8s_bytes(attn.w_q@) + i8s_bytes(attn.w_k@) + i8s_bytes(attn.w_v@)
                + i8s_bytes(attn.w_o@) + i8s_bytes(q_norm_gamma@) + i8s_bytes(k_norm_gamma@)
                + norm_weight_bytes(norm2) + i8s_bytes(ffn.w_gate@) + i8s_bytes(ffn.w_up@) + i8s_bytes(ffn.w_down@),
        LayerWeights::QwenHybridSsm {
            norm1, attn_qkv_fused, attn_gate, attn_out, q_norm_gamma, k_norm_gamma, ssm_a, ssm_alpha, ssm_beta,
            ssm_conv1d, ssm_dt, ssm_norm_gamma, ssm_out, norm2, ffn, ..
        } =>
            norm_weight_bytes(norm1) + i8s_bytes(attn_qkv_fused@) + i8s_bytes(attn_gate@) + i8s_bytes(attn_out@)
                + i8s_bytes(q_norm_gamma@) + i8s_bytes(k_norm_gamma@) + i8s_bytes(ssm_a@) + i8s_bytes(ssm_alpha@)
                + i8s_bytes(ssm_beta@) + i8s_bytes(ssm_conv1d@) + i8s_bytes(ssm_dt@) + i8s_bytes(ssm_norm_gamma@)
                + i8s_bytes(ssm_out@) + norm_weight_bytes(norm2) + i8s_bytes(ffn.w_gate@) + i8s_bytes(ffn.w_up@)
                + i8s_bytes(ffn.w_down@),
        LayerWeights::Gemma {
            norm1, attn, q_norm_gamma, k_norm_gamma, post_attn_norm, norm2, ffn, post_ffn_norm, inp_gate,
            layer_output_scale, ..
        } =>
            norm_weight_bytes(norm1) + i8s_bytes(attn.w_q@) + i8s_bytes(attn.w_k@) + i8s_bytes(attn.w_v@)
                + i8s_bytes(attn.w_o@) + i8s_bytes(q_norm_gamma@) + i8s_bytes(k_norm_gamma@)
                + norm_weight_bytes(post_attn_norm) + norm_weight_bytes(norm2) + i8s_bytes(ffn.w_gate@)
                + i8s_bytes(ffn.w_up@) + i8s_bytes(ffn.w_down@) + norm_weight_bytes(post_ffn_norm)
                + opt_i8s_bytes(inp_gate) + opt_i8s_bytes(layer_output_scale),
    }
}

/// Weight bytes of the first `n` blocks.
pub open spec fn layers_weight_bytes(layers: Seq<LayerWeights>, n: int) -> Seq<u8>
    decreases n,
{
    if n <= 0 {
        Seq::empty()
    } else {
        layers_weight_bytes(layers, n - 1) + layer_weight_bytes(layers[n - 1])
    }
}

/// The canonical weight byte stream of a model.
pub open spec fn canonical_bytes_spec(m: Model) -> Seq<u8> {
    i8s_bytes(m.embed@) + layers_weight_bytes(m.layers@, m.layers@.len() as int)
        + (match m.final_norm { Some(n) => norm_weight_bytes(n), None => Seq::empty() })
        + lut_bytes(m.ffn_activation.table@) + lut_bytes(m.sigmoid_lut.table@)
        + exp_lut_bytes(m.softmax_lut.table@) + rope_bytes(m.rope_tables)
}

/// Append each `i8` as a byte.
pub fn append_i8s(out: &mut Vec<u8>, xs: &[i8])
    ensures
        final(out)@ == old(out)@ + i8s_bytes(xs@),
{
    let ghost start = out@;
    let n = xs.len();
    let mut i: usize = 0;
    while i < n
        invariant
            i <= n,
            n == xs@.len(),
            out@ == start + i8s_bytes(xs@.subrange(0, i as int)),
        decreases n - i,
    {
        out.push(xs[i] as u8);
        proof {
            assert(i8s_bytes(xs@.subrange(0, i + 1)) =~= i8s_bytes(xs@.subrange(0, i as int)).push(xs@[i as int] as u8));
        }
        i = i + 1;
    }
    assert(xs@.subrange(0, n as int) =~= xs@);
}

fn append_norm_weights(out: &mut Vec<u8>, norm: &NormSpec)
    ensures
        final(out)@ == old(out)@ + norm_weight_bytes(*norm),
{
    match norm {
        NormSpec::RmsNorm { gamma, .. } => append_i8s(out, gamma.as_slice()),
        NormSpec::LayerNorm { gamma, beta, .. } => {
            append_i8s(out, gamma.as_slice());
            append_i8s(out, beta.as_slice());
            assert(out@ =~= old(out)@ + norm_weight_bytes(*norm));
        },
    }
}

fn append_opt_i8s(out: &mut Vec<u8>, x: &Option<Vec<i8>>)
    ensures
        final(out)@ == old(out)@ + opt_i8s_bytes(*x),
{
    match x {
        Some(v) => append_i8s(out, v.as_slice()),
        None => {
            assert(out@ =~= old(out)@ + opt_i8s_bytes(*x));
        },
    }
}

fn append_layer_weights(out: &mut Vec<u8>, layer: &LayerWeights)
    ensures
        final(out)@ == old(out)@ + layer_weight_bytes(*layer),
{
    let ghost start = out@;
    match layer {
        LayerWeights::Attention { norm1, attn, norm2, ffn, .. } => {
            append_norm_weights(out, norm1);
            append_i8s(out, attn.w_q.as_slice());
            append_i8s(out, attn.w_k.as_slice());
            append_i8s(out, attn.w_v.as_slice());
            append_i8s(out, attn.w_o.as_slice());
            append_norm_weights(out, norm2);
            append_i8s(out, ffn.w_gate.as_slice());
            append_i8s(out, ffn.w_up.as_slice());
            append_i8s(out, ffn.w_down.as_slice());
        },
        LayerWeights::DeltaNet { norm1, dnet, norm2, ffn, .. } => {
            append_norm_weights(out, norm1);
            append_i8s(out, dnet.w_q.as_slice());
            append_i8s(out, dnet.w_k.as_slice());
            append_i8s(out, dnet.w_v.as_slice());
            append_i8s(out, dnet.w_alpha.as_slice());
            append_i8s(out, dnet.w_beta.as_slice());
            append_i8s(out, dnet.w_o.as_slice());
            append_norm_weights(out, norm2);
            append_i8s(out, ffn.w_gate.as_slice());
            append_i8s(out, ffn.w_up.as_slice());
            append_i8s(out, ffn.w_down.as_slice());
        },
        LayerWeights::QwenStandard { norm1, attn, q_norm_gamma, k_norm_gamma, norm2, ffn, .. } => {
            append_norm_weights(out, norm1);
            append_i8s(out, attn.w_q.as_slice());
            append_i8s(out, attn.w_k.as_slice());
            append_i8s(out, attn.w_v.as_slice());
            append_i8s(out, attn.w_o.as_slice());
            append_i8s(out, q_norm_gamma.as_slice());
            append_i8s(out, k_norm_gamma.as_slice());
            append_norm_weights(out, norm2);
            append_i8s(out, ffn.w_gate.as_slice());
            append_i8s(out, ffn.w_up.as_slice());
            append_i8s(out, ffn.w_down.as_slice());
        },
        LayerWeights::QwenHybridSsm {
            norm1, attn_qkv_fused, attn_gate, attn_out, q_norm_gamma, k_norm_gamma, ssm_a, ssm_alpha, ssm_beta,
            ssm_conv1d, ssm_dt, ssm_norm_gamma, ssm_out, norm2, ffn, ..
        } => {
            append_norm_weights(out, norm1);
            append_i8s(out, attn_qkv_fused.as_slice());
            append_i8s(out, attn_gate.as_slice());
            append_i8s(out, attn_out.as_slice());
            append_i8s(out, q_norm_gamma.as_slice());
            append_i8s(out, k_norm_gamma.as_slice());
            append_i8s(out, ssm_a.as_slice());
            append_i8s(out, ssm_alpha.as_slice());
            append_i8s(out, ssm_beta.as_slice());
            append_i8s(out, ssm_conv1d.as_slice());
            append_i8s(out, ssm_dt.as_slice());
            append_i8s(out, ssm_norm_gamma.as_slice());
            append_i8s(out, ssm_out.as_slice());
            append_norm_weights(out, norm2);
            append_i8s(out, ffn.w_gate.as_slice());
            append_i8s(out, ffn.w_up.as_slice());
            append_i8s(out, ffn.w_down.as_slice());
        },
        LayerWeights::Gemma {
            norm1, attn, q_norm_gamma, k_norm_gamma, post_attn_norm, norm2, ffn, post_ffn_norm, inp_gate,
            layer_output_scale, ..
        } => {
            append_norm_weights(out, norm1);
            append_i8s(out, attn.w_q.as_slice());
            append_i8s(out, attn.w_k.as_slice());
            append_i8s(out, attn.w_v.as_slice());
            append_i8s(out, attn.w_o.as_slice());
            append_i8s(out, q_norm_gamma.as_slice());
            append_i8s(out, k_norm_gamma.as_slice());
            append_norm_weights(out, post_attn_norm);
            append_norm_weights(out, norm2);
            append_i8s(out, ffn.w_gate.as_slice());
            append_i8s(out, ffn.w_up.as_slice());
            append_i8s(out, ffn.w_down.as_slice());
            append_norm_weights(out, post_ffn_norm);
            append_opt_i8s(out, inp_gate);
            append_opt_i8s(out, layer_output_scale);
        },
    }
    assert(out@ =~= start + layer_weight_bytes(*layer));
}

/// Append a byte array.
fn append_bytes(out: &mut Vec<u8>, xs: &[u8])
    ensures
        final(out)@ == old(out)@ + xs@,
{
    let ghost start = out@;
    let n = xs.len();
    let mut i: usize = 0;
    while i < n
        invariant
            i <= n,
            n == xs@.len(),
            out@ == start + xs@.subrange(0, i as int),
        decreases n - i,
    {
        out.push(xs[i]);
        i = i + 1;
    }
    assert(xs@.subrange(0, n as int) =~= xs@);
}

/// The canonical weight byte stream: embedding, every block's tensors,
/// the final norm, both activation LUTs, the exponent LUT and the RoPE
/// tables.
pub fn canonical_weight_bytes(model: &Model) -> (r: Vec<u8>)
    ensures
        r@ == canonical_bytes_spec(*model),
{
    let mut out: Vec<u8> = Vec::new();
    append_i8s(&mut out, model.embed.as_slice());
    let ghost base = out@;
    let n = model.layers.len();
    let mut i: usize = 0;
    while i < n
        invariant
            i <= n,
            n == model.layers@.len(),
            out@ == base + layers_weight_bytes(model.layers@, i as int),
        decreases n - i,
    {
        append_layer_weights(&mut out, &model.layers[i]);
        proof {
            assert(out@ =~= base + layers_weight_bytes(model.layers@, (i + 1) as int));
        }
        i = i + 1;
    }
    match &model.final_norm {
        Some(norm) => append_norm_weights(&mut out, norm),
        None => {},
    }
    let f = model.ffn_activation.to_bytes();
    append_bytes(&mut out, f.as_slice());
    let s = model.sigmoid_lut.to_bytes();
    append_bytes(&mut out, s.as_slice());
    let e = model.softmax_lut.to_bytes_vec();
    append_bytes(&mut out, e.as_slice());
    let t = model.rope_tables.to_bytes_vec();
    append_bytes(&mut out, t.as_slice());
    assert(out@ =~= canonical_bytes_spec(*model));
    out
}

// ---------------------------------------------------------------------
// Weight tile-Merkle root
// ---------------------------------------------------------------------

/// Hash of one weight tile: `derive_key(ctx, le64(len) || chunk)`.
pub open spec fn tile_hash_spec(chunk: Seq<u8>) -> Seq<u8> {
    blake3_derive_key("ai-pow-vi v1 weight-tile"@, le_bytes(chunk.len(), 8) + chunk)
}

/// Tile `i` of `b`, zero-padded to 64 bytes.
pub open spec fn padded_tile(b: Seq<u8>, i: int) -> Seq<u8> {
    Seq::new(64, |j: int| if 64 * i + j < b.len() { b[64 * i + j] } else { 0u8 })
}

/// Number of weight tiles (at least one).
pub open spec fn num_weight_tiles(len: int) -> int {
    if len == 0 { 1 } else { (len + 63) / 64 }
}

/// Leaf hashes of the weight tiles.
pub open spec fn weight_leaves(b: Seq<u8>) -> Seq<Seq<u8>> {
    Seq::new(num_weight_tiles(b.len() as int) as nat, |i: int| tile_hash_spec(padded_tile(b, i)))
}

/// Tile-Merkle root of a weight byte stream.
pub open spec fn weights_root_spec(b: Seq<u8>) -> Seq<u8> {
    merkle_root_spec(weight_leaves(b))
}

/// Hash of one tile.
pub fn tile_hash(chunk: &[u8]) -> (r: [u8; 32])
    ensures
        r@ == tile_hash_spec(chunk@),
{
    let mut buf: Vec<u8> = Vec::new();
    push_u64(&mut buf, chunk.len() as u64);
    append_bytes(&mut buf, chunk);
    derive_key("ai-pow-vi v1 weight-tile", buf.as_slice())
}

/// Tile `i` of `b`, zero-padded to 64 bytes.
fn padded_tile_exec(b: &[u8], i: usize) -> (r: Vec<u8>)
    requires
        64 * i + 64 <= usize::MAX,
    ensures
        r@ == padded_tile(b@, i as int),
{
    let mut v: Vec<u8> = Vec::new();
    let mut j: usize = 0;
    while j < 64
        invariant
            j <= 64,
            64 * i + 64 <= usize::MAX,
            v@.len() == j,
            forall|e: int| 0 <= e < j ==> v@[e] == padded_tile(b@, i as int)[e],
        decreases 64 - j,
    {
        let k = 64 * i + j;
        if k < b.len() {
            v.push(b[k]);
        } else {
            v.push(0u8);
        }
        j = j + 1;
    }
    assert(v@ =~= padded_tile(b@, i as int));
    v
}

/// Tile-Merkle root of a weight byte stream.
pub fn weights_merkle_root(bytes: &[u8]) -> (r: [u8; 32])
    requires
        bytes@.len() + 128 <= usize::MAX,
    ensures
        r@ == weights_root_spec(bytes@),
{
    let len = bytes.len();
    let n = if len == 0 { 1 } else { (len + 63) / 64 };
    let mut leaves: Vec<[u8; 32]> = Vec::new();
    let mut i: usize = 0;
    while i < n
        invariant
            i <= n,
            len == bytes@.len(),
            len + 128 <= usize::MAX,
            n == num_weight_tiles(len as int),
            leaves@.len() == i,
            forall|e: int| 0 <= e < i ==> leaves@[e]@ == weight_leaves(bytes@)[e],
        decreases n - i,
    {
        let tile = padded_tile_exec(bytes, i);
        leaves.push(tile_hash(tile.as_slice()));
        i = i + 1;
    }
    assert(views32(leaves@) =~= weight_leaves(bytes@));
    merkle_root(leaves.as_slice())
}

// ---------------------------------------------------------------------
// Manifest
// ---------------------------------------------------------------------

/// A scale as its LE `i32` numerator.
pub open spec fn scale_bytes(s: Scale) -> Seq<u8> {
    le_signed(s.num as int, 4)
}

/// LE bytes of a `u32`.
pub open spec fn u32_bytes(x: u32) -> Seq<u8> {
    le_bytes(x as nat, 4)
}

/// Tag, epsilon and post scale of a norm.
pub open spec fn norm_meta_bytes(n: NormSpec) -> Seq<u8> {
    match n {
        NormSpec::RmsNorm { eps_q, post_scale, .. } => seq![0u8] + le_signed(eps_q as int, 8) + scale_bytes(post_scale),
        NormSpec::LayerNorm { eps_q, post_scale, .. } => seq![1u8] + le_signed(eps_q as int, 8) + scale_bytes(post_scale),
    }
}

pub open spec fn attn_scales_bytes(s: AttentionScales) -> Seq<u8> {
    scale_bytes(s.q) + scale_bytes(s.k) + scale_bytes(s.v) + scale_bytes(s.score) + scale_bytes(s.attn_out) + scale_bytes(s.o)
}

pub open spec fn ffn_scales_bytes(s: FfnScales) -> Seq<u8> {
    scale_bytes(s.gate) + scale_bytes(s.up) + scale_bytes(s.mid) + scale_bytes(s.down)
}

pub open spec fn dnet_scales_bytes(s: DeltaNetScales) -> Seq<u8> {
    scale_bytes(s.q) + scale_bytes(s.k) + scale_bytes(s.v) + scale_bytes(s.alpha_logit) + scale_bytes(s.beta_logit)
        + scale_bytes(s.u) + scale_bytes(s.decay) + scale_bytes(s.update) + scale_bytes(s.o) + scale_bytes(s.proj)
}

/// Architecture metadata of one block (tag first).
pub open spec fn layer_meta_bytes(layer: LayerWeights) -> Seq<u8> {
    match layer {
        LayerWeights::Attention { norm1, attn, attn_scales, norm2, ffn, ffn_scales } =>
            seq![0u8] + norm_meta_bytes(norm1) + u32_bytes(attn.hidden) + u32_bytes(attn.num_q_heads)
                + u32_bytes(attn.num_kv_heads) + u32_bytes(attn.head_dim) + attn_scales_bytes(attn_scales)
                + norm_meta_bytes(norm2) + u32_bytes(ffn.hidden) + u32_bytes(ffn.intermediate) + ffn_scales_bytes(ffn_scales),
        LayerWeights::DeltaNet { norm1, dnet, dnet_scales, norm2, ffn, ffn_scales } =>
            seq![1u8] + norm_meta_bytes(norm1) + u32_bytes(dnet.hidden) + u32_bytes(dnet.num_qk_heads)
                + u32_bytes(dnet.num_v_heads) + u32_bytes(dnet.head_dim_qk) + u32_bytes(dnet.head_dim_v)
                + dnet_scales_bytes(dnet_scales) + norm_meta_bytes(norm2) + u32_bytes(ffn.hidden)
                + u32_bytes(ffn.intermediate) + ffn_scales_bytes(ffn_scales),
        LayerWeights::QwenStandard {
            norm1, attn, attn_scales, qk_norm_eps_q, qk_norm_post_scale, norm2, ffn, ffn_scales, ..
        } =>
            seq![3u8] + norm_meta_bytes(norm1) + u32_bytes(attn.hidden) + u32_bytes(attn.num_q_heads)
                + u32_bytes(attn.num_kv_heads) + u32_bytes(attn.head_dim) + attn_scales_bytes(attn_scales)
                + le_signed(qk_norm_eps_q as int, 8) + scale_bytes(qk_norm_post_scale) + norm_meta_bytes(norm2)
                + u32_bytes(ffn.hidden) + u32_bytes(ffn.intermediate) + ffn_scales_bytes(ffn_scales),
        LayerWeights::QwenHybridSsm {
            norm1, num_q_heads, num_kv_heads, head_dim, attn_scales, qk_norm_eps_q, qk_norm_post_scale,
            num_v_heads, ssm_head_dim, ssm_kernel_size, ssm_norm_eps_q, ssm_norm_post_scale, ssm_scales, norm2,
            ffn, ffn_scales, ..
        } =>
            seq![4u8] + norm_meta_bytes(norm1) + u32_bytes(ffn.hidden) + u32_bytes(num_q_heads)
                + u32_bytes(num_kv_heads) + u32_bytes(head_dim) + attn_scales_bytes(attn_scales)
                + le_signed(qk_norm_eps_q as int, 8) + scale_bytes(qk_norm_post_scale) + u32_bytes(num_v_heads)
                + u32_bytes(ssm_head_dim) + u32_bytes(ssm_kernel_size) + le_signed(ssm_norm_eps_q as int, 8)
                + scale_bytes(ssm_norm_post_scale) + dnet_scales_bytes(ssm_scales) + norm_meta_bytes(norm2)
                + u32_bytes(ffn.intermediate) + ffn_scales_bytes(ffn_scales),
        LayerWeights::Gemma {
            norm1, attn, attn_scales, qk_norm_eps_q, qk_norm_post_scale, post_attn_norm, norm2, ffn, ffn_scales,
            post_ffn_norm, sliding_window, inp_gate, layer_output_scale, ..
        } =>
            seq![2u8] + norm_meta_bytes(norm1) + u32_bytes(attn.hidden) + u32_bytes(attn.num_q_heads)
                + u32_bytes(attn.num_kv_heads) + u32_bytes(attn.head_dim) + attn_scales_bytes(attn_scales)
                + le_signed(qk_norm_eps_q as int, 8) + scale_bytes(qk_norm_post_scale)
                + norm_meta_bytes(post_attn_norm) + norm_meta_bytes(norm2) + u32_bytes(ffn.hidden)
                + u32_bytes(ffn.intermediate) + ffn_scales_bytes(ffn_scales) + norm_meta_bytes(post_ffn_norm)
                + u32_bytes(match sliding_window { Some(w) => w, None => 0u32 })
                + seq![if inp_gate is Some { 1u8 } else { 0u8 }]
                + seq![if layer_output_scale is Some { 1u8 } else { 0u8 }],
    }
}

/// Metadata of the first `n` blocks.
pub open spec fn layers_meta_bytes(layers: Seq<LayerWeights>, n: int) -> Seq<u8>
    decreases n,
{
    if n <= 0 {
        Seq::empty()
    } else {
        layers_meta_bytes(layers, n - 1) + layer_meta_bytes(layers[n - 1])
    }
}

/// The architecture summary the manifest hash covers.
pub open spec fn manifest_bytes_spec(m: Model) -> Seq<u8> {
    m.arch_tag@ + le_bytes(m.feature_flags as nat, 8) + u32_bytes(m.dims.vocab) + u32_bytes(m.dims.hidden)
        + u32_bytes(m.dims.seq_len) + u32_bytes(m.dims.activation_tile) + u32_bytes(m.layers@.len() as u32)
        + layers_meta_bytes(m.layers@, m.layers@.len() as int)
        + (match m.final_norm { Some(n) => seq![1u8] + norm_meta_bytes(n), None => seq![0u8] })
}

/// Domain-separated hash of the length-prefixed manifest bytes.
pub open spec fn manifest_hash_spec(m: Model) -> Seq<u8> {
    let b = manifest_bytes_spec(m);
    blake3_derive_key("ai-pow-vi v1 manifest"@, le_bytes(b.len(), 8) + b)
}

/// `comm_W` of a model.
pub open spec fn comm_w_spec(m: Model) -> Seq<u8> {
    blake3_derive_key("ai-pow-vi v1 comm-w"@, weights_root_spec(canonical_bytes_spec(m)) + manifest_hash_spec(m))
}

fn append_scale(out: &mut Vec<u8>, s: &Scale)
    ensures
        final(out)@ == old(out)@ + scale_bytes(*s),
{
    push_i32(out, s.num);
}

fn append_norm_meta(out: &mut Vec<u8>, norm: &NormSpec)
    ensures
        final(out)@ == old(out)@ + norm_meta_bytes(*norm),
{
    let ghost start = out@;
    match norm {
        NormSpec::RmsNorm { eps_q, post_scale, .. } => {
            out.push(0u8);
            push_i64(out, *eps_q);
            append_scale(out, post_scale);
        },
        NormSpec::LayerNorm { eps_q, post_scale, .. } => {
            out.push(1u8);
            push_i64(out, *eps_q);
            append_scale(out, post_scale);
        },
    }
    assert(out@ =~= start + norm_meta_bytes(*norm));
}

fn append_attn_scales(out: &mut Vec<u8>, s: &AttentionScales)
    ensures
        final(out)@ == old(out)@ + attn_scales_bytes(*s),
{
    let ghost start = out@;
    append_scale(out, &s.q);
    append_scale(out, &s.k);
    append_scale(out, &s.v);
    append_scale(out, &s.score);
    append_scale(out, &s.attn_out);
    append_scale(out, &s.o);
    assert(out@ =~= start + attn_scales_bytes(*s));
}

fn append_ffn_scales(out: &mut Vec<u8>, s: &FfnScales)
    ensures
        final(out)@ == old(out)@ + ffn_scales_bytes(*s),
{
    let ghost start = out@;
    append_scale(out, &s.gate);
    append_scale(out, &s.up);
    append_scale(out, &s.mid);
    append_scale(out, &s.down);
    assert(out@ =~= start + ffn_scales_bytes(*s));
}

fn append_dnet_scales(out: &mut Vec<u8>, s: &DeltaNetScales)
    ensures
        final(out)@ == old(out)@ + dnet_scales_bytes(*s),
{
    let ghost start = out@;
    append_scale(out, &s.q);
    append_scale(out, &s.k);
    append_scale(out, &s.v);
    append_scale(out, &s.alpha_logit);
    append_scale(out, &s.beta_logit);
    append_scale(out, &s.u);
    append_scale(out, &s.decay);
    append_scale(out, &s.update);
    append_scale(out, &s.o);
    append_scale(out, &s.proj);
    assert(out@ =~= start + dnet_scales_bytes(*s));
}

fn append_attention_meta(out: &mut Vec<u8>, layer: &LayerWeights)
    requires
        layer is Attention,
    ensures
        final(out)@ == old(out)@ + layer_meta_bytes(*layer),
{
    let ghost start = out@;
    match layer {
        LayerWeights::Attention { norm1, attn, attn_scales, norm2, ffn, ffn_scales } => {
            out.push(0u8);
            append_norm_meta(out, norm1);
            push_u32(out, attn.hidden);
            push_u32(out, attn.num_q_heads);
            push_u32(out, attn.num_kv_heads);
            push_u32(out, attn.head_dim);
            append_attn_scales(out, attn_scales);
            append_norm_meta(out, norm2);
            push_u32(out, ffn.hidden);
            push_u32(out, ffn.intermediate);
            append_ffn_scales(out, ffn_scales);
        },
        _ => {},
    }
    assert(out@ =~= start + layer_meta_bytes(*layer));
}

fn append_deltanet_meta(out: &mut Vec<u8>, layer: &LayerWeights)
    requires
        layer is DeltaNet,
    ensures
        final(out)@ == old(out)@ + layer_meta_bytes(*layer),
{
    let ghost start = out@;
    match layer {
        LayerWeights::DeltaNet { norm1, dnet, dnet_scales, norm2, ffn, ffn_scales } => {
            out.push(1u8);
            append_norm_meta(out, norm1);
            push_u32(out, dnet.hidden);
            push_u32(out, dnet.num_qk_heads);
            push_u32(out, dnet.num_v_heads);
            push_u32(out, dnet.head_dim_qk);
            push_u32(out, dnet.head_dim_v);
            append_dnet_scales(out, dnet_scales);
            append_norm_meta(out, norm2);
            push_u32(out, ffn.hidden);
            push_u32(out, ffn.intermediate);
            append_ffn_scales(out, ffn_scales);
        },
        _ => {},
    }
    assert(out@ =~= start + layer_meta_bytes(*layer));
}

fn append_qwen_standard_meta(out: &mut Vec<u8>, layer: &LayerWeights)
    requires
        layer is QwenStandard,
    ensures
        final(out)@ == old(out)@ + layer_meta_bytes(*layer),
{
    let ghost start = out@;
    match layer {
        LayerWeights::QwenStandard {
            norm1, attn, attn_scales, qk_norm_eps_q, qk_norm_post_scale, norm2, ffn, ffn_scales, ..
        } => {
            out.push(3u8);
            append_norm_meta(out, norm1);
            push_u32(out, attn.hidden);
            push_u32(out, attn.num_q_heads);
            push_u32(out, attn.num_kv_heads);
            push_u32(out, attn.head_dim);
            append_attn_scales(out, attn_scales);
            push_i64(out, *qk_norm_eps_q);
            append_scale(out, qk_norm_post_scale);
            append_norm_meta(out, norm2);
            push_u32(out, ffn.hidden);
            push_u32(out, ffn.intermediate);
            append_ffn_scales(out, ffn_scales);
        },
        _ => {},
    }
    assert(out@ =~= start + layer_meta_bytes(*layer));
}

fn append_hybrid_meta(out: &mut Vec<u8>, layer: &LayerWeights)
    requires
        layer is QwenHybridSsm,
    ensures
        final(out)@ == old(out)@ + layer_meta_bytes(*layer),
{
    let ghost start = out@;
    match layer {
        LayerWeights::QwenHybridSsm {
            norm1, num_q_heads, num_kv_heads, head_dim, attn_scales, qk_norm_eps_q, qk_norm_post_scale,
            num_v_heads, ssm_head_dim, ssm_kernel_size, ssm_norm_eps_q, ssm_norm_post_scale, ssm_scales, norm2,
            ffn, ffn_scales, ..
        } => {
            out.push(4u8);
            append_norm_meta(out, norm1);
            push_u32(out, ffn.hidden);
            push_u32(out, *num_q_heads);
            push_u32(out, *num_kv_heads);
            push_u32(out, *head_dim);
            append_attn_scales(out, attn_scales);
            push_i64(out, *qk_norm_eps_q);
            append_scale(out, qk_norm_post_scale);
            push_u32(out, *num_v_heads);
            push_u32(out, *ssm_head_dim);
            push_u32(out, *ssm_kernel_size);
            push_i64(out, *ssm_norm_eps_q);
            append_scale(out, ssm_norm_post_scale);
            append_dnet_scales(out, ssm_scales);
            append_norm_meta(out, norm2);
            push_u32(out, ffn.intermediate);
            append_ffn_scales(out, ffn_scales);
        },
        _ => {},
    }
    assert(out@ =~= start + layer_meta_bytes(*layer));
}

#[verifier::spinoff_prover]
#[verifier::rlimit(60)]
fn append_gemma_meta(out: &mut Vec<u8>, layer: &LayerWeights)
    requires
        layer is Gemma,
    ensures
        final(out)@ == old(out)@ + layer_meta_bytes(*layer),
{
    let ghost start = out@;
    match layer {
        LayerWeights::Gemma {
            norm1, attn, attn_scales, qk_norm_eps_q, qk_norm_post_scale, post_attn_norm, norm2, ffn, ffn_scales,
            post_ffn_norm, sliding_window, inp_gate, layer_output_scale, ..
        } => {
            out.push(2u8);
            append_norm_meta(out, norm1);
            push_u32(out, attn.hidden);
            push_u32(out, attn.num_q_heads);
            push_u32(out, attn.num_kv_heads);
            push_u32(out, attn.head_dim);
            append_attn_scales(out, attn_scales);
            push_i64(out, *qk_norm_eps_q);
            append_scale(out, qk_norm_post_scale);
            append_norm_meta(out, post_attn_norm);
            append_norm_meta(out, norm2);
            push_u32(out, ffn.hidden);
            push_u32(out, ffn.intermediate);
            append_ffn_scales(out, ffn_scales);
            append_norm_meta(out, post_ffn_norm);
            let w: u32 = match sliding_window {
                Some(w) => *w,
                None => 0,
            };
            push_u32(out, w);
            out.push(if inp_gate.is_some() { 1u8 } else { 0u8 });
            out.push(if layer_output_scale.is_some() { 1u8 } else { 0u8 });
        },
        _ => {},
    }
    assert(out@ =~= start + layer_meta_bytes(*layer));
}

fn append_layer_meta(out: &mut Vec<u8>, layer: &LayerWeights)
    ensures
        final(out)@ == old(out)@ + layer_meta_bytes(*layer),
{
    match layer {
        LayerWeights::Attention { .. } => append_attention_meta(out, layer),
        LayerWeights::DeltaNet { .. } => append_deltanet_meta(out, layer),
        LayerWeights::QwenStandard { .. } => append_qwen_standard_meta(out, layer),
        LayerWeights::QwenHybridSsm { .. } => append_hybrid_meta(out, layer),
        LayerWeights::Gemma { .. } => append_gemma_meta(out, layer),
    }
}

/// The manifest bytes of a model.
pub fn manifest_bytes(model: &Model) -> (r: Vec<u8>)
    ensures
        r@ == manifest_bytes_spec(*model),
{
    let mut buf: Vec<u8> = Vec::new();
    append_bytes(&mut buf, model.arch_tag.as_slice());
    push_u64(&mut buf, model.feature_flags);
    let d = model.dims;
    push_u32(&mut buf, d.vocab);
    push_u32(&mut buf, d.hidden);
    push_u32(&mut buf, d.seq_len);
    push_u32(&mut buf, d.activation_tile);
    push_u32(&mut buf, model.layers.len() as u32);
    let ghost base = buf@;
    let n = model.layers.len();
    let mut i: usize = 0;
    while i < n
        invariant
            i <= n,
            n == model.layers@.len(),
            buf@ == base + layers_meta_bytes(model.layers@, i as int),
        decreases n - i,
    {
        append_layer_meta(&mut buf, &model.layers[i]);
        proof {
            assert(buf@ =~= base + layers_meta_bytes(model.layers@, (i + 1) as int));
        }
        i = i + 1;
    }
    match &model.final_norm {
        Some(norm) => {
            buf.push(1u8);
            append_norm_meta(&mut buf, norm);
        },
        None => {
            buf.push(0u8);
        },
    }
    assert(buf@ =~= manifest_bytes_spec(*model));
    buf
}

/// Domain-separated hash of the length-prefixed manifest bytes.
pub fn manifest_hash(model: &Model) -> (r: [u8; 32])
    ensures
        r@ == manifest_hash_spec(*model),
{
    let b = manifest_bytes(model);
    let mut buf: Vec<u8> = Vec::new();
    push_u64(&mut buf, b.len() as u64);
    append_bytes(&mut buf, b.as_slice());
    derive_key("ai-pow-vi v1 manifest", buf.as_slice())
}

/// `comm_W` from a weights root and a manifest hash.
pub fn combine_comm_w(weights_root: &[u8; 32], manifest_root: &[u8; 32]) -> (r: [u8; 32])
    ensures
        r@ == blake3_derive_key("ai-pow-vi v1 comm-w"@, weights_root@ + manifest_root@),
{
    let buf = concat32(weights_root, manifest_root);
    derive_key("ai-pow-vi v1 comm-w", buf.as_slice())
}

/// The canonical model commitment.
pub fn compute_comm_w(model: &Model) -> (r: [u8; 32])
    requires
        canonical_bytes_spec(*model).len() + 128 <= usize::MAX,
    ensures
        r@ == comm_w_spec(*model),
{
    let weight_bytes = canonical_weight_bytes(model);
    let weights_root = weights_merkle_root(weight_bytes.as_slice());
    let manifest_root = manifest_hash(model);
    combine_comm_w(&weights_root, &manifest_root)
}

} // verus!
