//! The sideloaded model format: a little-endian `manifest.bin` (magic,
//! version, architecture tag, feature flags, dimensions, per-block shape
//! and every scale and epsilon) and a `weights.bin` that holds exactly the
//! canonical weight bytes. Reading the files is the caller's business; this
//! module encodes the manifest, parses both streams back into a model and
//! checks the model's `comm_W` against the expected one.
use vstd::prelude::*;
use crate::activation_lut::{ActivationKind, ActivationLut, LutError};
use crate::attention::{AttentionScales, AttentionWeights};
use crate::bytes::{le_val, to_signed, le_bytes, le_signed, read_u32, read_i32, read_i64, read_u64, read_i16, push_u32, push_u64, push_i32, push_i64};
use crate::deltanet::{DeltaNetScales, DeltaNetWeights};
use crate::ffn::{FfnScales, FfnWeights};
use crate::layer::{LayerWeights, NormSpec};
use crate::model::{Model, ModelDims};
use crate::matmul_int8::mul_u32;
use crate::quant::{QuantError, Scale};
use crate::rope::{RopeError, RopeTables};
use crate::softmax::{ExpLut, ExpLutError};

verus! {

broadcast use vstd::array::group_array_axioms;

#[verifier::external_type_specification]
#[verifier::external_body]
pub struct ExIoError(std::io::Error);

/// Why a model could not be written.
#[derive(Debug)]
pub enum SaveError {
    Io(std::io::Error),
}

/// Why a model could not be read.
#[derive(Debug)]
pub enum LoadError {
    Io(std::io::Error),
    BadMagic,
    UnsupportedVersion(u32),
    ManifestEof(u64),
    WeightsEof(u64),
    ManifestTrailing,
    WeightsTrailing,
    UnknownNormTag(u8),
    UnknownLayerTag(u8),
    LayerHiddenMismatch { layer_idx: u32, got: u32, want: u32 },
    CommWMismatch,
    Scale(QuantError),
    Lut(LutError),
    ExpLut(ExpLutError),
    Rope(RopeError),
}

/// Manifest format version.
pub const VERSION: u32 = 2;

/// The manifest magic, `AIPOWVI1`.
pub open spec fn magic_spec() -> Seq<u8> {
    seq![65u8, 73, 80, 79, 87, 86, 73, 49]
}

/// Shape and scalars of one norm position.
#[derive(Debug, Clone, Copy, PartialEq, Eq)]
pub enum NormMeta {
    Rms { eps_q: i64, post_scale: Scale },
    LayerNorm { eps_q: i64, post_scale: Scale },
}

/// Shape and scalars of one block, as written in the manifest.
#[derive(Debug, Clone, Copy, PartialEq, Eq)]
pub enum LayerMeta {
    Attention {
        norm1: NormMeta,
        hidden: u32,
        num_q_heads: u32,
        num_kv_heads: u32,
        head_dim: u32,
        attn_scales: AttentionScales,
        norm2: NormMeta,
        intermediate: u32,
        ffn_scales: FfnScales,
    },
    DeltaNet {
        norm1: NormMeta,
        hidden: u32,
        num_qk_heads: u32,
        num_v_heads: u32,
        head_dim_qk: u32,
        head_dim_v: u32,
        dnet_scales: DeltaNetScales,
        norm2: NormMeta,
        intermediate: u32,
        ffn_scales: FfnScales,
    },
    Gemma {
        norm1: NormMeta,
        hidden: u32,
        num_q_heads: u32,
        num_kv_heads: u32,
        head_dim: u32,
        attn_scales: AttentionScales,
        qk_norm_eps_q: i64,
        qk_norm_post_scale: Scale,
        post_attn_norm: NormMeta,
        norm2: NormMeta,
        intermediate: u32,
        ffn_scales: FfnScales,
        post_ffn_norm: NormMeta,
        sliding_window: u32,
        has_inp_gate: bool,
        has_layer_output_scale: bool,
    },
}

/// A parsed manifest, to be paired with the weight stream.
#[derive(Debug, Clone)]
pub struct ParsedManifest {
    pub arch_tag: [u8; 16],
    pub feature_flags: u64,
    pub dims: ModelDims,
    pub layer_metas: Vec<LayerMeta>,
    pub final_norm: Option<NormMeta>,
    pub rope_seq_len: u32,
    pub rope_half_head_dim: u32,
    pub ffn_activation_kind: ActivationKind,
    pub sigmoid_lut_kind: ActivationKind,
}

/// Mathematical value of a parsed manifest.
pub ghost struct ManifestView {
    pub arch_tag: Seq<u8>,
    pub feature_flags: u64,
    pub dims: ModelDims,
    pub layer_metas: Seq<LayerMeta>,
    pub final_norm: Option<NormMeta>,
    pub rope_seq_len: u32,
    pub rope_half_head_dim: u32,
    pub ffn_activation_kind: ActivationKind,
    pub sigmoid_lut_kind: ActivationKind,
}

impl View for ParsedManifest {
    type V = ManifestView;

    open spec fn view(&self) -> ManifestView {
        ManifestView {
            arch_tag: self.arch_tag@,
            feature_flags: self.feature_flags,
            dims: self.dims,
            layer_metas: self.layer_metas@,
            final_norm: self.final_norm,
            rope_seq_len: self.rope_seq_len,
            rope_half_head_dim: self.rope_half_head_dim,
            ffn_activation_kind: self.ffn_activation_kind,
            sigmoid_lut_kind: self.sigmoid_lut_kind,
        }
    }
}

/// The activation kind that a manifest tag stands for (unknown tags read as
/// the identity).
pub open spec fn kind_from_tag_spec(t: u8) -> ActivationKind {
    if t == 0x01 {
        ActivationKind::SiLU
    } else if t == 0x02 {
        ActivationKind::GeLU
    } else if t == 0x03 {
        ActivationKind::Swish
    } else {
        ActivationKind::Identity
    }
}

pub fn kind_from_tag(t: u8) -> (r: ActivationKind)
    ensures
        r == kind_from_tag_spec(t),
{
    if t == 0x01 {
        ActivationKind::SiLU
    } else if t == 0x02 {
        ActivationKind::GeLU
    } else if t == 0x03 {
        ActivationKind::Swish
    } else {
        ActivationKind::Identity
    }
}

// ----- manifest reading, position by position -----

/// Room for `n` bytes at `p`, else end-of-manifest at `p`.
pub open spec fn m_room(s: Seq<u8>, p: nat, n: nat) -> bool {
    p + n <= s.len()
}

pub open spec fn m_eof(p: nat) -> LoadError {
    LoadError::ManifestEof(p as u64)
}

pub open spec fn m_u8(s: Seq<u8>, p: nat) -> Result<(u8, nat), LoadError> {
    if m_room(s, p, 1) { Ok((s[p as int], p + 1)) } else { Err(m_eof(p)) }
}

pub open spec fn m_u32(s: Seq<u8>, p: nat) -> Result<(u32, nat), LoadError> {
    if m_room(s, p, 4) { Ok((le_val(s.subrange(p as int, (p + 4) as int)) as u32, p + 4)) } else { Err(m_eof(p)) }
}

pub open spec fn m_u64(s: Seq<u8>, p: nat) -> Result<(u64, nat), LoadError> {
    if m_room(s, p, 8) { Ok((le_val(s.subrange(p as int, (p + 8) as int)) as u64, p + 8)) } else { Err(m_eof(p)) }
}

pub open spec fn m_i64(s: Seq<u8>, p: nat) -> Result<(i64, nat), LoadError> {
    if m_room(s, p, 8) { Ok((to_signed(le_val(s.subrange(p as int, (p + 8) as int)), 8) as i64, p + 8)) } else { Err(m_eof(p)) }
}

/// A scale: its `i32` numerator, which must be positive.
pub open spec fn m_scale(s: Seq<u8>, p: nat) -> Result<(Scale, nat), LoadError> {
    if !m_room(s, p, 4) {
        Err(m_eof(p))
    } else {
        let x = to_signed(le_val(s.subrange(p as int, (p + 4) as int)), 4) as i32;
        if x > 0 {
            Ok((Scale { num: x }, p + 4))
        } else {
            Err(LoadError::Scale(QuantError::NonPositiveScale))
        }
    }
}

/// `k` scales in a row.
pub open spec fn m_scales(s: Seq<u8>, p: nat, k: nat) -> Result<(Seq<Scale>, nat), LoadError>
    decreases k,
{
    if k == 0 {
        Ok((Seq::<Scale>::empty(), p))
    } else {
        match m_scales(s, p, (k - 1) as nat) {
            Err(e) => Err(e),
            Ok((v, q)) => match m_scale(s, q) {
                Err(e) => Err(e),
                Ok((x, q2)) => Ok((v.push(x), q2)),
            },
        }
    }
}

/// `k` little-endian `u32`s in a row.
pub open spec fn m_u32s(s: Seq<u8>, p: nat, k: nat) -> Result<(Seq<u32>, nat), LoadError>
    decreases k,
{
    if k == 0 {
        Ok((Seq::<u32>::empty(), p))
    } else {
        match m_u32s(s, p, (k - 1) as nat) {
            Err(e) => Err(e),
            Ok((v, q)) => match m_u32(s, q) {
                Err(e) => Err(e),
                Ok((x, q2)) => Ok((v.push(x), q2)),
            },
        }
    }
}

/// A norm: tag, epsilon, post-scale; the tag is checked last.
pub open spec fn m_norm(s: Seq<u8>, p: nat) -> Result<(NormMeta, nat), LoadError> {
    match m_u8(s, p) {
        Err(e) => Err(e),
        Ok((tag, p1)) => match m_i64(s, p1) {
            Err(e) => Err(e),
            Ok((eps_q, p2)) => match m_scale(s, p2) {
                Err(e) => Err(e),
                Ok((post_scale, p3)) => if tag == 0 {
                    Ok((NormMeta::Rms { eps_q, post_scale }, p3))
                } else if tag == 1 {
                    Ok((NormMeta::LayerNorm { eps_q, post_scale }, p3))
                } else {
                    Err(LoadError::UnknownNormTag(tag))
                },
            },
        },
    }
}

pub open spec fn attn_scales_of(v: Seq<Scale>) -> AttentionScales {
    AttentionScales { q: v[0], k: v[1], v: v[2], score: v[3], attn_out: v[4], o: v[5] }
}

pub open spec fn ffn_scales_of(v: Seq<Scale>) -> FfnScales {
    FfnScales { gate: v[0], up: v[1], mid: v[2], down: v[3] }
}

pub open spec fn dnet_scales_of(v: Seq<Scale>) -> DeltaNetScales {
    DeltaNetScales {
        q: v[0], k: v[1], v: v[2], alpha_logit: v[3], beta_logit: v[4],
        u: v[5], decay: v[6], update: v[7], o: v[8], proj: v[9],
    }
}

/// The block hidden size after `norm1`, checked against the model's.
pub open spec fn m_hidden(s: Seq<u8>, p: nat, idx: u32, want: u32) -> Result<(u32, nat), LoadError> {
    match m_u32(s, p) {
        Err(e) => Err(e),
        Ok((h, q)) => if h != want {
            Err(LoadError::LayerHiddenMismatch { layer_idx: idx, got: h, want })
        } else {
            Ok((h, q))
        },
    }
}

/// Norm, hidden, `n_dims` shape fields and `n_scales` scales: the common
/// head of every block.
pub open spec fn m_head(s: Seq<u8>, p: nat, idx: u32, want: u32, n_dims: nat, n_scales: nat)
    -> Result<(NormMeta, u32, Seq<u32>, Seq<Scale>, nat), LoadError>
{
    match m_norm(s, p) {
        Err(e) => Err(e),
        Ok((norm1, p1)) => match m_hidden(s, p1, idx, want) {
            Err(e) => Err(e),
            Ok((hidden, p2)) => match m_u32s(s, p2, n_dims) {
                Err(e) => Err(e),
                Ok((d, p3)) => match m_scales(s, p3, n_scales) {
                    Err(e) => Err(e),
                    Ok((sc, p4)) => Ok((norm1, hidden, d, sc, p4)),
                },
            },
        },
    }
}

/// `norm2`, the FFN width and its four scales.
pub open spec fn m_ffn_part(s: Seq<u8>, p: nat) -> Result<(NormMeta, u32, Seq<Scale>, nat), LoadError> {
    match m_norm(s, p) {
        Err(e) => Err(e),
        Ok((norm2, p1)) => match m_u32(s, p1) {
            Err(e) => Err(e),
            Ok((inter, p2)) => match m_scales(s, p2, 4) {
                Err(e) => Err(e),
                Ok((sc, p3)) => Ok((norm2, inter, sc, p3)),
            },
        },
    }
}

/// The Gemma fields after the attention scales.
pub open spec fn m_gemma_tail(s: Seq<u8>, p: nat)
    -> Result<(i64, Scale, NormMeta, NormMeta, u32, Seq<Scale>, NormMeta, u32, u8, u8, nat), LoadError>
{
    match m_i64(s, p) {
        Err(e) => Err(e),
        Ok((eps, p1)) => match m_scale(s, p1) {
            Err(e) => Err(e),
            Ok((qs, p2)) => match m_norm(s, p2) {
                Err(e) => Err(e),
                Ok((pan, p3)) => match m_ffn_part(s, p3) {
                    Err(e) => Err(e),
                    Ok((n2, inter, fs, p4)) => match m_norm(s, p4) {
                        Err(e) => Err(e),
                        Ok((pfn, p5)) => match m_u32(s, p5) {
                            Err(e) => Err(e),
                            Ok((sw, p6)) => match m_u8(s, p6) {
                                Err(e) => Err(e),
                                Ok((g, p7)) => match m_u8(s, p7) {
                                    Err(e) => Err(e),
                                    Ok((o, p8)) => Ok((eps, qs, pan, n2, inter, fs, pfn, sw, g, o, p8)),
                                },
                            },
                        },
                    },
                },
            },
        },
    }
}

/// The fields of an attention block after its tag.
pub open spec fn m_attn_body(s: Seq<u8>, p1: nat, idx: u32, want: u32) -> Result<(LayerMeta, nat), LoadError> {
    match m_head(s, p1, idx, want, 3, 6) {
        Err(e) => Err(e),
        Ok((norm1, hidden, d, sc, p2)) => match m_ffn_part(s, p2) {
            Err(e) => Err(e),
            Ok((norm2, inter, fs, p3)) => Ok((LayerMeta::Attention {
                norm1, hidden, num_q_heads: d[0], num_kv_heads: d[1], head_dim: d[2],
                attn_scales: attn_scales_of(sc), norm2, intermediate: inter, ffn_scales: ffn_scales_of(fs),
            }, p3)),
        },
    }
}

/// The fields of a DeltaNet block after its tag.
pub open spec fn m_dnet_body(s: Seq<u8>, p1: nat, idx: u32, want: u32) -> Result<(LayerMeta, nat), LoadError> {
    match m_head(s, p1, idx, want, 4, 10) {
        Err(e) => Err(e),
        Ok((norm1, hidden, d, sc, p2)) => match m_ffn_part(s, p2) {
            Err(e) => Err(e),
            Ok((norm2, inter, fs, p3)) => Ok((LayerMeta::DeltaNet {
                norm1, hidden, num_qk_heads: d[0], num_v_heads: d[1], head_dim_qk: d[2], head_dim_v: d[3],
                dnet_scales: dnet_scales_of(sc), norm2, intermediate: inter, ffn_scales: ffn_scales_of(fs),
            }, p3)),
        },
    }
}

/// The fields of a Gemma block after its tag.
pub open spec fn m_gemma_body(s: Seq<u8>, p1: nat, idx: u32, want: u32) -> Result<(LayerMeta, nat), LoadError> {
    match m_head(s, p1, idx, want, 3, 6) {
        Err(e) => Err(e),
        Ok((norm1, hidden, d, sc, p2)) => match m_gemma_tail(s, p2) {
            Err(e) => Err(e),
            Ok((eps, qs, pan, n2, inter, fs, pfn, sw, g, o, p3)) => Ok((LayerMeta::Gemma {
                norm1, hidden, num_q_heads: d[0], num_kv_heads: d[1], head_dim: d[2],
                attn_scales: attn_scales_of(sc), qk_norm_eps_q: eps, qk_norm_post_scale: qs,
                post_attn_norm: pan, norm2: n2, intermediate: inter, ffn_scales: ffn_scales_of(fs),
                post_ffn_norm: pfn, sliding_window: sw, has_inp_gate: g != 0,
                has_layer_output_scale: o != 0,
            }, p3)),
        },
    }
}

/// One block: its tag, then the fields of that kind.
pub open spec fn m_layer(s: Seq<u8>, p: nat, idx: u32, want: u32) -> Result<(LayerMeta, nat), LoadError> {
    match m_u8(s, p) {
        Err(e) => Err(e),
        Ok((tag, p1)) => if tag == 0 {
            m_attn_body(s, p1, idx, want)
        } else if tag == 1 {
            m_dnet_body(s, p1, idx, want)
        } else if tag == 2 {
            m_gemma_body(s, p1, idx, want)
        } else {
            Err(LoadError::UnknownLayerTag(tag))
        }
    }
}

/// `n` blocks in a row, the `k`-th with index `k`.
pub open spec fn m_layers(s: Seq<u8>, p: nat, n: nat, want: u32) -> Result<(Seq<LayerMeta>, nat), LoadError>
    decreases n,
{
    if n == 0 {
        Ok((Seq::<LayerMeta>::empty(), p))
    } else {
        match m_layers(s, p, (n - 1) as nat, want) {
            Err(e) => Err(e),
            Ok((v, q)) => match m_layer(s, q, (n - 1) as u32, want) {
                Err(e) => Err(e),
                Ok((x, q2)) => Ok((v.push(x), q2)),
            },
        }
    }
}

/// What the manifest parser returns for a byte string.
pub open spec fn manifest_spec(s: Seq<u8>) -> Result<ManifestView, LoadError> {
    if !m_room(s, 0, 8) {
        Err(m_eof(0))
    } else if s.subrange(0, 8) != magic_spec() {
        Err(LoadError::BadMagic)
    } else {
        match m_u32(s, 8) {
            Err(e) => Err(e),
            Ok((version, p1)) => if version != VERSION {
                Err(LoadError::UnsupportedVersion(version))
            } else if !m_room(s, p1, 16) {
                Err(m_eof(p1))
            } else {
                match m_u64(s, p1 + 16) {
                    Err(e) => Err(e),
                    Ok((ff, p2)) => match m_u32s(s, p2, 5) {
                        Err(e) => Err(e),
                        Ok((d, p3)) => manifest_rest_spec(s, s.subrange(p1 as int, (p1 + 16) as int), ff,
                            ModelDims { vocab: d[0], hidden: d[1], seq_len: d[2], activation_tile: d[3] }, d[4], p3),
                    },
                }
            },
        }
    }
}

/// The manifest after the dimensions and the block count.
pub open spec fn manifest_rest_spec(s: Seq<u8>, arch: Seq<u8>, ff: u64, dims: ModelDims, n: u32, p: nat) -> Result<ManifestView, LoadError> {
    match m_layers(s, p, n as nat, dims.hidden) {
        Err(e) => Err(e),
        Ok((layers, p1)) => match m_u8(s, p1) {
            Err(e) => Err(e),
            Ok((has_final, p2)) => {
                let fin: Result<(Option<NormMeta>, nat), LoadError> = if has_final == 1 {
                    match m_norm(s, p2) {
                        Err(e) => Err(e),
                        Ok((nm, q)) => Ok((Some(nm), q)),
                    }
                } else {
                    Ok((None, p2))
                };
                match fin {
                    Err(e) => Err(e),
                    Ok((final_norm, p3)) => match m_u32s(s, p3, 2) {
                        Err(e) => Err(e),
                        Ok((r, p4)) => match m_u8(s, p4) {
                            Err(e) => Err(e),
                            Ok((fk, p5)) => match m_u8(s, p5) {
                                Err(e) => Err(e),
                                Ok((sk, p6)) => if p6 != s.len() {
                                    Err(LoadError::ManifestTrailing)
                                } else {
                                    Ok(ManifestView {
                                        arch_tag: arch,
                                        feature_flags: ff,
                                        dims,
                                        layer_metas: layers,
                                        final_norm,
                                        rope_seq_len: r[0],
                                        rope_half_head_dim: r[1],
                                        ffn_activation_kind: kind_from_tag_spec(fk),
                                        sigmoid_lut_kind: kind_from_tag_spec(sk),
                                    })
                                },
                            },
                        },
                    },
                }
            },
        },
    }
}

// ----- manifest parser -----

/// A cursor read agrees with its specification: the value and the new
/// position on success, the same error on failure.
pub open spec fn agrees<T>(r: Result<T, LoadError>, q: usize, sp: Result<(T, nat), LoadError>) -> bool {
    match sp {
        Ok((v, p)) => r == Ok::<T, LoadError>(v) && q == p,
        Err(e) => r == Err::<T, LoadError>(e),
    }
}

/// The same for a read that yields a list.
pub open spec fn agrees_vec<T>(r: Result<Vec<T>, LoadError>, q: usize, sp: Result<(Seq<T>, nat), LoadError>) -> bool {
    match sp {
        Ok((v, p)) => r is Ok && r->Ok_0@ == v && q == p,
        Err(e) => r is Err && r->Err_0 == e,
    }
}

fn c_u8(s: &[u8], pos: &mut usize) -> (r: Result<u8, LoadError>)
    requires
        *old(pos) <= s@.len(),
    ensures
        *final(pos) <= s@.len(),
        agrees(r, *final(pos), m_u8(s@, *old(pos) as nat)),
{
    if s.len() - *pos < 1 {
        return Err(LoadError::ManifestEof(*pos as u64));
    }
    let v = s[*pos];
    *pos = *pos + 1;
    Ok(v)
}

fn c_u32(s: &[u8], pos: &mut usize) -> (r: Result<u32, LoadError>)
    requires
        *old(pos) <= s@.len(),
    ensures
        *final(pos) <= s@.len(),
        agrees(r, *final(pos), m_u32(s@, *old(pos) as nat)),
{
    if s.len() - *pos < 4 {
        return Err(LoadError::ManifestEof(*pos as u64));
    }
    let v = read_u32(s, *pos);
    *pos = *pos + 4;
    Ok(v)
}

fn c_u64(s: &[u8], pos: &mut usize) -> (r: Result<u64, LoadError>)
    requires
        *old(pos) <= s@.len(),
    ensures
        *final(pos) <= s@.len(),
        agrees(r, *final(pos), m_u64(s@, *old(pos) as nat)),
{
    if s.len() - *pos < 8 {
        return Err(LoadError::ManifestEof(*pos as u64));
    }
    let v = read_u64(s, *pos);
    *pos = *pos + 8;
    Ok(v)
}

fn c_i64(s: &[u8], pos: &mut usize) -> (r: Result<i64, LoadError>)
    requires
        *old(pos) <= s@.len(),
    ensures
        *final(pos) <= s@.len(),
        agrees(r, *final(pos), m_i64(s@, *old(pos) as nat)),
{
    if s.len() - *pos < 8 {
        return Err(LoadError::ManifestEof(*pos as u64));
    }
    let v = read_i64(s, *pos);
    *pos = *pos + 8;
    Ok(v)
}

fn c_scale(s: &[u8], pos: &mut usize) -> (r: Result<Scale, LoadError>)
    requires
        *old(pos) <= s@.len(),
    ensures
        *final(pos) <= s@.len(),
        agrees(r, *final(pos), m_scale(s@, *old(pos) as nat)),
{
    if s.len() - *pos < 4 {
        return Err(LoadError::ManifestEof(*pos as u64));
    }
    let x = read_i32(s, *pos);
    *pos = *pos + 4;
    match Scale::from_num(x) {
        Ok(sc) => Ok(sc),
        Err(e) => Err(LoadError::Scale(e)),
    }
}

proof fn lemma_m_scales_err(s: Seq<u8>, p: nat, k: nat, m: nat)
    requires
        k <= m,
        m_scales(s, p, k) is Err,
    ensures
        m_scales(s, p, m) == m_scales(s, p, k),
    decreases m - k,
{
    if k < m {
        lemma_m_scales_err(s, p, k, (m - 1) as nat);
    }
}

proof fn lemma_m_u32s_err(s: Seq<u8>, p: nat, k: nat, m: nat)
    requires
        k <= m,
        m_u32s(s, p, k) is Err,
    ensures
        m_u32s(s, p, m) == m_u32s(s, p, k),
    decreases m - k,
{
    if k < m {
        lemma_m_u32s_err(s, p, k, (m - 1) as nat);
    }
}

fn c_scales(s: &[u8], pos: &mut usize, k: usize) -> (r: Result<Vec<Scale>, LoadError>)
    requires
        *old(pos) <= s@.len(),
    ensures
        *final(pos) <= s@.len(),
        agrees_vec(r, *final(pos), m_scales(s@, *old(pos) as nat, k as nat)),
        r is Ok ==> r->Ok_0@.len() == k,
{
    let mut v: Vec<Scale> = Vec::new();
    let mut i: usize = 0;
    while i < k
        invariant
            i <= k,
            *pos <= s@.len(),
            m_scales(s@, *old(pos) as nat, i as nat) == Ok::<(Seq<Scale>, nat), LoadError>((v@, *pos as nat)),
            v@.len() == i,
        decreases k - i,
    {
        match c_scale(s, pos) {
            Ok(x) => { v.push(x); },
            Err(e) => {
                proof { lemma_m_scales_err(s@, *old(pos) as nat, (i + 1) as nat, k as nat); }
                return Err(e);
            },
        }
        i = i + 1;
    }
    Ok(v)
}

fn c_u32s(s: &[u8], pos: &mut usize, k: usize) -> (r: Result<Vec<u32>, LoadError>)
    requires
        *old(pos) <= s@.len(),
    ensures
        *final(pos) <= s@.len(),
        agrees_vec(r, *final(pos), m_u32s(s@, *old(pos) as nat, k as nat)),
        r is Ok ==> r->Ok_0@.len() == k,
{
    let mut v: Vec<u32> = Vec::new();
    let mut i: usize = 0;
    while i < k
        invariant
            i <= k,
            *pos <= s@.len(),
            m_u32s(s@, *old(pos) as nat, i as nat) == Ok::<(Seq<u32>, nat), LoadError>((v@, *pos as nat)),
            v@.len() == i,
        decreases k - i,
    {
        match c_u32(s, pos) {
            Ok(x) => { v.push(x); },
            Err(e) => {
                proof { lemma_m_u32s_err(s@, *old(pos) as nat, (i + 1) as nat, k as nat); }
                return Err(e);
            },
        }
        i = i + 1;
    }
    Ok(v)
}

fn c_norm(s: &[u8], pos: &mut usize) -> (r: Result<NormMeta, LoadError>)
    requires
        *old(pos) <= s@.len(),
    ensures
        *final(pos) <= s@.len(),
        agrees(r, *final(pos), m_norm(s@, *old(pos) as nat)),
{
    let tag = match c_u8(s, pos) { Ok(v) => v, Err(e) => { return Err(e); } };
    let eps_q = match c_i64(s, pos) { Ok(v) => v, Err(e) => { return Err(e); } };
    let post_scale = match c_scale(s, pos) { Ok(v) => v, Err(e) => { return Err(e); } };
    if tag == 0 {
        Ok(NormMeta::Rms { eps_q, post_scale })
    } else if tag == 1 {
        Ok(NormMeta::LayerNorm { eps_q, post_scale })
    } else {
        Err(LoadError::UnknownNormTag(tag))
    }
}

fn c_hidden(s: &[u8], pos: &mut usize, idx: u32, want: u32) -> (r: Result<u32, LoadError>)
    requires
        *old(pos) <= s@.len(),
    ensures
        *final(pos) <= s@.len(),
        agrees(r, *final(pos), m_hidden(s@, *old(pos) as nat, idx, want)),
{
    let h = match c_u32(s, pos) { Ok(v) => v, Err(e) => { return Err(e); } };
    if h != want {
        return Err(LoadError::LayerHiddenMismatch { layer_idx: idx, got: h, want });
    }
    Ok(h)
}

fn c_attn_body(s: &[u8], pos: &mut usize, idx: u32, want: u32) -> (r: Result<LayerMeta, LoadError>)
    requires
        *old(pos) <= s@.len(),
    ensures
        *final(pos) <= s@.len(),
        agrees(r, *final(pos), m_attn_body(s@, *old(pos) as nat, idx, want)),
{
    let norm1 = match c_norm(s, pos) { Ok(v) => v, Err(e) => { return Err(e); } };
    let hidden = match c_hidden(s, pos, idx, want) { Ok(v) => v, Err(e) => { return Err(e); } };
    let d = match c_u32s(s, pos, 3) { Ok(v) => v, Err(e) => { return Err(e); } };
    let sc = match c_scales(s, pos, 6) { Ok(v) => v, Err(e) => { return Err(e); } };
    let norm2 = match c_norm(s, pos) { Ok(v) => v, Err(e) => { return Err(e); } };
    let inter = match c_u32(s, pos) { Ok(v) => v, Err(e) => { return Err(e); } };
    let fs = match c_scales(s, pos, 4) { Ok(v) => v, Err(e) => { return Err(e); } };
    Ok(LayerMeta::Attention {
        norm1,
        hidden,
        num_q_heads: d[0],
        num_kv_heads: d[1],
        head_dim: d[2],
        attn_scales: AttentionScales { q: sc[0], k: sc[1], v: sc[2], score: sc[3], attn_out: sc[4], o: sc[5] },
        norm2,
        intermediate: inter,
        ffn_scales: FfnScales { gate: fs[0], up: fs[1], mid: fs[2], down: fs[3] },
    })
}

fn c_dnet_body(s: &[u8], pos: &mut usize, idx: u32, want: u32) -> (r: Result<LayerMeta, LoadError>)
    requires
        *old(pos) <= s@.len(),
    ensures
        *final(pos) <= s@.len(),
        agrees(r, *final(pos), m_dnet_body(s@, *old(pos) as nat, idx, want)),
{
    let norm1 = match c_norm(s, pos) { Ok(v) => v, Err(e) => { return Err(e); } };
    let hidden = match c_hidden(s, pos, idx, want) { Ok(v) => v, Err(e) => { return Err(e); } };
    let d = match c_u32s(s, pos, 4) { Ok(v) => v, Err(e) => { return Err(e); } };
    let sc = match c_scales(s, pos, 10) { Ok(v) => v, Err(e) => { return Err(e); } };
    let norm2 = match c_norm(s, pos) { Ok(v) => v, Err(e) => { return Err(e); } };
    let inter = match c_u32(s, pos) { Ok(v) => v, Err(e) => { return Err(e); } };
    let fs = match c_scales(s, pos, 4) { Ok(v) => v, Err(e) => { return Err(e); } };
    Ok(LayerMeta::DeltaNet {
        norm1,
        hidden,
        num_qk_heads: d[0],
        num_v_heads: d[1],
        head_dim_qk: d[2],
        head_dim_v: d[3],
        dnet_scales: DeltaNetScales {
            q: sc[0], k: sc[1], v: sc[2], alpha_logit: sc[3], beta_logit: sc[4],
            u: sc[5], decay: sc[6], update: sc[7], o: sc[8], proj: sc[9],
        },
        norm2,
        intermediate: inter,
        ffn_scales: FfnScales { gate: fs[0], up: fs[1], mid: fs[2], down: fs[3] },
    })
}

fn c_gemma_body(s: &[u8], pos: &mut usize, idx: u32, want: u32) -> (r: Result<LayerMeta, LoadError>)
    requires
        *old(pos) <= s@.len(),
    ensures
        *final(pos) <= s@.len(),
        agrees(r, *final(pos), m_gemma_body(s@, *old(pos) as nat, idx, want)),
{
    let norm1 = match c_norm(s, pos) { Ok(v) => v, Err(e) => { return Err(e); } };
    let hidden = match c_hidden(s, pos, idx, want) { Ok(v) => v, Err(e) => { return Err(e); } };
    let d = match c_u32s(s, pos, 3) { Ok(v) => v, Err(e) => { return Err(e); } };
    let sc = match c_scales(s, pos, 6) { Ok(v) => v, Err(e) => { return Err(e); } };
    let eps = match c_i64(s, pos) { Ok(v) => v, Err(e) => { return Err(e); } };
    let qs = match c_scale(s, pos) { Ok(v) => v, Err(e) => { return Err(e); } };
    let pan = match c_norm(s, pos) { Ok(v) => v, Err(e) => { return Err(e); } };
    let norm2 = match c_norm(s, pos) { Ok(v) => v, Err(e) => { return Err(e); } };
    let inter = match c_u32(s, pos) { Ok(v) => v, Err(e) => { return Err(e); } };
    let fs = match c_scales(s, pos, 4) { Ok(v) => v, Err(e) => { return Err(e); } };
    let pfn = match c_norm(s, pos) { Ok(v) => v, Err(e) => { return Err(e); } };
    let sw = match c_u32(s, pos) { Ok(v) => v, Err(e) => { return Err(e); } };
    let g = match c_u8(s, pos) { Ok(v) => v, Err(e) => { return Err(e); } };
    let o = match c_u8(s, pos) { Ok(v) => v, Err(e) => { return Err(e); } };
    Ok(LayerMeta::Gemma {
        norm1,
        hidden,
        num_q_heads: d[0],
        num_kv_heads: d[1],
        head_dim: d[2],
        attn_scales: AttentionScales { q: sc[0], k: sc[1], v: sc[2], score: sc[3], attn_out: sc[4], o: sc[5] },
        qk_norm_eps_q: eps,
        qk_norm_post_scale: qs,
        post_attn_norm: pan,
        norm2,
        intermediate: inter,
        ffn_scales: FfnScales { gate: fs[0], up: fs[1], mid: fs[2], down: fs[3] },
        post_ffn_norm: pfn,
        sliding_window: sw,
        has_inp_gate: g != 0,
        has_layer_output_scale: o != 0,
    })
}

fn c_layer(s: &[u8], pos: &mut usize, idx: u32, want: u32) -> (r: Result<LayerMeta, LoadError>)
    requires
        *old(pos) <= s@.len(),
    ensures
        *final(pos) <= s@.len(),
        agrees(r, *final(pos), m_layer(s@, *old(pos) as nat, idx, want)),
{
    let tag = match c_u8(s, pos) { Ok(v) => v, Err(e) => { return Err(e); } };
    if tag == 0 {
        c_attn_body(s, pos, idx, want)
    } else if tag == 1 {
        c_dnet_body(s, pos, idx, want)
    } else if tag == 2 {
        c_gemma_body(s, pos, idx, want)
    } else {
        Err(LoadError::UnknownLayerTag(tag))
    }
}

proof fn lemma_m_layers_err(s: Seq<u8>, p: nat, k: nat, m: nat, want: u32)
    requires
        k <= m,
        m_layers(s, p, k, want) is Err,
    ensures
        m_layers(s, p, m, want) == m_layers(s, p, k, want),
    decreases m - k,
{
    if k < m {
        lemma_m_layers_err(s, p, k, (m - 1) as nat, want);
    }
}

fn c_layers(s: &[u8], pos: &mut usize, n: u32, want: u32) -> (r: Result<Vec<LayerMeta>, LoadError>)
    requires
        *old(pos) <= s@.len(),
    ensures
        *final(pos) <= s@.len(),
        agrees_vec(r, *final(pos), m_layers(s@, *old(pos) as nat, n as nat, want)),
{
    let mut v: Vec<LayerMeta> = Vec::new();
    let mut i: u32 = 0;
    while i < n
        invariant
            i <= n,
            *pos <= s@.len(),
            m_layers(s@, *old(pos) as nat, i as nat, want) == Ok::<(Seq<LayerMeta>, nat), LoadError>((v@, *pos as nat)),
        decreases n - i,
    {
        match c_layer(s, pos, i, want) {
            Ok(x) => { v.push(x); },
            Err(e) => {
                proof { lemma_m_layers_err(s@, *old(pos) as nat, (i + 1) as nat, n as nat, want); }
                return Err(e);
            },
        }
        i = i + 1;
    }
    Ok(v)
}

/// A manifest parse result, by value.
pub open spec fn manifest_result(r: Result<ParsedManifest, LoadError>) -> Result<ManifestView, LoadError> {
    match r {
        Ok(m) => Ok(m@),
        Err(e) => Err(e),
    }
}

fn manifest_rest(s: &[u8], pos: usize, arch_tag: [u8; 16], feature_flags: u64, dims: ModelDims, n: u32)
    -> (r: Result<ParsedManifest, LoadError>)
    requires
        pos <= s@.len(),
    ensures
        manifest_result(r) == manifest_rest_spec(s@, arch_tag@, feature_flags, dims, n, pos as nat),
{
    let mut pos = pos;
    let layer_metas = match c_layers(s, &mut pos, n, dims.hidden) { Ok(v) => v, Err(e) => { return Err(e); } };
    let has_final = match c_u8(s, &mut pos) { Ok(v) => v, Err(e) => { return Err(e); } };
    let final_norm = if has_final == 1 {
        match c_norm(s, &mut pos) { Ok(v) => Some(v), Err(e) => { return Err(e); } }
    } else {
        None
    };
    let r = match c_u32s(s, &mut pos, 2) { Ok(v) => v, Err(e) => { return Err(e); } };
    let fk = match c_u8(s, &mut pos) { Ok(v) => v, Err(e) => { return Err(e); } };
    let sk = match c_u8(s, &mut pos) { Ok(v) => v, Err(e) => { return Err(e); } };
    if pos != s.len() {
        return Err(LoadError::ManifestTrailing);
    }
    Ok(ParsedManifest {
        arch_tag,
        feature_flags,
        dims,
        layer_metas,
        final_norm,
        rope_seq_len: r[0],
        rope_half_head_dim: r[1],
        ffn_activation_kind: kind_from_tag(fk),
        sigmoid_lut_kind: kind_from_tag(sk),
    })
}

/// Parse `manifest.bin`; see `manifest_spec`.
pub fn parse_manifest(s: &[u8]) -> (r: Result<ParsedManifest, LoadError>)
    ensures
        manifest_result(r) == manifest_spec(s@),
{
    if s.len() < 8 {
        return Err(LoadError::ManifestEof(0));
    }
    let magic: [u8; 8] = [65u8, 73, 80, 79, 87, 86, 73, 49];
    proof {
        assert(magic@ =~= magic_spec());
    }
    let mut k: usize = 0;
    while k < 8
        invariant
            k <= 8,
            8 <= s@.len(),
            magic@ == magic_spec(),
            forall|t: int| 0 <= t < k ==> s@[t] == magic@[t],
        decreases 8 - k,
    {
        if s[k] != magic[k] {
            proof {
                assert(s@.subrange(0, 8)[k as int] != magic_spec()[k as int]);
            }
            return Err(LoadError::BadMagic);
        }
        k = k + 1;
    }
    proof {
        assert(s@.subrange(0, 8) =~= magic_spec());
    }
    let mut pos: usize = 8;
    let version = match c_u32(s, &mut pos) { Ok(v) => v, Err(e) => { return Err(e); } };
    if version != VERSION {
        return Err(LoadError::UnsupportedVersion(version));
    }
    if s.len() - pos < 16 {
        return Err(LoadError::ManifestEof(pos as u64));
    }
    let mut arch_tag = [0u8; 16];
    let mut t: usize = 0;
    let slen = s.len();
    while t < 16
        invariant
            t <= 16,
            slen == s@.len(),
            pos + 16 <= slen,
            forall|q: int| 0 <= q < t ==> arch_tag@[q] == s@[pos + q],
        decreases 16 - t,
    {
        arch_tag[t] = s[pos + t];
        t = t + 1;
    }
    proof {
        assert(arch_tag@ =~= s@.subrange(pos as int, pos + 16));
    }
    pos = pos + 16;
    let ff = match c_u64(s, &mut pos) { Ok(v) => v, Err(e) => { return Err(e); } };
    let d = match c_u32s(s, &mut pos, 5) { Ok(v) => v, Err(e) => { return Err(e); } };
    let dims = ModelDims { vocab: d[0], hidden: d[1], seq_len: d[2], activation_tile: d[3] };
    manifest_rest(s, pos, arch_tag, ff, dims, d[4])
}

// ----- the weight stream -----

/// Bytes reinterpreted as `i8`.
pub open spec fn i8s_of(b: Seq<u8>) -> Seq<i8> {
    Seq::new(b.len(), |i: int| b[i] as i8)
}

/// Little-endian `i16`s of a byte string.
pub open spec fn i16s_of(b: Seq<u8>) -> Seq<i16> {
    Seq::new(b.len() / 2, |i: int| to_signed(le_val(b.subrange(2 * i, 2 * i + 2)), 2) as i16)
}

/// Tensor sizes of a norm.
pub open spec fn norm_sizes(nm: NormMeta, hu: nat) -> Seq<nat> {
    match nm {
        NormMeta::Rms { .. } => seq![hu],
        NormMeta::LayerNorm { .. } => seq![hu, hu],
    }
}

/// Tensor sizes of an attention block.
pub open spec fn attn_sizes(n1: NormMeta, q: nat, kv: nat, n2: NormMeta, i: nat, hu: nat) -> Seq<nat> {
    norm_sizes(n1, hu) + seq![hu * q, hu * kv, hu * kv, q * hu] + norm_sizes(n2, hu) + seq![hu * i, hu * i, i * hu]
}

/// Tensor sizes of a DeltaNet block.
pub open spec fn dnet_sizes(n1: NormMeta, qk: nat, v: nat, nh: nat, n2: NormMeta, i: nat, hu: nat) -> Seq<nat> {
    norm_sizes(n1, hu) + seq![hu * qk, hu * qk, hu * v, hu * nh, hu * nh, v * hu] + norm_sizes(n2, hu)
        + seq![hu * i, hu * i, i * hu]
}

/// Tensor sizes of a Gemma block up to its FFN.
pub open spec fn gemma_head_sizes(n1: NormMeta, q: nat, kv: nat, hd: nat, pan: NormMeta, n2: NormMeta, hu: nat) -> Seq<nat> {
    norm_sizes(n1, hu) + seq![hu * q, hu * kv, hu * kv, q * hu, hd, hd] + norm_sizes(pan, hu) + norm_sizes(n2, hu)
}

/// Tensor sizes of a Gemma block from its FFN on.
pub open spec fn gemma_tail_sizes(i: nat, pfn: NormMeta, g: bool, o: bool, hu: nat) -> Seq<nat> {
    seq![hu * i, hu * i, i * hu] + norm_sizes(pfn, hu)
        + (if g { seq![hu] } else { Seq::<nat>::empty() })
        + (if o { seq![hu] } else { Seq::<nat>::empty() })
}

/// Tensor sizes of a Gemma block.
pub open spec fn gemma_sizes(n1: NormMeta, q: nat, kv: nat, hd: nat, pan: NormMeta, n2: NormMeta, i: nat,
    pfn: NormMeta, g: bool, o: bool, hu: nat) -> Seq<nat>
{
    gemma_head_sizes(n1, q, kv, hd, pan, n2, hu) + gemma_tail_sizes(i, pfn, g, o, hu)
}

/// Tensor sizes of a block, in stream order.
pub open spec fn layer_sizes(lm: LayerMeta, hu: nat) -> Seq<nat> {
    match lm {
        LayerMeta::Attention { norm1, num_q_heads, num_kv_heads, head_dim, norm2, intermediate, .. } =>
            attn_sizes(norm1, (num_q_heads * head_dim) as nat, (num_kv_heads * head_dim) as nat, norm2,
                intermediate as nat, hu),
        LayerMeta::DeltaNet { norm1, num_qk_heads, num_v_heads, head_dim_qk, head_dim_v, norm2, intermediate, .. } =>
            dnet_sizes(norm1, (num_qk_heads * head_dim_qk) as nat, (num_v_heads * head_dim_v) as nat,
                num_qk_heads as nat, norm2, intermediate as nat, hu),
        LayerMeta::Gemma {
            norm1, num_q_heads, num_kv_heads, head_dim, post_attn_norm, norm2, intermediate, post_ffn_norm,
            has_inp_gate, has_layer_output_scale, ..
        } =>
            gemma_sizes(norm1, (num_q_heads * head_dim) as nat, (num_kv_heads * head_dim) as nat, head_dim as nat,
                post_attn_norm, norm2, intermediate as nat, post_ffn_norm, has_inp_gate, has_layer_output_scale, hu),
    }
}

/// Tensor sizes of a list of blocks.
pub open spec fn layers_sizes(ls: Seq<LayerMeta>, hu: nat) -> Seq<nat>
    decreases ls.len(),
{
    if ls.len() == 0 {
        Seq::<nat>::empty()
    } else {
        layers_sizes(ls.drop_last(), hu) + layer_sizes(ls.last(), hu)
    }
}

/// Tensor sizes of the final norm, if any.
pub open spec fn final_sizes(f: Option<NormMeta>, hu: nat) -> Seq<nat> {
    match f {
        Some(nm) => norm_sizes(nm, hu),
        None => Seq::<nat>::empty(),
    }
}

/// Sizes of the stream's segments up to and including the RoPE header:
/// embedding, blocks, final norm, two activation LUTs, the exp LUT, and the
/// eight-byte table header.
pub open spec fn fixed_sizes(pm: ManifestView) -> Seq<nat> {
    let hu = pm.dims.hidden as nat;
    seq![pm.dims.vocab as nat * hu] + layers_sizes(pm.layer_metas, hu) + final_sizes(pm.final_norm, hu)
        + seq![256nat, 256nat, 1024nat, 8nat]
}

/// Sum of sizes.
pub open spec fn psum(v: Seq<nat>) -> nat
    decreases v.len(),
{
    if v.len() == 0 { 0 } else { psum(v.drop_last()) + v.last() }
}

/// Offset of the first segment that does not fit in `len` bytes.
pub open spec fn first_short(v: Seq<nat>, len: nat) -> Option<nat>
    decreases v.len(),
{
    if v.len() == 0 {
        None
    } else {
        match first_short(v.drop_last(), len) {
            Some(p) => Some(p),
            None => if psum(v.drop_last()) + v.last() > len { Some(psum(v.drop_last())) } else { None },
        }
    }
}

/// Segment `k` of `b` under the sizes `v`.
pub open spec fn seg(b: Seq<u8>, v: Seq<nat>, k: int) -> Seq<u8> {
    b.subrange(psum(v.take(k)) as int, (psum(v.take(k)) + v[k]) as int)
}

/// The products of the manifest that the reader computes stay in range.
pub open spec fn layer_meta_fits(lm: LayerMeta) -> bool {
    match lm {
        LayerMeta::Attention { num_q_heads, num_kv_heads, head_dim, .. } =>
            num_q_heads * head_dim <= u32::MAX && num_kv_heads * head_dim <= u32::MAX,
        LayerMeta::DeltaNet { num_qk_heads, num_v_heads, head_dim_qk, head_dim_v, .. } =>
            num_qk_heads * head_dim_qk <= u32::MAX && num_v_heads * head_dim_v <= u32::MAX,
        LayerMeta::Gemma { num_q_heads, num_kv_heads, head_dim, .. } =>
            num_q_heads * head_dim <= u32::MAX && num_kv_heads * head_dim <= u32::MAX,
    }
}

/// Every size the reader computes stays in range: the per-block head
/// products fit a `u32`, every segment and the RoPE tables stay below
/// `2^62` bytes.
pub open spec fn manifest_fits(pm: ManifestView) -> bool {
    &&& forall|k: int| 0 <= k < pm.layer_metas.len() ==> layer_meta_fits(#[trigger] pm.layer_metas[k])
    &&& forall|k: int| 0 <= k < fixed_sizes(pm).len() ==> #[trigger] fixed_sizes(pm)[k] < 0x4000_0000_0000_0000
    &&& pm.rope_seq_len * pm.rope_half_head_dim < 0x1000_0000_0000_0000
}

/// The error, if any, that reading the weight stream `b` against the
/// manifest `pm` ends in: the first segment that runs past the end, a RoPE
/// header that disagrees with the manifest, a table that runs past the end,
/// or bytes left over.
pub open spec fn weights_outcome(pm: ManifestView, b: Seq<u8>) -> Result<(), LoadError> {
    let v = fixed_sizes(pm);
    match first_short(v, b.len()) {
        Some(p) => Err(LoadError::WeightsEof(p as u64)),
        None => {
            let p0 = psum(v);
            let rs = le_val(b.subrange(p0 - 8, p0 - 4));
            let rh = le_val(b.subrange(p0 - 4, p0 as int));
            if rs != pm.rope_seq_len || rh != pm.rope_half_head_dim {
                Err(LoadError::Rope(RopeError::ShapeMismatch))
            } else {
                let n = rs * rh * 2;
                if p0 + n > b.len() {
                    Err(LoadError::WeightsEof(p0 as u64))
                } else if p0 + 2 * n > b.len() {
                    Err(LoadError::WeightsEof((p0 + n) as u64))
                } else if p0 + 2 * n != b.len() {
                    Err(LoadError::WeightsTrailing)
                } else {
                    Ok(())
                }
            }
        },
    }
}

/// Sizes held as `u64`, as naturals.
pub open spec fn nats(v: Seq<u64>) -> Seq<nat> {
    Seq::new(v.len(), |i: int| v[i] as nat)
}

fn push_size(v: &mut Vec<u64>, x: u64)
    ensures
        nats(final(v)@) == nats(old(v)@).push(x as nat),
{
    v.push(x);
    proof {
        assert(nats(v@) =~= nats(old(v)@).push(x as nat));
    }
}

fn push_norm_sizes(v: &mut Vec<u64>, nm: NormMeta, hu: u64)
    ensures
        nats(final(v)@) == nats(old(v)@) + norm_sizes(nm, hu as nat),
{
    let ghost v0 = nats(v@);
    match nm {
        NormMeta::Rms { .. } => {
            push_size(v, hu);
            proof { assert(v0.push(hu as nat) =~= v0 + seq![hu as nat]); }
        },
        NormMeta::LayerNorm { .. } => {
            push_size(v, hu);
            push_size(v, hu);
            proof { assert(v0.push(hu as nat).push(hu as nat) =~= v0 + seq![hu as nat, hu as nat]); }
        },
    }
}

fn push_attn_sizes(v: &mut Vec<u64>, n1: NormMeta, q: u64, kv: u64, n2: NormMeta, i: u64, hu: u64)
    requires
        hu <= u32::MAX,
        q <= u32::MAX,
        kv <= u32::MAX,
        i <= u32::MAX,
    ensures
        nats(final(v)@) == nats(old(v)@) + attn_sizes(n1, q as nat, kv as nat, n2, i as nat, hu as nat),
{
    proof {
        assert(hu * q <= 0xffff_ffff * 0xffff_ffff) by (nonlinear_arith) requires hu <= 0xffff_ffff, q <= 0xffff_ffff {}
        assert(hu * kv <= 0xffff_ffff * 0xffff_ffff) by (nonlinear_arith) requires hu <= 0xffff_ffff, kv <= 0xffff_ffff {}
        assert(hu * i <= 0xffff_ffff * 0xffff_ffff) by (nonlinear_arith) requires hu <= 0xffff_ffff, i <= 0xffff_ffff {}
    }
    let ghost v0 = nats(v@);
    push_norm_sizes(v, n1, hu);
    let ghost v1 = nats(v@);
    push_size(v, hu * q);
    push_size(v, hu * kv);
    push_size(v, hu * kv);
    push_size(v, q * hu);
    let ghost v2 = nats(v@);
    push_norm_sizes(v, n2, hu);
    let ghost v3 = nats(v@);
    push_size(v, hu * i);
    push_size(v, hu * i);
    push_size(v, i * hu);
    proof {
        assert(v2 =~= v1 + seq![(hu * q) as nat, (hu * kv) as nat, (hu * kv) as nat, (q * hu) as nat]);
        assert(nats(v@) =~= v3 + seq![(hu * i) as nat, (hu * i) as nat, (i * hu) as nat]);
        assert(nats(v@) =~= v0 + attn_sizes(n1, q as nat, kv as nat, n2, i as nat, hu as nat));
    }
}

fn push_dnet_sizes(v: &mut Vec<u64>, n1: NormMeta, qk: u64, vd: u64, nh: u64, n2: NormMeta, i: u64, hu: u64)
    requires
        hu <= u32::MAX,
        qk <= u32::MAX,
        vd <= u32::MAX,
        nh <= u32::MAX,
        i <= u32::MAX,
    ensures
        nats(final(v)@) == nats(old(v)@) + dnet_sizes(n1, qk as nat, vd as nat, nh as nat, n2, i as nat, hu as nat),
{
    proof {
        assert(hu * qk <= 0xffff_ffff * 0xffff_ffff) by (nonlinear_arith) requires hu <= 0xffff_ffff, qk <= 0xffff_ffff {}
        assert(hu * vd <= 0xffff_ffff * 0xffff_ffff) by (nonlinear_arith) requires hu <= 0xffff_ffff, vd <= 0xffff_ffff {}
        assert(hu * nh <= 0xffff_ffff * 0xffff_ffff) by (nonlinear_arith) requires hu <= 0xffff_ffff, nh <= 0xffff_ffff {}
        assert(hu * i <= 0xffff_ffff * 0xffff_ffff) by (nonlinear_arith) requires hu <= 0xffff_ffff, i <= 0xffff_ffff {}
    }
    let ghost v0 = nats(v@);
    push_norm_sizes(v, n1, hu);
    let ghost v1 = nats(v@);
    push_size(v, hu * qk);
    push_size(v, hu * qk);
    push_size(v, hu * vd);
    push_size(v, hu * nh);
    push_size(v, hu * nh);
    push_size(v, vd * hu);
    let ghost v2 = nats(v@);
    push_norm_sizes(v, n2, hu);
    let ghost v3 = nats(v@);
    push_size(v, hu * i);
    push_size(v, hu * i);
    push_size(v, i * hu);
    proof {
        assert(v2 =~= v1 + seq![(hu * qk) as nat, (hu * qk) as nat, (hu * vd) as nat, (hu * nh) as nat, (hu * nh) as nat, (vd * hu) as nat]);
        assert(nats(v@) =~= v3 + seq![(hu * i) as nat, (hu * i) as nat, (i * hu) as nat]);
        assert(nats(v@) =~= v0 + dnet_sizes(n1, qk as nat, vd as nat, nh as nat, n2, i as nat, hu as nat));
    }
}

fn push_gemma_head_sizes(v: &mut Vec<u64>, n1: NormMeta, q: u64, kv: u64, hd: u64, pan: NormMeta, n2: NormMeta, hu: u64)
    requires
        hu <= u32::MAX,
        q <= u32::MAX,
        kv <= u32::MAX,
    ensures
        nats(final(v)@) == nats(old(v)@) + gemma_head_sizes(n1, q as nat, kv as nat, hd as nat, pan, n2, hu as nat),
{
    proof {
        assert(hu * q <= 0xffff_ffff * 0xffff_ffff) by (nonlinear_arith) requires hu <= 0xffff_ffff, q <= 0xffff_ffff {}
        assert(hu * kv <= 0xffff_ffff * 0xffff_ffff) by (nonlinear_arith) requires hu <= 0xffff_ffff, kv <= 0xffff_ffff {}
    }
    let ghost v0 = nats(v@);
    push_norm_sizes(v, n1, hu);
    let ghost v1 = nats(v@);
    push_size(v, hu * q);
    push_size(v, hu * kv);
    push_size(v, hu * kv);
    push_size(v, q * hu);
    push_size(v, hd);
    push_size(v, hd);
    let ghost v2 = nats(v@);
    push_norm_sizes(v, pan, hu);
    let ghost v3 = nats(v@);
    push_norm_sizes(v, n2, hu);
    proof {
        assert(v2 =~= v1 + seq![(hu * q) as nat, (hu * kv) as nat, (hu * kv) as nat, (q * hu) as nat, hd as nat, hd as nat]);
        assert(nats(v@) =~= v0 + gemma_head_sizes(n1, q as nat, kv as nat, hd as nat, pan, n2, hu as nat));
    }
}

fn push_gemma_tail_sizes(v: &mut Vec<u64>, i: u64, pfn: NormMeta, g: bool, o: bool, hu: u64)
    requires
        hu <= u32::MAX,
        i <= u32::MAX,
    ensures
        nats(final(v)@) == nats(old(v)@) + gemma_tail_sizes(i as nat, pfn, g, o, hu as nat),
{
    proof {
        assert(hu * i <= 0xffff_ffff * 0xffff_ffff) by (nonlinear_arith) requires hu <= 0xffff_ffff, i <= 0xffff_ffff {}
    }
    let ghost v0 = nats(v@);
    push_size(v, hu * i);
    push_size(v, hu * i);
    push_size(v, i * hu);
    let ghost v4 = nats(v@);
    push_norm_sizes(v, pfn, hu);
    let ghost v5 = nats(v@);
    if g {
        push_size(v, hu);
    }
    let ghost v6 = nats(v@);
    if o {
        push_size(v, hu);
    }
    proof {
        assert(v4 =~= v0 + seq![(hu * i) as nat, (hu * i) as nat, (i * hu) as nat]);
        assert(v6 =~= v5 + (if g { seq![hu as nat] } else { Seq::<nat>::empty() }));
        assert(nats(v@) =~= v6 + (if o { seq![hu as nat] } else { Seq::<nat>::empty() }));
        assert(nats(v@) =~= v0 + gemma_tail_sizes(i as nat, pfn, g, o, hu as nat));
    }
}

fn push_gemma_sizes(v: &mut Vec<u64>, n1: NormMeta, q: u64, kv: u64, hd: u64, pan: NormMeta, n2: NormMeta,
    i: u64, pfn: NormMeta, g: bool, o: bool, hu: u64)
    requires
        hu <= u32::MAX,
        q <= u32::MAX,
        kv <= u32::MAX,
        i <= u32::MAX,
    ensures
        nats(final(v)@) == nats(old(v)@) + gemma_sizes(n1, q as nat, kv as nat, hd as nat, pan, n2, i as nat, pfn, g, o, hu as nat),
{
    let ghost v0 = nats(v@);
    push_gemma_head_sizes(v, n1, q, kv, hd, pan, n2, hu);
    push_gemma_tail_sizes(v, i, pfn, g, o, hu);
    proof {
        assert(nats(v@) =~= v0 + gemma_sizes(n1, q as nat, kv as nat, hd as nat, pan, n2, i as nat, pfn, g, o, hu as nat));
    }
}

fn push_layer_sizes(v: &mut Vec<u64>, lm: LayerMeta, hu: u64)
    requires
        layer_meta_fits(lm),
        hu <= u32::MAX,
    ensures
        nats(final(v)@) == nats(old(v)@) + layer_sizes(lm, hu as nat),
{
    match lm {
        LayerMeta::Attention { norm1, num_q_heads, num_kv_heads, head_dim, norm2, intermediate, .. } => {
            push_attn_sizes(v, norm1, num_q_heads as u64 * head_dim as u64, num_kv_heads as u64 * head_dim as u64,
                norm2, intermediate as u64, hu);
        },
        LayerMeta::DeltaNet { norm1, num_qk_heads, num_v_heads, head_dim_qk, head_dim_v, norm2, intermediate, .. } => {
            push_dnet_sizes(v, norm1, num_qk_heads as u64 * head_dim_qk as u64, num_v_heads as u64 * head_dim_v as u64,
                num_qk_heads as u64, norm2, intermediate as u64, hu);
        },
        LayerMeta::Gemma {
            norm1, num_q_heads, num_kv_heads, head_dim, post_attn_norm, norm2, intermediate, post_ffn_norm,
            has_inp_gate, has_layer_output_scale, ..
        } => {
            push_gemma_sizes(v, norm1, num_q_heads as u64 * head_dim as u64, num_kv_heads as u64 * head_dim as u64,
                head_dim as u64, post_attn_norm, norm2, intermediate as u64, post_ffn_norm, has_inp_gate,
                has_layer_output_scale, hu);
        },
    }
}

proof fn lemma_layers_sizes_push(ls: Seq<LayerMeta>, k: int, hu: nat)
    requires
        0 <= k < ls.len(),
    ensures
        layers_sizes(ls.take(k + 1), hu) == layers_sizes(ls.take(k), hu) + layer_sizes(ls[k], hu),
{
    assert(ls.take(k + 1).drop_last() =~= ls.take(k));
}

fn fixed_sizes_exec(pm: &ParsedManifest) -> (v: Vec<u64>)
    requires
        manifest_fits(pm@),
    ensures
        nats(v@) == fixed_sizes(pm@),
{
    fixed_sizes_partial(pm)
}

proof fn lemma_first_short_prefix(v: Seq<nat>, j: int, len: nat)
    requires
        0 <= j <= v.len(),
        first_short(v.take(j), len) is Some,
    ensures
        first_short(v, len) == first_short(v.take(j), len),
    decreases v.len(),
{
    if j == v.len() {
        assert(v.take(j) =~= v);
    } else {
        assert(v.drop_last().take(j) =~= v.take(j));
        lemma_first_short_prefix(v.drop_last(), j, len);
    }
}

proof fn lemma_take_last(v: Seq<nat>, k: int)
    requires
        0 <= k < v.len(),
    ensures
        v.take(k + 1).drop_last() == v.take(k),
        v.take(k + 1).last() == v[k],
{
    assert(v.take(k + 1).drop_last() =~= v.take(k));
}

/// Start offsets of the segments, or the end-of-stream error at the first
/// one that does not fit.
fn segment_offsets(len: usize, sizes: &Vec<u64>) -> (r: Result<Vec<u64>, LoadError>)
    ensures
        match first_short(nats(sizes@), len as nat) {
            Some(p) => r is Err && r->Err_0 == LoadError::WeightsEof(p as u64),
            None => r is Ok && r->Ok_0@.len() == sizes@.len()
                && psum(nats(sizes@)) <= len
                && forall|k: int| 0 <= k < sizes@.len() ==> (#[trigger] r->Ok_0@[k]) == psum(nats(sizes@).take(k)),
        },
{
    let ghost v = nats(sizes@);
    let mut offs: Vec<u64> = Vec::new();
    let mut p: usize = 0;
    let n = sizes.len();
    let mut k: usize = 0;
    proof {
        assert(v.take(0) =~= Seq::<nat>::empty());
    }
    while k < n
        invariant
            k <= n,
            n == sizes@.len(),
            v == nats(sizes@),
            p <= len,
            p == psum(v.take(k as int)),
            first_short(v.take(k as int), len as nat) is None,
            offs@.len() == k,
            forall|t: int| 0 <= t < k ==> (#[trigger] offs@[t]) == psum(v.take(t)),
        decreases n - k,
    {
        let sz = sizes[k];
        proof {
            lemma_take_last(v, k as int);
        }
        if sz > (len - p) as u64 {
            proof {
                lemma_first_short_prefix(v, k + 1, len as nat);
            }
            return Err(LoadError::WeightsEof(p as u64));
        }
        offs.push(p as u64);
        p = p + sz as usize;
        k = k + 1;
    }
    proof {
        assert(v.take(n as int) =~= v);
    }
    Ok(offs)
}

/// Tensor `k` of the stream.
pub open spec fn tensor_at(b: Seq<u8>, v: Seq<nat>, k: int) -> Seq<i8> {
    i8s_of(seg(b, v, k))
}

/// A norm read from segment `k` on: the manifest's flavor and scalars,
/// `gamma` (and `beta`) from the stream.
pub open spec fn norm_matches(ns: NormSpec, nm: NormMeta, b: Seq<u8>, v: Seq<nat>, k: int) -> bool {
    match nm {
        NormMeta::Rms { eps_q, post_scale } =>
            ns matches NormSpec::RmsNorm { gamma, eps_q: e, post_scale: ps }
                && e == eps_q && ps == post_scale && gamma@ == tensor_at(b, v, k),
        NormMeta::LayerNorm { eps_q, post_scale } =>
            ns matches NormSpec::LayerNorm { gamma, beta, eps_q: e, post_scale: ps }
                && e == eps_q && ps == post_scale && gamma@ == tensor_at(b, v, k) && beta@ == tensor_at(b, v, k + 1),
    }
}

pub open spec fn nlen(nm: NormMeta) -> int {
    match nm {
        NormMeta::Rms { .. } => 1,
        NormMeta::LayerNorm { .. } => 2,
    }
}

/// An attention block read from segment `k` on.
pub open spec fn attn_matches(lw: LayerWeights, lm: LayerMeta, b: Seq<u8>, v: Seq<nat>, k: int) -> bool {
    lm matches LayerMeta::Attention { norm1, hidden, num_q_heads, num_kv_heads, head_dim, attn_scales, norm2, intermediate, ffn_scales }
    && lw matches LayerWeights::Attention { norm1: n1, attn, attn_scales: a_s, norm2: n2, ffn, ffn_scales: f_s }
    && {
        let o = k + nlen(norm1);
        let o2 = o + 4 + nlen(norm2);
        &&& norm_matches(n1, norm1, b, v, k)
        &&& attn.hidden == hidden && attn.num_q_heads == num_q_heads && attn.num_kv_heads == num_kv_heads
        &&& attn.head_dim == head_dim
        &&& attn.w_q@ == tensor_at(b, v, o) && attn.w_k@ == tensor_at(b, v, o + 1)
        &&& attn.w_v@ == tensor_at(b, v, o + 2) && attn.w_o@ == tensor_at(b, v, o + 3)
        &&& a_s == attn_scales
        &&& norm_matches(n2, norm2, b, v, o + 4)
        &&& ffn.hidden == hidden && ffn.intermediate == intermediate
        &&& ffn.w_gate@ == tensor_at(b, v, o2) && ffn.w_up@ == tensor_at(b, v, o2 + 1) && ffn.w_down@ == tensor_at(b, v, o2 + 2)
        &&& f_s == ffn_scales
    }
}

/// A DeltaNet block read from segment `k` on.
pub open spec fn dnet_matches(lw: LayerWeights, lm: LayerMeta, b: Seq<u8>, v: Seq<nat>, k: int) -> bool {
    lm matches LayerMeta::DeltaNet { norm1, hidden, num_qk_heads, num_v_heads, head_dim_qk, head_dim_v, dnet_scales, norm2, intermediate, ffn_scales }
    && lw matches LayerWeights::DeltaNet { norm1: n1, dnet, dnet_scales: d_s, norm2: n2, ffn, ffn_scales: f_s }
    && {
        let o = k + nlen(norm1);
        let o2 = o + 6 + nlen(norm2);
        &&& norm_matches(n1, norm1, b, v, k)
        &&& dnet.hidden == hidden && dnet.num_qk_heads == num_qk_heads && dnet.num_v_heads == num_v_heads
        &&& dnet.head_dim_qk == head_dim_qk && dnet.head_dim_v == head_dim_v
        &&& dnet.w_q@ == tensor_at(b, v, o) && dnet.w_k@ == tensor_at(b, v, o + 1)
        &&& dnet.w_v@ == tensor_at(b, v, o + 2) && dnet.w_alpha@ == tensor_at(b, v, o + 3)
        &&& dnet.w_beta@ == tensor_at(b, v, o + 4) && dnet.w_o@ == tensor_at(b, v, o + 5)
        &&& d_s == dnet_scales
        &&& norm_matches(n2, norm2, b, v, o + 6)
        &&& ffn.hidden == hidden && ffn.intermediate == intermediate
        &&& ffn.w_gate@ == tensor_at(b, v, o2) && ffn.w_up@ == tensor_at(b, v, o2 + 1) && ffn.w_down@ == tensor_at(b, v, o2 + 2)
        &&& f_s == ffn_scales
    }
}

/// An optional per-channel tensor read at segment `k` when present.
pub open spec fn opt_matches(x: Option<Vec<i8>>, present: bool, b: Seq<u8>, v: Seq<nat>, k: int) -> bool {
    if present { x matches Some(t) && t@ == tensor_at(b, v, k) } else { x is None }
}

/// A Gemma block read from segment `k` on.
pub open spec fn gemma_matches(lw: LayerWeights, lm: LayerMeta, b: Seq<u8>, v: Seq<nat>, k: int) -> bool {
    lm matches LayerMeta::Gemma {
        norm1, hidden, num_q_heads, num_kv_heads, head_dim, attn_scales, qk_norm_eps_q, qk_norm_post_scale,
        post_attn_norm, norm2, intermediate, ffn_scales, post_ffn_norm, sliding_window, has_inp_gate,
        has_layer_output_scale,
    }
    && lw matches LayerWeights::Gemma {
        norm1: n1, attn, attn_scales: a_s, q_norm_gamma, k_norm_gamma, qk_norm_eps_q: e, qk_norm_post_scale: qs,
        post_attn_norm: pan, norm2: n2, ffn, ffn_scales: f_s, post_ffn_norm: pfn, sliding_window: sw, inp_gate,
        layer_output_scale,
    }
    && {
        let o = k + nlen(norm1);
        let o2 = o + 6 + nlen(post_attn_norm) + nlen(norm2);
        let o3 = o2 + 3 + nlen(post_ffn_norm);
        &&& norm_matches(n1, norm1, b, v, k)
        &&& attn.hidden == hidden && attn.num_q_heads == num_q_heads && attn.num_kv_heads == num_kv_heads
        &&& attn.head_dim == head_dim
        &&& attn.w_q@ == tensor_at(b, v, o) && attn.w_k@ == tensor_at(b, v, o + 1)
        &&& attn.w_v@ == tensor_at(b, v, o + 2) && attn.w_o@ == tensor_at(b, v, o + 3)
        &&& q_norm_gamma@ == tensor_at(b, v, o + 4) && k_norm_gamma@ == tensor_at(b, v, o + 5)
        &&& a_s == attn_scales && e == qk_norm_eps_q && qs == qk_norm_post_scale
        &&& norm_matches(pan, post_attn_norm, b, v, o + 6)
        &&& norm_matches(n2, norm2, b, v, o + 6 + nlen(post_attn_norm))
        &&& ffn.hidden == hidden && ffn.intermediate == intermediate
        &&& ffn.w_gate@ == tensor_at(b, v, o2) && ffn.w_up@ == tensor_at(b, v, o2 + 1) && ffn.w_down@ == tensor_at(b, v, o2 + 2)
        &&& f_s == ffn_scales
        &&& norm_matches(pfn, post_ffn_norm, b, v, o2 + 3)
        &&& sw == (if sliding_window == 0 { None } else { Some(sliding_window) })
        &&& opt_matches(inp_gate, has_inp_gate, b, v, o3)
        &&& opt_matches(layer_output_scale, has_layer_output_scale, b, v, o3 + (if has_inp_gate { 1int } else { 0int }))
    }
}

/// A block read from segment `k` on, of the manifest's kind.
#[verifier::opaque]
pub open spec fn layer_matches(lw: LayerWeights, lm: LayerMeta, b: Seq<u8>, v: Seq<nat>, k: int) -> bool {
    match lm {
        LayerMeta::Attention { .. } => attn_matches(lw, lm, b, v, k),
        LayerMeta::DeltaNet { .. } => dnet_matches(lw, lm, b, v, k),
        LayerMeta::Gemma { .. } => gemma_matches(lw, lm, b, v, k),
    }
}

/// The model read from the weight stream `b` under the manifest `pm`: every
/// scalar from the manifest, every tensor from its segment of the stream,
/// the exp LUT decoded from its 1024 bytes, the RoPE tables from the bytes
/// after the header.
pub open spec fn model_matches(m: Model, pm: ManifestView, b: Seq<u8>) -> bool {
    let v = fixed_sizes(pm);
    let hu = pm.dims.hidden as nat;
    let ls = pm.layer_metas;
    let fb = (1 + layers_sizes(ls, hu).len()) as int;
    let t = fb + final_sizes(pm.final_norm, hu).len() as int;
    let p0 = psum(v);
    let n = pm.rope_seq_len * pm.rope_half_head_dim * 2;
    &&& m.dims == pm.dims
    &&& m.arch_tag@ == pm.arch_tag
    &&& m.feature_flags == pm.feature_flags
    &&& m.embed@ == tensor_at(b, v, 0)
    &&& m.layers@.len() == ls.len()
    &&& forall|k: int| 0 <= k < ls.len() ==> layer_matches(#[trigger] m.layers@[k], ls[k], b, v, (1 + layers_sizes(ls.take(k), hu).len()) as int)
    &&& match pm.final_norm {
        Some(nm) => m.final_norm matches Some(ns) && norm_matches(ns, nm, b, v, fb),
        None => m.final_norm is None,
    }
    &&& m.ffn_activation.kind == pm.ffn_activation_kind && m.ffn_activation.table@ == tensor_at(b, v, t)
    &&& m.sigmoid_lut.kind == pm.sigmoid_lut_kind && m.sigmoid_lut.table@ == tensor_at(b, v, t + 1)
    &&& m.softmax_lut.table@ == crate::softmax::exp_lut_decode(seg(b, v, t + 2))
    &&& m.rope_tables.seq_len == pm.rope_seq_len && m.rope_tables.half_head_dim == pm.rope_half_head_dim
    &&& m.rope_tables.cos@ == i16s_of(b.subrange(p0 as int, p0 + n))
    &&& m.rope_tables.sin@ == i16s_of(b.subrange(p0 + n, p0 + 2 * n))
}

/// The segment table agrees with the sizes: offsets are prefix sums and the
/// whole table fits in the stream.
pub open spec fn segs_ok(b: Seq<u8>, v: Seq<nat>, offs: Seq<u64>, sizes: Seq<u64>) -> bool {
    &&& nats(sizes) == v
    &&& offs.len() == v.len()
    &&& psum(v) <= b.len()
    &&& forall|k: int| 0 <= k < v.len() ==> (#[trigger] offs[k]) == psum(v.take(k))
}

proof fn lemma_psum_prefix(v: Seq<nat>, j: int)
    requires
        0 <= j <= v.len(),
    ensures
        psum(v.take(j)) <= psum(v),
    decreases v.len(),
{
    if j < v.len() {
        assert(v.drop_last().take(j) =~= v.take(j));
        lemma_psum_prefix(v.drop_last(), j);
    } else {
        assert(v.take(j) =~= v);
    }
}

/// Tensor `k` of the stream, as `i8`.
fn tensor(s: &[u8], offs: &Vec<u64>, sizes: &Vec<u64>, k: usize) -> (r: Vec<i8>)
    requires
        segs_ok(s@, nats(sizes@), offs@, sizes@),
        k < sizes@.len(),
    ensures
        r@ == tensor_at(s@, nats(sizes@), k as int),
{
    let ghost v = nats(sizes@);
    proof {
        lemma_take_last(v, k as int);
        lemma_psum_prefix(v, k + 1);
        assert(psum(v.take(k + 1)) == psum(v.take(k as int)) + v[k as int]);
        assert(offs@[k as int] + sizes@[k as int] <= s@.len());
    }
    let slen = s.len();
    let a = offs[k] as usize;
    let n = sizes[k] as usize;
    let mut out: Vec<i8> = Vec::new();
    let mut i: usize = 0;
    while i < n
        invariant
            i <= n,
            slen == s@.len(),
            a + n <= slen,
            out@.len() == i,
            forall|t: int| 0 <= t < i ==> out@[t] == s@[a + t] as i8,
        decreases n - i,
    {
        out.push(s[a + i] as i8);
        i = i + 1;
    }
    proof {
        assert(out@ =~= tensor_at(s@, v, k as int));
    }
    out
}

fn build_norm(s: &[u8], offs: &Vec<u64>, sizes: &Vec<u64>, k: usize, nm: NormMeta) -> (r: NormSpec)
    requires
        segs_ok(s@, nats(sizes@), offs@, sizes@),
        k + nlen(nm) <= sizes.len(),
    ensures
        norm_matches(r, nm, s@, nats(sizes@), k as int),
{
    match nm {
        NormMeta::Rms { eps_q, post_scale } => {
            let gamma = tensor(s, offs, sizes, k);
            NormSpec::RmsNorm { gamma, eps_q, post_scale }
        },
        NormMeta::LayerNorm { eps_q, post_scale } => {
            let gamma = tensor(s, offs, sizes, k);
            let beta = tensor(s, offs, sizes, k + 1);
            NormSpec::LayerNorm { gamma, beta, eps_q, post_scale }
        },
    }
}

fn nlen_exec(nm: NormMeta) -> (r: usize)
    ensures
        r == nlen(nm),
{
    match nm {
        NormMeta::Rms { .. } => 1,
        NormMeta::LayerNorm { .. } => 2,
    }
}

/// Number of tensors of a block.
pub open spec fn lcount(lm: LayerMeta) -> int {
    match lm {
        LayerMeta::Attention { norm1, norm2, .. } => nlen(norm1) + 4 + nlen(norm2) + 3,
        LayerMeta::DeltaNet { norm1, norm2, .. } => nlen(norm1) + 6 + nlen(norm2) + 3,
        LayerMeta::Gemma { norm1, post_attn_norm, norm2, post_ffn_norm, has_inp_gate, has_layer_output_scale, .. } =>
            nlen(norm1) + 6 + nlen(post_attn_norm) + nlen(norm2) + 3 + nlen(post_ffn_norm)
                + (if has_inp_gate { 1int } else { 0int }) + (if has_layer_output_scale { 1int } else { 0int }),
    }
}

proof fn lemma_lcount(lm: LayerMeta, hu: nat)
    ensures
        layer_sizes(lm, hu).len() == lcount(lm),
{
}

fn build_attn(s: &[u8], offs: &Vec<u64>, sizes: &Vec<u64>, k: usize, lm: LayerMeta) -> (r: LayerWeights)
    requires
        segs_ok(s@, nats(sizes@), offs@, sizes@),
        lm is Attention,
        k + lcount(lm) <= sizes.len(),
    ensures
        attn_matches(r, lm, s@, nats(sizes@), k as int),
{
    match lm {
        LayerMeta::Attention { norm1, hidden, num_q_heads, num_kv_heads, head_dim, attn_scales, norm2, intermediate, ffn_scales } => {
            let n1 = build_norm(s, offs, sizes, k, norm1);
            let o = k + nlen_exec(norm1);
            let w_q = tensor(s, offs, sizes, o);
            let w_k = tensor(s, offs, sizes, o + 1);
            let w_v = tensor(s, offs, sizes, o + 2);
            let w_o = tensor(s, offs, sizes, o + 3);
            let n2 = build_norm(s, offs, sizes, o + 4, norm2);
            let o2 = o + 4 + nlen_exec(norm2);
            let w_gate = tensor(s, offs, sizes, o2);
            let w_up = tensor(s, offs, sizes, o2 + 1);
            let w_down = tensor(s, offs, sizes, o2 + 2);
            LayerWeights::Attention {
                norm1: n1,
                attn: AttentionWeights { hidden, num_q_heads, num_kv_heads, head_dim, w_q, w_k, w_v, w_o },
                attn_scales,
                norm2: n2,
                ffn: FfnWeights { hidden, intermediate, w_gate, w_up, w_down },
                ffn_scales,
            }
        },
        _ => vstd::pervasive::unreached(),
    }
}

fn build_dnet(s: &[u8], offs: &Vec<u64>, sizes: &Vec<u64>, k: usize, lm: LayerMeta) -> (r: LayerWeights)
    requires
        segs_ok(s@, nats(sizes@), offs@, sizes@),
        lm is DeltaNet,
        k + lcount(lm) <= sizes.len(),
    ensures
        dnet_matches(r, lm, s@, nats(sizes@), k as int),
{
    match lm {
        LayerMeta::DeltaNet { norm1, hidden, num_qk_heads, num_v_heads, head_dim_qk, head_dim_v, dnet_scales, norm2, intermediate, ffn_scales } => {
            let n1 = build_norm(s, offs, sizes, k, norm1);
            let o = k + nlen_exec(norm1);
            let w_q = tensor(s, offs, sizes, o);
            let w_k = tensor(s, offs, sizes, o + 1);
            let w_v = tensor(s, offs, sizes, o + 2);
            let w_alpha = tensor(s, offs, sizes, o + 3);
            let w_beta = tensor(s, offs, sizes, o + 4);
            let w_o = tensor(s, offs, sizes, o + 5);
            let n2 = build_norm(s, offs, sizes, o + 6, norm2);
            let o2 = o + 6 + nlen_exec(norm2);
            let w_gate = tensor(s, offs, sizes, o2);
            let w_up = tensor(s, offs, sizes, o2 + 1);
            let w_down = tensor(s, offs, sizes, o2 + 2);
            LayerWeights::DeltaNet {
                norm1: n1,
                dnet: DeltaNetWeights {
                    hidden, num_qk_heads, num_v_heads, head_dim_qk, head_dim_v, w_q, w_k, w_v, w_alpha, w_beta, w_o,
                },
                dnet_scales,
                norm2: n2,
                ffn: FfnWeights { hidden, intermediate, w_gate, w_up, w_down },
                ffn_scales,
            }
        },
        _ => vstd::pervasive::unreached(),
    }
}

fn build_opt(s: &[u8], offs: &Vec<u64>, sizes: &Vec<u64>, k: usize, present: bool) -> (r: Option<Vec<i8>>)
    requires
        segs_ok(s@, nats(sizes@), offs@, sizes@),
        present ==> k < sizes.len(),
    ensures
        opt_matches(r, present, s@, nats(sizes@), k as int),
{
    if present {
        Some(tensor(s, offs, sizes, k))
    } else {
        None
    }
}

#[verifier::spinoff_prover]
#[verifier::rlimit(40)]
fn build_gemma(s: &[u8], offs: &Vec<u64>, sizes: &Vec<u64>, k: usize, lm: LayerMeta) -> (r: LayerWeights)
    requires
        segs_ok(s@, nats(sizes@), offs@, sizes@),
        lm is Gemma,
        k + lcount(lm) <= sizes.len(),
    ensures
        gemma_matches(r, lm, s@, nats(sizes@), k as int),
{
    match lm {
        LayerMeta::Gemma {
            norm1, hidden, num_q_heads, num_kv_heads, head_dim, attn_scales, qk_norm_eps_q, qk_norm_post_scale,
            post_attn_norm, norm2, intermediate, ffn_scales, post_ffn_norm, sliding_window, has_inp_gate,
            has_layer_output_scale,
        } => {
            let n1 = build_norm(s, offs, sizes, k, norm1);
            let o = k + nlen_exec(norm1);
            let w_q = tensor(s, offs, sizes, o);
            let w_k = tensor(s, offs, sizes, o + 1);
            let w_v = tensor(s, offs, sizes, o + 2);
            let w_o = tensor(s, offs, sizes, o + 3);
            let q_norm_gamma = tensor(s, offs, sizes, o + 4);
            let k_norm_gamma = tensor(s, offs, sizes, o + 5);
            let pan = build_norm(s, offs, sizes, o + 6, post_attn_norm);
            let on2 = o + 6 + nlen_exec(post_attn_norm);
            let n2 = build_norm(s, offs, sizes, on2, norm2);
            let o2 = on2 + nlen_exec(norm2);
            let w_gate = tensor(s, offs, sizes, o2);
            let w_up = tensor(s, offs, sizes, o2 + 1);
            let w_down = tensor(s, offs, sizes, o2 + 2);
            let pfn = build_norm(s, offs, sizes, o2 + 3, post_ffn_norm);
            let o3 = o2 + 3 + nlen_exec(post_ffn_norm);
            let inp_gate = build_opt(s, offs, sizes, o3, has_inp_gate);
            let o4 = if has_inp_gate { o3 + 1 } else { o3 };
            let layer_output_scale = build_opt(s, offs, sizes, o4, has_layer_output_scale);
            let sw = if sliding_window == 0 { None } else { Some(sliding_window) };
            LayerWeights::Gemma {
                norm1: n1,
                attn: AttentionWeights { hidden, num_q_heads, num_kv_heads, head_dim, w_q, w_k, w_v, w_o },
                attn_scales,
                q_norm_gamma,
                k_norm_gamma,
                qk_norm_eps_q,
                qk_norm_post_scale,
                post_attn_norm: pan,
                norm2: n2,
                ffn: FfnWeights { hidden, intermediate, w_gate, w_up, w_down },
                ffn_scales,
                post_ffn_norm: pfn,
                sliding_window: sw,
                inp_gate,
                layer_output_scale,
            }
        },
        _ => vstd::pervasive::unreached(),
    }
}

fn build_layer(s: &[u8], offs: &Vec<u64>, sizes: &Vec<u64>, k: usize, lm: LayerMeta) -> (r: LayerWeights)
    requires
        segs_ok(s@, nats(sizes@), offs@, sizes@),
        k + lcount(lm) <= sizes.len(),
    ensures
        layer_matches(r, lm, s@, nats(sizes@), k as int),
{
    reveal(layer_matches);
    match lm {
        LayerMeta::Attention { .. } => build_attn(s, offs, sizes, k, lm),
        LayerMeta::DeltaNet { .. } => build_dnet(s, offs, sizes, k, lm),
        LayerMeta::Gemma { .. } => build_gemma(s, offs, sizes, k, lm),
    }
}

fn lcount_exec(lm: LayerMeta) -> (r: usize)
    ensures
        r == lcount(lm),
{
    match lm {
        LayerMeta::Attention { norm1, norm2, .. } => nlen_exec(norm1) + 4 + nlen_exec(norm2) + 3,
        LayerMeta::DeltaNet { norm1, norm2, .. } => nlen_exec(norm1) + 6 + nlen_exec(norm2) + 3,
        LayerMeta::Gemma { norm1, post_attn_norm, norm2, post_ffn_norm, has_inp_gate, has_layer_output_scale, .. } =>
            nlen_exec(norm1) + 6 + nlen_exec(post_attn_norm) + nlen_exec(norm2) + 3 + nlen_exec(post_ffn_norm)
                + (if has_inp_gate { 1 } else { 0 }) + (if has_layer_output_scale { 1 } else { 0 }),
    }
}

proof fn lemma_layers_sizes_len_prefix(ls: Seq<LayerMeta>, j: int, hu: nat)
    requires
        0 <= j <= ls.len(),
    ensures
        layers_sizes(ls.take(j), hu).len() <= layers_sizes(ls, hu).len(),
    decreases ls.len(),
{
    if j < ls.len() {
        assert(ls.drop_last().take(j) =~= ls.take(j));
        lemma_layers_sizes_len_prefix(ls.drop_last(), j, hu);
    } else {
        assert(ls.take(j) =~= ls);
    }
}

/// `count` little-endian `i16`s at `s[a..]`.
fn i16s_at(s: &[u8], a: usize, count: usize) -> (r: Vec<i16>)
    requires
        a + 2 * count <= s@.len(),
    ensures
        r@ == i16s_of(s@.subrange(a as int, a + 2 * count)),
{
    let ghost b = s@.subrange(a as int, a + 2 * count);
    let mut out: Vec<i16> = Vec::new();
    let mut i: usize = 0;
    let slen = s.len();
    while i < count
        invariant
            i <= count,
            slen == s@.len(),
            a + 2 * count <= slen,
            b == s@.subrange(a as int, a + 2 * count),
            out@.len() == i,
            forall|t: int| 0 <= t < i ==> out@[t] == i16s_of(b)[t],
        decreases count - i,
    {
        let x = read_i16(s, a + 2 * i);
        proof {
            assert(b.subrange(2 * i, 2 * i + 2) =~= s@.subrange(a + 2 * i, a + 2 * i + 2));
        }
        out.push(x);
        i = i + 1;
    }
    proof {
        assert(out@ =~= i16s_of(b));
    }
    out
}

/// The checks of the weight stream: every fixed segment fits, the RoPE
/// header agrees with the manifest, both tables fit and nothing is left.
fn check_weights(pm: &ParsedManifest, s: &[u8]) -> (r: Result<(Vec<u64>, Vec<u64>), LoadError>)
    requires
        manifest_fits(pm@),
    ensures
        r is Ok <==> weights_outcome(pm@, s@) is Ok,
        r matches Err(e) ==> weights_outcome(pm@, s@) == Err::<(), LoadError>(e),
        r matches Ok((sizes, offs)) ==> nats(sizes@) == fixed_sizes(pm@) && segs_ok(s@, fixed_sizes(pm@), offs@, sizes@),
{
    let ghost v = fixed_sizes(pm@);
    let sizes = fixed_sizes_exec(pm);
    let offs = match segment_offsets(s.len(), &sizes) {
        Ok(o) => o,
        Err(e) => { return Err(e); },
    };
    let nseg = sizes.len();
    proof {
        assert(nseg >= 5);
        lemma_take_last(v, nseg - 1);
        assert(v.take(nseg as int) =~= v);
        assert(v[nseg - 1] == 8);
    }
    let p0 = (offs[nseg - 1] + sizes[nseg - 1]) as usize;
    let rs = read_u32(s, p0 - 8);
    let rh = read_u32(s, p0 - 4);
    if rs != pm.rope_seq_len || rh != pm.rope_half_head_dim {
        return Err(LoadError::Rope(RopeError::ShapeMismatch));
    }
    let n = rs as u64 * rh as u64 * 2;
    if n > (s.len() - p0) as u64 {
        return Err(LoadError::WeightsEof(p0 as u64));
    }
    let p1 = p0 + n as usize;
    if n > (s.len() - p1) as u64 {
        return Err(LoadError::WeightsEof(p1 as u64));
    }
    let p2 = p1 + n as usize;
    if p2 != s.len() {
        return Err(LoadError::WeightsTrailing);
    }
    Ok((sizes, offs))
}

/// The blocks of the stream, each from its segments on.
fn assemble_layers(pm: &ParsedManifest, s: &[u8], sizes: &Vec<u64>, offs: &Vec<u64>) -> (r: (Vec<LayerWeights>, usize))
    requires
        manifest_fits(pm@),
        nats(sizes@) == fixed_sizes(pm@),
        segs_ok(s@, fixed_sizes(pm@), offs@, sizes@),
    ensures
        r.0@.len() == pm.layer_metas@.len(),
        r.1 == 1 + layers_sizes(pm.layer_metas@, pm.dims.hidden as nat).len(),
        forall|t: int| 0 <= t < pm.layer_metas@.len() ==> layer_matches(#[trigger] r.0@[t], pm.layer_metas@[t], s@,
            fixed_sizes(pm@), (1 + layers_sizes(pm.layer_metas@.take(t), pm.dims.hidden as nat).len()) as int),
{
    let ghost v = fixed_sizes(pm@);
    let ghost hu = pm.dims.hidden as nat;
    let ghost ls = pm.layer_metas@;
    let nl = pm.layer_metas.len();
    let nsz = sizes.len();
    let mut layers: Vec<LayerWeights> = Vec::new();
    let mut k: usize = 1;
    let mut j: usize = 0;
    proof {
        assert(ls.take(0) =~= Seq::<LayerMeta>::empty());
    }
    while j < nl
        invariant
            j <= nl,
            nsz == sizes@.len(),
            nl == ls.len(),
            ls == pm.layer_metas@,
            hu == pm.dims.hidden,
            v == fixed_sizes(pm@),
            segs_ok(s@, v, offs@, sizes@),
            nats(sizes@) == v,
            layers@.len() == j,
            k == 1 + layers_sizes(ls.take(j as int), hu).len(),
            forall|t: int| 0 <= t < j ==> layer_matches(#[trigger] layers@[t], ls[t], s@, v, (1 + layers_sizes(ls.take(t), hu).len()) as int),
        decreases nl - j,
    {
        let lm = pm.layer_metas[j];
        proof {
            lemma_layers_sizes_push(ls, j as int, hu);
            lemma_lcount(ls[j as int], hu);
            lemma_layers_sizes_len_prefix(ls, j + 1, hu);
        }
        let lw = build_layer(s, offs, sizes, k, lm);
        layers.push(lw);
        k = k + lcount_exec(lm);
        j = j + 1;
    }
    proof {
        assert(ls.take(nl as int) =~= ls);
    }
    (layers, k)
}

/// Parse `weights.bin` against a parsed manifest. The error is
/// `weights_outcome`'s; on success the model is the one `model_matches`
/// describes.
#[verifier::spinoff_prover]
#[verifier::rlimit(100)]
pub fn parse_weights(pm: ParsedManifest, s: &[u8]) -> (r: Result<Model, LoadError>)
    requires
        manifest_fits(pm@),
    ensures
        r is Ok <==> weights_outcome(pm@, s@) is Ok,
        r matches Err(e) ==> weights_outcome(pm@, s@) == Err::<(), LoadError>(e),
        r matches Ok(m) ==> model_matches(m, pm@, s@),
{
    let (sizes, offs) = match check_weights(&pm, s) {
        Ok(x) => x,
        Err(e) => { return Err(e); },
    };
    let ghost v = fixed_sizes(pm@);
    let embed = tensor(s, &offs, &sizes, 0);
    let (layers, k) = assemble_layers(&pm, s, &sizes, &offs);
    let final_norm = match pm.final_norm {
        Some(nm) => Some(build_norm(s, &offs, &sizes, k, nm)),
        None => None,
    };
    let nsz = sizes.len();
    proof {
        assert(nsz == v.len());
        assert(v.len() == k + final_sizes(pm.final_norm, pm.dims.hidden as nat).len() + 4);
    }
    let t = match pm.final_norm {
        Some(nm) => k + nlen_exec(nm),
        None => k,
    };
    proof {
        lemma_take_last(v, t as int);
        lemma_take_last(v, t + 1);
        lemma_take_last(v, t + 2);
        lemma_take_last(v, t + 3);
        lemma_psum_prefix(v, t + 1);
        lemma_psum_prefix(v, t + 2);
        lemma_psum_prefix(v, t + 3);
        assert(v.len() == t + 4);
        assert(psum(v.take(t + 1)) == psum(v.take(t as int)) + v[t as int]);
        assert(psum(v.take(t + 2)) == psum(v.take(t + 1)) + v[t + 1]);
        assert(psum(v.take(t + 3)) == psum(v.take(t + 2)) + v[t + 2]);
        assert(psum(v.take(t + 4)) == psum(v.take(t + 3)) + v[t + 3]);
        assert(v[t as int] == 256);
        assert(v[t + 1] == 256);
        assert(v[t + 2] == 1024);
        assert(v[t + 3] == 8);
        assert(v.take(t + 4) =~= v);
        assert(offs@[t as int] == psum(v.take(t as int)));
        assert(offs@[t + 1] == psum(v.take(t + 1)));
        assert(offs@[t + 2] == psum(v.take(t + 2)));
        assert(offs@[t + 3] == psum(v.take(t + 3)));
        assert(psum(v) <= s@.len());
    }
    let slen = s.len();
    proof {
        assert(offs@[t as int] + 256 <= slen);
        assert(offs@[t + 1] + 256 <= slen);
        assert(offs@[t + 2] + 1024 <= slen);
    }
    let lut_a = vstd::slice::slice_subrange(s, offs[t] as usize, offs[t] as usize + 256);
    let ffn_activation = match ActivationLut::from_bytes(pm.ffn_activation_kind, lut_a) {
        Ok(l) => l,
        Err(e) => { return Err(LoadError::Lut(e)); },
    };
    let lut_b = vstd::slice::slice_subrange(s, offs[t + 1] as usize, offs[t + 1] as usize + 256);
    let sigmoid_lut = match ActivationLut::from_bytes(pm.sigmoid_lut_kind, lut_b) {
        Ok(l) => l,
        Err(e) => { return Err(LoadError::Lut(e)); },
    };
    let exp_b = vstd::slice::slice_subrange(s, offs[t + 2] as usize, offs[t + 2] as usize + 1024);
    let softmax_lut = match ExpLut::from_bytes(exp_b) {
        Ok(l) => l,
        Err(e) => { return Err(LoadError::ExpLut(e)); },
    };
    let p0 = (offs[t + 3] + 8) as usize;
    let rs = pm.rope_seq_len;
    let rh = pm.rope_half_head_dim;
    let count64 = rs as u64 * rh as u64;
    proof {
        assert(p0 == psum(v));
        assert(p0 + 4 * count64 == s@.len());
    }
    let count = count64 as usize;
    let cos = i16s_at(s, p0, count);
    let sin = i16s_at(s, p0 + 2 * count, count);
    let rope_tables = RopeTables { seq_len: rs, half_head_dim: rh, cos, sin };
    match rope_tables.validate() {
        Ok(()) => {},
        Err(e) => { return Err(LoadError::Rope(e)); },
    }
    proof {
        assert(lut_a@ =~= seg(s@, v, t as int));
        assert(lut_b@ =~= seg(s@, v, t + 1));
        assert(exp_b@ =~= seg(s@, v, t + 2));
    }
    Ok(Model {
        dims: pm.dims,
        arch_tag: pm.arch_tag,
        feature_flags: pm.feature_flags,
        embed,
        layers,
        final_norm,
        rope_tables,
        softmax_lut,
        sigmoid_lut,
        ffn_activation,
    })
}

fn layer_meta_fits_exec(lm: LayerMeta) -> (r: bool)
    ensures
        r == layer_meta_fits(lm),
{
    match lm {
        LayerMeta::Attention { num_q_heads, num_kv_heads, head_dim, .. } =>
            mul_u32(num_q_heads, head_dim) <= 0xffff_ffff && mul_u32(num_kv_heads, head_dim) <= 0xffff_ffff,
        LayerMeta::DeltaNet { num_qk_heads, num_v_heads, head_dim_qk, head_dim_v, .. } =>
            mul_u32(num_qk_heads, head_dim_qk) <= 0xffff_ffff && mul_u32(num_v_heads, head_dim_v) <= 0xffff_ffff,
        LayerMeta::Gemma { num_q_heads, num_kv_heads, head_dim, .. } =>
            mul_u32(num_q_heads, head_dim) <= 0xffff_ffff && mul_u32(num_kv_heads, head_dim) <= 0xffff_ffff,
    }
}

/// Whether every size the reader computes from this manifest stays in range.
pub fn manifest_fits_exec(pm: &ParsedManifest) -> (r: bool)
    ensures
        r == manifest_fits(pm@),
{
    let n = pm.layer_metas.len();
    let mut k: usize = 0;
    while k < n
        invariant
            k <= n,
            n == pm.layer_metas@.len(),
            forall|t: int| 0 <= t < k ==> layer_meta_fits(#[trigger] pm.layer_metas@[t]),
        decreases n - k,
    {
        if !layer_meta_fits_exec(pm.layer_metas[k]) {
            proof {
                assert(!layer_meta_fits(pm@.layer_metas[k as int]));
                assert(!manifest_fits(pm@));
            }
            return false;
        }
        k = k + 1;
    }
    if mul_u32(pm.rope_seq_len, pm.rope_half_head_dim) >= 0x1000_0000_0000_0000 {
        proof {
            assert(!manifest_fits(pm@));
        }
        return false;
    }
    let sizes = fixed_sizes_partial(pm);
    let m = sizes.len();
    let mut i: usize = 0;
    while i < m
        invariant
            i <= m,
            m == sizes@.len(),
            nats(sizes@) == fixed_sizes(pm@),
            forall|t: int| 0 <= t < i ==> #[trigger] fixed_sizes(pm@)[t] < 0x4000_0000_0000_0000,
        decreases m - i,
    {
        if sizes[i] >= 0x4000_0000_0000_0000 {
            proof {
                assert(fixed_sizes(pm@)[i as int] == sizes@[i as int]);
                assert(!manifest_fits(pm@));
            }
            return false;
        }
        proof {
            assert(fixed_sizes(pm@)[i as int] == sizes@[i as int]);
        }
        i = i + 1;
    }
    proof {
        assert(forall|t: int| 0 <= t < pm.layer_metas@.len() ==> layer_meta_fits(#[trigger] pm.layer_metas@[t]));
        assert(forall|t: int| 0 <= t < fixed_sizes(pm@).len() ==> #[trigger] fixed_sizes(pm@)[t] < 0x4000_0000_0000_0000);
        assert(pm@.rope_seq_len * pm@.rope_half_head_dim < 0x1000_0000_0000_0000);
    }
    true
}

/// The segment sizes, for a manifest whose block products fit.
fn fixed_sizes_partial(pm: &ParsedManifest) -> (v: Vec<u64>)
    requires
        forall|k: int| 0 <= k < pm.layer_metas@.len() ==> layer_meta_fits(#[trigger] pm.layer_metas@[k]),
    ensures
        nats(v@) == fixed_sizes(pm@),
{
    let hu = pm.dims.hidden as u64;
    let mut v: Vec<u64> = Vec::new();
    proof {
        assert(pm.dims.vocab * hu <= 0xffff_ffff * 0xffff_ffff) by (nonlinear_arith)
            requires pm.dims.vocab <= 0xffff_ffff, hu <= 0xffff_ffff {}
    }
    push_size(&mut v, pm.dims.vocab as u64 * hu);
    let ghost v0 = nats(v@);
    let n = pm.layer_metas.len();
    let mut k: usize = 0;
    proof {
        assert(pm.layer_metas@.take(0) =~= Seq::<LayerMeta>::empty());
        assert(v0 + layers_sizes(Seq::<LayerMeta>::empty(), hu as nat) =~= v0);
    }
    while k < n
        invariant
            k <= n,
            n == pm.layer_metas@.len(),
            hu == pm.dims.hidden,
            forall|t: int| 0 <= t < pm.layer_metas@.len() ==> layer_meta_fits(#[trigger] pm.layer_metas@[t]),
            nats(v@) == v0 + layers_sizes(pm.layer_metas@.take(k as int), hu as nat),
        decreases n - k,
    {
        let lm = pm.layer_metas[k];
        proof {
            lemma_layers_sizes_push(pm.layer_metas@, k as int, hu as nat);
        }
        push_layer_sizes(&mut v, lm, hu);
        proof {
            assert(nats(v@) =~= v0 + layers_sizes(pm.layer_metas@.take(k + 1), hu as nat));
        }
        k = k + 1;
    }
    proof {
        assert(pm.layer_metas@.take(n as int) =~= pm.layer_metas@);
    }
    match pm.final_norm {
        Some(nm) => { push_norm_sizes(&mut v, nm, hu); },
        None => {},
    }
    let ghost v1 = nats(v@);
    push_size(&mut v, 256);
    push_size(&mut v, 256);
    push_size(&mut v, 1024);
    push_size(&mut v, 8);
    proof {
        assert(nats(v@) =~= v1 + seq![256nat, 256nat, 1024nat, 8nat]);
        assert(v1 =~= seq![(pm.dims.vocab * hu) as nat] + layers_sizes(pm.layer_metas@, hu as nat) + final_sizes(pm.final_norm, hu as nat));
        assert(nats(v@) =~= fixed_sizes(pm@));
    }
    v
}

/// The computing half of loading a sideloaded model: parse the manifest,
/// parse the weights against it and check the model's `comm_W` against
/// `expected_comm_w`. `None` exactly where the reader's size arithmetic
/// would overflow (a manifest whose sizes do not fit, see `manifest_fits`,
/// or a canonical stream within 128 bytes of `usize::MAX`).
pub fn load_model_bytes(manifest: &[u8], weights: &[u8], expected_comm_w: &[u8; 32]) -> (r: Option<Result<Model, LoadError>>)
    ensures
        match manifest_spec(manifest@) {
            Err(e) => r matches Some(Err(e2)) && e2 == e,
            Ok(pm) => if !manifest_fits(pm) {
                r is None
            } else {
                match weights_outcome(pm, weights@) {
                    Err(e) => r matches Some(Err(e2)) && e2 == e,
                    Ok(()) => match r {
                        None => exists|m: Model| #[trigger] model_matches(m, pm, weights@)
                            && crate::comm_w::canonical_bytes_spec(m).len() + 128 > usize::MAX,
                        Some(Ok(m)) => model_matches(m, pm, weights@) && crate::comm_w::comm_w_spec(m) == expected_comm_w@,
                        Some(Err(e)) => e is CommWMismatch && exists|m: Model| #[trigger] model_matches(m, pm, weights@)
                            && crate::comm_w::comm_w_spec(m) != expected_comm_w@,
                    },
                }
            },
        },
{
    let pm = match parse_manifest(manifest) {
        Ok(p) => p,
        Err(e) => { return Some(Err(e)); },
    };
    if !manifest_fits_exec(&pm) {
        return None;
    }
    let ghost pmv = pm@;
    let model = match parse_weights(pm, weights) {
        Ok(m) => m,
        Err(e) => { return Some(Err(e)); },
    };
    let wb = crate::comm_w::canonical_weight_bytes(&model);
    if wb.len() > usize::MAX - 128 {
        proof {
            assert(model_matches(model, pmv, weights@));
        }
        return None;
    }
    let weights_root = crate::comm_w::weights_merkle_root(wb.as_slice());
    let manifest_root = crate::comm_w::manifest_hash(&model);
    let c = crate::comm_w::combine_comm_w(&weights_root, &manifest_root);
    if !crate::activations::bytes32_eq(&c, expected_comm_w) {
        proof {
            assert(model_matches(model, pmv, weights@));
        }
        return Some(Err(LoadError::CommWMismatch));
    }
    Some(Ok(model))
}

// ----- manifest encoding -----

/// A scale on the wire: its numerator.
pub open spec fn scale_wire(x: Scale) -> Seq<u8> {
    le_signed(x.num as int, 4)
}

/// A norm's manifest entry: flavor tag, epsilon, post-scale.
pub open spec fn norm_wire(ns: NormSpec) -> Seq<u8> {
    match ns {
        NormSpec::RmsNorm { eps_q, post_scale, .. } => seq![0u8] + le_signed(eps_q as int, 8) + scale_wire(post_scale),
        NormSpec::LayerNorm { eps_q, post_scale, .. } => seq![1u8] + le_signed(eps_q as int, 8) + scale_wire(post_scale),
    }
}

pub open spec fn attn_scales_wire(a: AttentionScales) -> Seq<u8> {
    scale_wire(a.q) + scale_wire(a.k) + scale_wire(a.v) + scale_wire(a.score) + scale_wire(a.attn_out) + scale_wire(a.o)
}

pub open spec fn ffn_part_wire(norm2: NormSpec, ffn: FfnWeights, f: FfnScales) -> Seq<u8> {
    norm_wire(norm2) + le_bytes(ffn.intermediate as nat, 4) + scale_wire(f.gate) + scale_wire(f.up) + scale_wire(f.mid)
        + scale_wire(f.down)
}

pub open spec fn dnet_scales_wire(d: DeltaNetScales) -> Seq<u8> {
    scale_wire(d.q) + scale_wire(d.k) + scale_wire(d.v) + scale_wire(d.alpha_logit) + scale_wire(d.beta_logit)
        + scale_wire(d.u) + scale_wire(d.decay) + scale_wire(d.update) + scale_wire(d.o) + scale_wire(d.proj)
}

/// The block kinds the manifest can describe.
pub open spec fn layer_supported(lw: LayerWeights) -> bool {
    lw is Attention || lw is DeltaNet || lw is Gemma
}

/// A block's manifest entry.
pub open spec fn layer_wire(lw: LayerWeights) -> Seq<u8> {
    match lw {
        LayerWeights::Attention { norm1, attn, attn_scales, norm2, ffn, ffn_scales } =>
            seq![0u8] + norm_wire(norm1) + le_bytes(attn.hidden as nat, 4) + le_bytes(attn.num_q_heads as nat, 4)
                + le_bytes(attn.num_kv_heads as nat, 4) + le_bytes(attn.head_dim as nat, 4)
                + attn_scales_wire(attn_scales) + ffn_part_wire(norm2, ffn, ffn_scales),
        LayerWeights::DeltaNet { norm1, dnet, dnet_scales, norm2, ffn, ffn_scales } =>
            seq![1u8] + norm_wire(norm1) + le_bytes(dnet.hidden as nat, 4) + le_bytes(dnet.num_qk_heads as nat, 4)
                + le_bytes(dnet.num_v_heads as nat, 4) + le_bytes(dnet.head_dim_qk as nat, 4)
                + le_bytes(dnet.head_dim_v as nat, 4) + dnet_scales_wire(dnet_scales)
                + ffn_part_wire(norm2, ffn, ffn_scales),
        LayerWeights::Gemma {
            norm1, attn, attn_scales, qk_norm_eps_q, qk_norm_post_scale, post_attn_norm, norm2, ffn, ffn_scales,
            post_ffn_norm, sliding_window, inp_gate, layer_output_scale, ..
        } =>
            seq![2u8] + norm_wire(norm1) + le_bytes(attn.hidden as nat, 4) + le_bytes(attn.num_q_heads as nat, 4)
                + le_bytes(attn.num_kv_heads as nat, 4) + le_bytes(attn.head_dim as nat, 4)
                + attn_scales_wire(attn_scales) + le_signed(qk_norm_eps_q as int, 8) + scale_wire(qk_norm_post_scale)
                + norm_wire(post_attn_norm) + ffn_part_wire(norm2, ffn, ffn_scales) + norm_wire(post_ffn_norm)
                + le_bytes((match sliding_window { Some(w) => w, None => 0u32 }) as nat, 4)
                + seq![if inp_gate is Some { 1u8 } else { 0u8 }, if layer_output_scale is Some { 1u8 } else { 0u8 }],
        _ => Seq::<u8>::empty(),
    }
}

/// Manifest entries of the first `n` blocks.
pub open spec fn layers_wire(ls: Seq<LayerWeights>, n: int) -> Seq<u8>
    decreases n,
{
    if n <= 0 { Seq::<u8>::empty() } else { layers_wire(ls, n - 1) + layer_wire(ls[n - 1]) }
}

/// The bytes of `manifest.bin` for a model.
pub open spec fn manifest_wire(m: Model) -> Seq<u8> {
    magic_spec() + le_bytes(VERSION as nat, 4) + m.arch_tag@ + le_bytes(m.feature_flags as nat, 8)
        + le_bytes(m.dims.vocab as nat, 4) + le_bytes(m.dims.hidden as nat, 4) + le_bytes(m.dims.seq_len as nat, 4)
        + le_bytes(m.dims.activation_tile as nat, 4) + le_bytes((m.layers@.len() as u32) as nat, 4)
        + layers_wire(m.layers@, m.layers@.len() as int)
        + (match m.final_norm { Some(n) => seq![1u8] + norm_wire(n), None => seq![0u8] })
        + le_bytes(m.rope_tables.seq_len as nat, 4) + le_bytes(m.rope_tables.half_head_dim as nat, 4)
        + seq![crate::activation_lut::kind_tag_spec(m.ffn_activation.kind), crate::activation_lut::kind_tag_spec(m.sigmoid_lut.kind)]
}

fn push_scale(out: &mut Vec<u8>, x: Scale)
    ensures
        final(out)@ == old(out)@ + scale_wire(x),
{
    push_i32(out, x.num);
}

fn push_norm_wire(out: &mut Vec<u8>, ns: &NormSpec)
    ensures
        final(out)@ == old(out)@ + norm_wire(*ns),
{
    let ghost o0 = out@;
    match ns {
        NormSpec::RmsNorm { eps_q, post_scale, .. } => {
            out.push(0u8);
            push_i64(out, *eps_q);
            push_scale(out, *post_scale);
        },
        NormSpec::LayerNorm { eps_q, post_scale, .. } => {
            out.push(1u8);
            push_i64(out, *eps_q);
            push_scale(out, *post_scale);
        },
    }
    proof {
        assert(out@ =~= o0 + norm_wire(*ns));
    }
}

fn push_attn_scales(out: &mut Vec<u8>, a: &AttentionScales)
    ensures
        final(out)@ == old(out)@ + attn_scales_wire(*a),
{
    let ghost o0 = out@;
    push_scale(out, a.q);
    push_scale(out, a.k);
    push_scale(out, a.v);
    push_scale(out, a.score);
    push_scale(out, a.attn_out);
    push_scale(out, a.o);
    proof {
        assert(out@ =~= o0 + attn_scales_wire(*a));
    }
}

fn push_dnet_scales(out: &mut Vec<u8>, d: &DeltaNetScales)
    ensures
        final(out)@ == old(out)@ + dnet_scales_wire(*d),
{
    let ghost o0 = out@;
    push_scale(out, d.q);
    push_scale(out, d.k);
    push_scale(out, d.v);
    push_scale(out, d.alpha_logit);
    push_scale(out, d.beta_logit);
    push_scale(out, d.u);
    push_scale(out, d.decay);
    push_scale(out, d.update);
    push_scale(out, d.o);
    push_scale(out, d.proj);
    proof {
        assert(out@ =~= o0 + dnet_scales_wire(*d));
    }
}

fn push_ffn_part(out: &mut Vec<u8>, norm2: &NormSpec, ffn: &FfnWeights, f: &FfnScales)
    ensures
        final(out)@ == old(out)@ + ffn_part_wire(*norm2, *ffn, *f),
{
    let ghost o0 = out@;
    push_norm_wire(out, norm2);
    push_u32(out, ffn.intermediate);
    push_scale(out, f.gate);
    push_scale(out, f.up);
    push_scale(out, f.mid);
    push_scale(out, f.down);
    proof {
        assert(out@ =~= o0 + ffn_part_wire(*norm2, *ffn, *f));
    }
}

fn push_attn_wire(out: &mut Vec<u8>, lw: &LayerWeights)
    requires
        lw is Attention,
    ensures
        final(out)@ == old(out)@ + layer_wire(*lw),
{
    let ghost o0 = out@;
    match lw {
        LayerWeights::Attention { norm1, attn, attn_scales, norm2, ffn, ffn_scales } => {
            out.push(0u8);
            push_norm_wire(out, norm1);
            push_u32(out, attn.hidden);
            push_u32(out, attn.num_q_heads);
            push_u32(out, attn.num_kv_heads);
            push_u32(out, attn.head_dim);
            push_attn_scales(out, attn_scales);
            push_ffn_part(out, norm2, ffn, ffn_scales);
        },
        _ => {},
    }
    proof {
        assert(out@ =~= o0 + layer_wire(*lw));
    }
}

fn push_dnet_wire(out: &mut Vec<u8>, lw: &LayerWeights)
    requires
        lw is DeltaNet,
    ensures
        final(out)@ == old(out)@ + layer_wire(*lw),
{
    let ghost o0 = out@;
    match lw {
        LayerWeights::DeltaNet { norm1, dnet, dnet_scales, norm2, ffn, ffn_scales } => {
            out.push(1u8);
            push_norm_wire(out, norm1);
            push_u32(out, dnet.hidden);
            push_u32(out, dnet.num_qk_heads);
            push_u32(out, dnet.num_v_heads);
            push_u32(out, dnet.head_dim_qk);
            push_u32(out, dnet.head_dim_v);
            push_dnet_scales(out, dnet_scales);
            push_ffn_part(out, norm2, ffn, ffn_scales);
        },
        _ => {},
    }
    proof {
        assert(out@ =~= o0 + layer_wire(*lw));
    }
}

#[verifier::spinoff_prover]
#[verifier::rlimit(60)]
fn push_gemma_wire(out: &mut Vec<u8>, lw: &LayerWeights)
    requires
        lw is Gemma,
    ensures
        final(out)@ == old(out)@ + layer_wire(*lw),
{
    let ghost o0 = out@;
    match lw {
        LayerWeights::Gemma {
            norm1, attn, attn_scales, qk_norm_eps_q, qk_norm_post_scale, post_attn_norm, norm2, ffn, ffn_scales,
            post_ffn_norm, sliding_window, inp_gate, layer_output_scale, ..
        } => {
            out.push(2u8);
            push_norm_wire(out, norm1);
            push_u32(out, attn.hidden);
            push_u32(out, attn.num_q_heads);
            push_u32(out, attn.num_kv_heads);
            push_u32(out, attn.head_dim);
            push_attn_scales(out, attn_scales);
            let ghost o1 = out@;
            push_i64(out, *qk_norm_eps_q);
            push_scale(out, *qk_norm_post_scale);
            push_norm_wire(out, post_attn_norm);
            push_ffn_part(out, norm2, ffn, ffn_scales);
            push_norm_wire(out, post_ffn_norm);
            let ghost o2 = out@;
            let sw: u32 = match sliding_window { Some(w) => *w, None => 0 };
            push_u32(out, sw);
            out.push(if inp_gate.is_some() { 1u8 } else { 0u8 });
            out.push(if layer_output_scale.is_some() { 1u8 } else { 0u8 });
            proof {
                assert(o1 =~= o0 + seq![2u8] + norm_wire(*norm1) + le_bytes(attn.hidden as nat, 4)
                    + le_bytes(attn.num_q_heads as nat, 4) + le_bytes(attn.num_kv_heads as nat, 4)
                    + le_bytes(attn.head_dim as nat, 4) + attn_scales_wire(*attn_scales));
                assert(o2 =~= o1 + le_signed(*qk_norm_eps_q as int, 8) + scale_wire(*qk_norm_post_scale)
                    + norm_wire(*post_attn_norm) + ffn_part_wire(*norm2, *ffn, *ffn_scales) + norm_wire(*post_ffn_norm));
            }
        },
        _ => {},
    }
    proof {
        assert(out@ =~= o0 + layer_wire(*lw));
    }
}

fn push_layer_wire(out: &mut Vec<u8>, lw: &LayerWeights)
    requires
        layer_supported(*lw),
    ensures
        final(out)@ == old(out)@ + layer_wire(*lw),
{
    match lw {
        LayerWeights::Attention { .. } => push_attn_wire(out, lw),
        LayerWeights::DeltaNet { .. } => push_dnet_wire(out, lw),
        _ => push_gemma_wire(out, lw),
    }
}

/// Whether every block of `model` has a manifest encoding (attention,
/// DeltaNet and Gemma blocks do), which `encode_manifest` needs.
pub fn manifest_kinds_supported(model: &Model) -> (r: bool)
    ensures
        r == forall|k: int| 0 <= k < model.layers@.len() ==> layer_supported(#[trigger] model.layers@[k]),
{
    let n = model.layers.len();
    let mut i: usize = 0;
    while i < n
        invariant
            i <= n,
            n == model.layers@.len(),
            forall|k: int| 0 <= k < i ==> layer_supported(#[trigger] model.layers@[k]),
        decreases n - i,
    {
        match &model.layers[i] {
            LayerWeights::Attention { .. } | LayerWeights::DeltaNet { .. } | LayerWeights::Gemma { .. } => {},
            _ => {
                return false;
            },
        }
        i = i + 1;
    }
    true
}

/// The bytes of `manifest.bin`; only attention, DeltaNet and Gemma blocks
/// have a manifest encoding.
#[verifier::spinoff_prover]
#[verifier::rlimit(50)]
pub fn encode_manifest(model: &Model) -> (out: Vec<u8>)
    requires
        forall|k: int| 0 <= k < model.layers@.len() ==> layer_supported(#[trigger] model.layers@[k]),
    ensures
        out@ == manifest_wire(*model),
{
    let mut out: Vec<u8> = Vec::new();
    let magic: [u8; 8] = [65u8, 73, 80, 79, 87, 86, 73, 49];
    let mut k: usize = 0;
    while k < 8
        invariant
            k <= 8,
            out@ == magic@.take(k as int),
        decreases 8 - k,
    {
        proof {
            assert(magic@.take(k + 1) =~= magic@.take(k as int).push(magic@[k as int]));
        }
        out.push(magic[k]);
        k = k + 1;
    }
    proof {
        assert(magic@.take(8) =~= magic_spec());
    }
    push_u32(&mut out, VERSION);
    let mut t: usize = 0;
    let ghost o1 = out@;
    while t < 16
        invariant
            t <= 16,
            out@ == o1 + model.arch_tag@.take(t as int),
        decreases 16 - t,
    {
        proof {
            assert(model.arch_tag@.take(t + 1) =~= model.arch_tag@.take(t as int).push(model.arch_tag@[t as int]));
        }
        out.push(model.arch_tag[t]);
        t = t + 1;
    }
    proof {
        assert(model.arch_tag@.take(16) =~= model.arch_tag@);
    }
    push_u64(&mut out, model.feature_flags);
    push_u32(&mut out, model.dims.vocab);
    push_u32(&mut out, model.dims.hidden);
    push_u32(&mut out, model.dims.seq_len);
    push_u32(&mut out, model.dims.activation_tile);
    push_u32(&mut out, model.layers.len() as u32);
    let ghost o2 = out@;
    let n = model.layers.len();
    let mut i: usize = 0;
    while i < n
        invariant
            i <= n,
            n == model.layers@.len(),
            forall|k: int| 0 <= k < model.layers@.len() ==> layer_supported(#[trigger] model.layers@[k]),
            out@ == o2 + layers_wire(model.layers@, i as int),
        decreases n - i,
    {
        push_layer_wire(&mut out, &model.layers[i]);
        proof {
            assert(out@ =~= o2 + layers_wire(model.layers@, i + 1));
        }
        i = i + 1;
    }
    match &model.final_norm {
        Some(n) => {
            out.push(1u8);
            push_norm_wire(&mut out, n);
        },
        None => {
            out.push(0u8);
        },
    }
    push_u32(&mut out, model.rope_tables.seq_len);
    push_u32(&mut out, model.rope_tables.half_head_dim);
    out.push(crate::activation_lut::kind_tag(model.ffn_activation.kind));
    out.push(crate::activation_lut::kind_tag(model.sigmoid_lut.kind));
    proof {
        assert(out@ =~= manifest_wire(*model));
    }
    out
}

/// Lower-case hex digit of a nibble.
pub open spec fn hex_digit(n: int) -> u8 {
    if n < 10 { (48 + n) as u8 } else { (87 + n) as u8 }
}

/// The 64 lower-case hex digits of a 32-byte value (the `comm_w.hex` file).
pub fn hex_encode(bytes: &[u8; 32]) -> (out: Vec<u8>)
    ensures
        out@.len() == 64,
        forall|i: int| 0 <= i < 32 ==> out@[2 * i] == hex_digit((bytes@[i] / 16) as int) && out@[2 * i + 1] == hex_digit((bytes@[i] % 16) as int),
{
    let mut out: Vec<u8> = Vec::new();
    let mut i: usize = 0;
    while i < 32
        invariant
            i <= 32,
            out@.len() == 2 * i,
            forall|t: int| 0 <= t < i ==> out@[2 * t] == hex_digit((bytes@[t] / 16) as int) && out@[2 * t + 1] == hex_digit((bytes@[t] % 16) as int),
        decreases 32 - i,
    {
        let b = bytes[i];
        let hi = b / 16;
        let lo = b % 16;
        out.push(if hi < 10 { 48 + hi } else { 87 + hi });
        out.push(if lo < 10 { 48 + lo } else { 87 + lo });
        i = i + 1;
    }
    out
}

// ----- reading back what was written: the manifest -----

/// `w` sits in `s` at `p`.
pub open spec fn at(s: Seq<u8>, p: nat, w: Seq<u8>) -> bool {
    p + w.len() <= s.len() && s.subrange(p as int, (p + w.len()) as int) == w
}

proof fn lemma_at_split(s: Seq<u8>, p: nat, a: Seq<u8>, b: Seq<u8>)
    requires
        at(s, p, a + b),
    ensures
        at(s, p, a),
        at(s, p + a.len(), b),
{
    let w = a + b;
    let sw = s.subrange(p as int, (p + w.len()) as int);
    assert forall|i: int| 0 <= i < a.len() implies #[trigger] s.subrange(p as int, (p + a.len()) as int)[i] == a[i] by {
        assert(sw[i] == w[i]);
    }
    assert(s.subrange(p as int, (p + a.len()) as int) =~= a);
    assert forall|i: int| 0 <= i < b.len() implies #[trigger] s.subrange((p + a.len()) as int, (p + a.len() + b.len()) as int)[i] == b[i] by {
        assert(sw[a.len() + i] == w[a.len() + i]);
    }
    assert(s.subrange((p + a.len()) as int, (p + a.len() + b.len()) as int) =~= b);
}

proof fn lemma_m_u8_at(s: Seq<u8>, p: nat, x: u8)
    requires
        at(s, p, seq![x]),
    ensures
        m_u8(s, p) == Ok::<(u8, nat), LoadError>((x, p + 1)),
{
    assert(s.subrange(p as int, (p + 1) as int)[0] == s[p as int]);
}

proof fn lemma_m_u32_at(s: Seq<u8>, p: nat, x: u32)
    requires
        at(s, p, le_bytes(x as nat, 4)),
    ensures
        m_u32(s, p) == Ok::<(u32, nat), LoadError>((x, p + 4)),
{
    crate::bytes::lemma_pow256_values();
    crate::bytes::lemma_le_roundtrip(x as nat, 4);
}

proof fn lemma_m_u64_at(s: Seq<u8>, p: nat, x: u64)
    requires
        at(s, p, le_bytes(x as nat, 8)),
    ensures
        m_u64(s, p) == Ok::<(u64, nat), LoadError>((x, p + 8)),
{
    crate::bytes::lemma_pow256_values();
    crate::bytes::lemma_le_roundtrip(x as nat, 8);
}

proof fn lemma_m_i64_at(s: Seq<u8>, p: nat, x: i64)
    requires
        at(s, p, le_signed(x as int, 8)),
    ensures
        m_i64(s, p) == Ok::<(i64, nat), LoadError>((x, p + 8)),
{
    crate::bytes::lemma_pow256_values();
    crate::bytes::lemma_signed_le_roundtrip(x as int, 8);
}

proof fn lemma_m_scale_at(s: Seq<u8>, p: nat, x: Scale)
    requires
        at(s, p, scale_wire(x)),
        x.num > 0,
    ensures
        m_scale(s, p) == Ok::<(Scale, nat), LoadError>((x, p + 4)),
{
    crate::bytes::lemma_pow256_values();
    crate::bytes::lemma_signed_le_roundtrip(x.num as int, 4);
}

/// Wire bytes of a list of scales.
pub open spec fn scales_wire(v: Seq<Scale>) -> Seq<u8>
    decreases v.len(),
{
    if v.len() == 0 { Seq::<u8>::empty() } else { scales_wire(v.drop_last()) + scale_wire(v.last()) }
}

proof fn lemma_m_scales_at(s: Seq<u8>, p: nat, v: Seq<Scale>)
    requires
        at(s, p, scales_wire(v)),
        forall|k: int| 0 <= k < v.len() ==> (#[trigger] v[k]).num > 0,
    ensures
        m_scales(s, p, v.len()) == Ok::<(Seq<Scale>, nat), LoadError>((v, p + 4 * v.len())),
    decreases v.len(),
{
    if v.len() > 0 {
        lemma_at_split(s, p, scales_wire(v.drop_last()), scale_wire(v.last()));
        lemma_m_scales_at(s, p, v.drop_last());
        crate::bytes::lemma_pow256_values();
        assert(scales_wire(v.drop_last()).len() == 4 * (v.len() - 1)) by {
            lemma_scales_wire_len(v.drop_last());
        }
        lemma_m_scale_at(s, (p + 4 * (v.len() - 1)) as nat, v.last());
        assert(v.drop_last().push(v.last()) =~= v);
    } else {
        assert(v =~= Seq::<Scale>::empty());
    }
}

proof fn lemma_scales_wire_len(v: Seq<Scale>)
    ensures
        scales_wire(v).len() == 4 * v.len(),
    decreases v.len(),
{
    if v.len() > 0 {
        lemma_scales_wire_len(v.drop_last());
    }
}

/// Wire bytes of a list of `u32`s.
pub open spec fn u32s_wire(v: Seq<u32>) -> Seq<u8>
    decreases v.len(),
{
    if v.len() == 0 { Seq::<u8>::empty() } else { u32s_wire(v.drop_last()) + le_bytes(v.last() as nat, 4) }
}

proof fn lemma_m_u32s_at(s: Seq<u8>, p: nat, v: Seq<u32>)
    requires
        at(s, p, u32s_wire(v)),
    ensures
        m_u32s(s, p, v.len()) == Ok::<(Seq<u32>, nat), LoadError>((v, p + 4 * v.len())),
    decreases v.len(),
{
    if v.len() > 0 {
        lemma_at_split(s, p, u32s_wire(v.drop_last()), le_bytes(v.last() as nat, 4));
        lemma_m_u32s_at(s, p, v.drop_last());
        lemma_u32s_wire_len(v.drop_last());
        lemma_m_u32_at(s, (p + 4 * (v.len() - 1)) as nat, v.last());
        assert(v.drop_last().push(v.last()) =~= v);
    } else {
        assert(v =~= Seq::<u32>::empty());
    }
}

proof fn lemma_u32s_wire_len(v: Seq<u32>)
    ensures
        u32s_wire(v).len() == 4 * v.len(),
    decreases v.len(),
{
    if v.len() > 0 {
        lemma_u32s_wire_len(v.drop_last());
    }
}

/// The manifest entry of a norm, read back.
pub open spec fn norm_meta_of(ns: NormSpec) -> NormMeta {
    match ns {
        NormSpec::RmsNorm { eps_q, post_scale, .. } => NormMeta::Rms { eps_q, post_scale },
        NormSpec::LayerNorm { eps_q, post_scale, .. } => NormMeta::LayerNorm { eps_q, post_scale },
    }
}

pub open spec fn norm_scale_ok(ns: NormSpec) -> bool {
    match ns {
        NormSpec::RmsNorm { post_scale, .. } => post_scale.num > 0,
        NormSpec::LayerNorm { post_scale, .. } => post_scale.num > 0,
    }
}

proof fn lemma_m_norm_at(s: Seq<u8>, p: nat, ns: NormSpec)
    requires
        at(s, p, norm_wire(ns)),
        norm_scale_ok(ns),
    ensures
        m_norm(s, p) == Ok::<(NormMeta, nat), LoadError>((norm_meta_of(ns), p + 13)),
{
    match ns {
        NormSpec::RmsNorm { eps_q, post_scale, .. } => {
            let a = seq![0u8];
            let b = le_signed(eps_q as int, 8);
            let c = scale_wire(post_scale);
            assert(norm_wire(ns) =~= a + (b + c));
            lemma_at_split(s, p, a, b + c);
            lemma_at_split(s, p + 1, b, c);
            lemma_m_u8_at(s, p, 0u8);
            lemma_m_i64_at(s, p + 1, eps_q);
            lemma_m_scale_at(s, p + 9, post_scale);
        },
        NormSpec::LayerNorm { eps_q, post_scale, .. } => {
            let a = seq![1u8];
            let b = le_signed(eps_q as int, 8);
            let c = scale_wire(post_scale);
            assert(norm_wire(ns) =~= a + (b + c));
            lemma_at_split(s, p, a, b + c);
            lemma_at_split(s, p + 1, b, c);
            lemma_m_u8_at(s, p, 1u8);
            lemma_m_i64_at(s, p + 1, eps_q);
            lemma_m_scale_at(s, p + 9, post_scale);
        },
    }
}

pub open spec fn attn_scales_seq(a: AttentionScales) -> Seq<Scale> {
    seq![a.q, a.k, a.v, a.score, a.attn_out, a.o]
}

pub open spec fn ffn_scales_seq(f: FfnScales) -> Seq<Scale> {
    seq![f.gate, f.up, f.mid, f.down]
}

pub open spec fn dnet_scales_seq(d: DeltaNetScales) -> Seq<Scale> {
    seq![d.q, d.k, d.v, d.alpha_logit, d.beta_logit, d.u, d.decay, d.update, d.o, d.proj]
}

pub open spec fn scales_pos(v: Seq<Scale>) -> bool {
    forall|k: int| 0 <= k < v.len() ==> (#[trigger] v[k]).num > 0
}

proof fn lemma_attn_scales_wire(a: AttentionScales)
    ensures
        attn_scales_wire(a) == scales_wire(attn_scales_seq(a)),
        attn_scales_of(attn_scales_seq(a)) == a,
{
    reveal_with_fuel(scales_wire, 7);
    let v = attn_scales_seq(a);
    assert(v.drop_last().drop_last().drop_last().drop_last().drop_last().drop_last() =~= Seq::<Scale>::empty());
    assert(attn_scales_wire(a) =~= scales_wire(v));
}

proof fn lemma_ffn_scales_wire(f: FfnScales)
    ensures
        scale_wire(f.gate) + scale_wire(f.up) + scale_wire(f.mid) + scale_wire(f.down) == scales_wire(ffn_scales_seq(f)),
        ffn_scales_of(ffn_scales_seq(f)) == f,
{
    reveal_with_fuel(scales_wire, 5);
    let v = ffn_scales_seq(f);
    assert(v.drop_last().drop_last().drop_last().drop_last() =~= Seq::<Scale>::empty());
    assert(scale_wire(f.gate) + scale_wire(f.up) + scale_wire(f.mid) + scale_wire(f.down) =~= scales_wire(v));
}

proof fn lemma_dnet_scales_wire(d: DeltaNetScales)
    ensures
        dnet_scales_wire(d) == scales_wire(dnet_scales_seq(d)),
        dnet_scales_of(dnet_scales_seq(d)) == d,
{
    reveal_with_fuel(scales_wire, 11);
    let v = dnet_scales_seq(d);
    assert(v.drop_last().drop_last().drop_last().drop_last().drop_last().drop_last().drop_last().drop_last().drop_last().drop_last() =~= Seq::<Scale>::empty());
    assert(dnet_scales_wire(d) =~= scales_wire(v));
}

proof fn lemma_u32s3(a: u32, b: u32, c: u32)
    ensures
        u32s_wire(seq![a, b, c]) == le_bytes(a as nat, 4) + le_bytes(b as nat, 4) + le_bytes(c as nat, 4),
{
    reveal_with_fuel(u32s_wire, 4);
    let v = seq![a, b, c];
    assert(v.drop_last().drop_last().drop_last() =~= Seq::<u32>::empty());
    assert(v.drop_last().drop_last() =~= seq![a]);
    assert(v.drop_last() =~= seq![a, b]);
    assert(u32s_wire(v) =~= le_bytes(a as nat, 4) + le_bytes(b as nat, 4) + le_bytes(c as nat, 4));
}

proof fn lemma_u32s4(a: u32, b: u32, c: u32, d: u32)
    ensures
        u32s_wire(seq![a, b, c, d]) == le_bytes(a as nat, 4) + le_bytes(b as nat, 4) + le_bytes(c as nat, 4) + le_bytes(d as nat, 4),
{
    lemma_u32s3(a, b, c);
    let v = seq![a, b, c, d];
    assert(v.drop_last() =~= seq![a, b, c]);
    assert(u32s_wire(v) =~= le_bytes(a as nat, 4) + le_bytes(b as nat, 4) + le_bytes(c as nat, 4) + le_bytes(d as nat, 4));
}

/// The FFN part of a block entry, read back.
proof fn lemma_m_ffn_part_at(s: Seq<u8>, p: nat, norm2: NormSpec, ffn: FfnWeights, f: FfnScales)
    requires
        at(s, p, ffn_part_wire(norm2, ffn, f)),
        norm_scale_ok(norm2),
        scales_pos(ffn_scales_seq(f)),
    ensures
        m_ffn_part(s, p) == Ok::<(NormMeta, u32, Seq<Scale>, nat), LoadError>((norm_meta_of(norm2), ffn.intermediate, ffn_scales_seq(f), p + 33)),
{
    lemma_ffn_scales_wire(f);
    let a = norm_wire(norm2);
    let b = le_bytes(ffn.intermediate as nat, 4);
    let c = scales_wire(ffn_scales_seq(f));
    assert(ffn_part_wire(norm2, ffn, f) =~= a + (b + c));
    lemma_at_split(s, p, a, b + c);
    lemma_m_norm_at(s, p, norm2);
    lemma_at_split(s, p + 13, b, c);
    lemma_m_u32_at(s, p + 13, ffn.intermediate);
    lemma_m_scales_at(s, p + 17, ffn_scales_seq(f));
}

/// The manifest entry of a block, read back.
pub open spec fn layer_meta_of(lw: LayerWeights) -> LayerMeta {
    match lw {
        LayerWeights::DeltaNet { norm1, dnet, dnet_scales, norm2, ffn, ffn_scales } => LayerMeta::DeltaNet {
            norm1: norm_meta_of(norm1), hidden: dnet.hidden, num_qk_heads: dnet.num_qk_heads,
            num_v_heads: dnet.num_v_heads, head_dim_qk: dnet.head_dim_qk, head_dim_v: dnet.head_dim_v,
            dnet_scales, norm2: norm_meta_of(norm2), intermediate: ffn.intermediate, ffn_scales,
        },
        LayerWeights::Gemma {
            norm1, attn, attn_scales, qk_norm_eps_q, qk_norm_post_scale, post_attn_norm, norm2, ffn, ffn_scales,
            post_ffn_norm, sliding_window, inp_gate, layer_output_scale, ..
        } => LayerMeta::Gemma {
            norm1: norm_meta_of(norm1), hidden: attn.hidden, num_q_heads: attn.num_q_heads,
            num_kv_heads: attn.num_kv_heads, head_dim: attn.head_dim, attn_scales, qk_norm_eps_q,
            qk_norm_post_scale, post_attn_norm: norm_meta_of(post_attn_norm), norm2: norm_meta_of(norm2),
            intermediate: ffn.intermediate, ffn_scales, post_ffn_norm: norm_meta_of(post_ffn_norm),
            sliding_window: match sliding_window { Some(w) => w, None => 0u32 },
            has_inp_gate: inp_gate is Some, has_layer_output_scale: layer_output_scale is Some,
        },
        LayerWeights::Attention { norm1, attn, attn_scales, norm2, ffn, ffn_scales } => LayerMeta::Attention {
            norm1: norm_meta_of(norm1), hidden: attn.hidden, num_q_heads: attn.num_q_heads,
            num_kv_heads: attn.num_kv_heads, head_dim: attn.head_dim, attn_scales,
            norm2: norm_meta_of(norm2), intermediate: ffn.intermediate, ffn_scales,
        },
        _ => LayerMeta::Attention {
            norm1: NormMeta::Rms { eps_q: 0, post_scale: Scale { num: 1 } }, hidden: 0, num_q_heads: 0,
            num_kv_heads: 0, head_dim: 0, attn_scales: AttentionScales {
                q: Scale { num: 1 }, k: Scale { num: 1 }, v: Scale { num: 1 }, score: Scale { num: 1 },
                attn_out: Scale { num: 1 }, o: Scale { num: 1 },
            },
            norm2: NormMeta::Rms { eps_q: 0, post_scale: Scale { num: 1 } }, intermediate: 0,
            ffn_scales: FfnScales { gate: Scale { num: 1 }, up: Scale { num: 1 }, mid: Scale { num: 1 }, down: Scale { num: 1 } },
        },
    }
}

/// A block the manifest can carry and read back: a supported kind whose
/// hidden size is the model's and whose scales are all positive.
pub open spec fn layer_encodable(lw: LayerWeights, want: u32) -> bool {
    match lw {
        LayerWeights::Attention { norm1, attn, attn_scales, norm2, ffn_scales, .. } =>
            attn.hidden == want && norm_scale_ok(norm1) && norm_scale_ok(norm2)
                && scales_pos(attn_scales_seq(attn_scales)) && scales_pos(ffn_scales_seq(ffn_scales)),
        LayerWeights::DeltaNet { norm1, dnet, dnet_scales, norm2, ffn_scales, .. } =>
            dnet.hidden == want && norm_scale_ok(norm1) && norm_scale_ok(norm2)
                && scales_pos(dnet_scales_seq(dnet_scales)) && scales_pos(ffn_scales_seq(ffn_scales)),
        LayerWeights::Gemma { norm1, attn, attn_scales, qk_norm_post_scale, post_attn_norm, norm2, ffn_scales, post_ffn_norm, .. } =>
            attn.hidden == want && norm_scale_ok(norm1) && norm_scale_ok(norm2) && norm_scale_ok(post_attn_norm)
                && norm_scale_ok(post_ffn_norm) && qk_norm_post_scale.num > 0
                && scales_pos(attn_scales_seq(attn_scales)) && scales_pos(ffn_scales_seq(ffn_scales)),
        _ => false,
    }
}

proof fn lemma_m_attn_at(s: Seq<u8>, p: nat, idx: u32, want: u32, lw: LayerWeights)
    requires
        lw is Attention,
        layer_encodable(lw, want),
        at(s, p, layer_wire(lw)),
    ensures
        m_layer(s, p, idx, want) == Ok::<(LayerMeta, nat), LoadError>((layer_meta_of(lw), p + layer_wire(lw).len())),
{
    match lw {
        LayerWeights::Attention { norm1, attn, attn_scales, norm2, ffn, ffn_scales } => {
            lemma_attn_scales_wire(attn_scales);
            lemma_u32s3(attn.num_q_heads, attn.num_kv_heads, attn.head_dim);
            let d = seq![attn.num_q_heads, attn.num_kv_heads, attn.head_dim];
            let sc = attn_scales_seq(attn_scales);
            let f = ffn_part_wire(norm2, ffn, ffn_scales);
            let r4 = scales_wire(sc) + f;
            let r3 = u32s_wire(d) + r4;
            let r2 = le_bytes(attn.hidden as nat, 4) + r3;
            let r1 = norm_wire(norm1) + r2;
            assert(layer_wire(lw) =~= seq![0u8] + r1);
            lemma_at_split(s, p, seq![0u8], r1);
            lemma_m_u8_at(s, p, 0u8);
            lemma_at_split(s, p + 1, norm_wire(norm1), r2);
            lemma_m_norm_at(s, p + 1, norm1);
            lemma_at_split(s, p + 14, le_bytes(attn.hidden as nat, 4), r3);
            lemma_m_u32_at(s, p + 14, attn.hidden);
            lemma_at_split(s, p + 18, u32s_wire(d), r4);
            lemma_m_u32s_at(s, p + 18, d);
            lemma_at_split(s, p + 30, scales_wire(sc), f);
            lemma_m_scales_at(s, p + 30, sc);
            lemma_m_ffn_part_at(s, p + 54, norm2, ffn, ffn_scales);
        },
        _ => {},
    }
}

proof fn lemma_m_dnet_at(s: Seq<u8>, p: nat, idx: u32, want: u32, lw: LayerWeights)
    requires
        lw is DeltaNet,
        layer_encodable(lw, want),
        at(s, p, layer_wire(lw)),
    ensures
        m_layer(s, p, idx, want) == Ok::<(LayerMeta, nat), LoadError>((layer_meta_of(lw), p + layer_wire(lw).len())),
{
    match lw {
        LayerWeights::DeltaNet { norm1, dnet, dnet_scales, norm2, ffn, ffn_scales } => {
            lemma_dnet_scales_wire(dnet_scales);
            lemma_u32s4(dnet.num_qk_heads, dnet.num_v_heads, dnet.head_dim_qk, dnet.head_dim_v);
            let d = seq![dnet.num_qk_heads, dnet.num_v_heads, dnet.head_dim_qk, dnet.head_dim_v];
            let sc = dnet_scales_seq(dnet_scales);
            let f = ffn_part_wire(norm2, ffn, ffn_scales);
            let r4 = scales_wire(sc) + f;
            let r3 = u32s_wire(d) + r4;
            let r2 = le_bytes(dnet.hidden as nat, 4) + r3;
            let r1 = norm_wire(norm1) + r2;
            assert(layer_wire(lw) =~= seq![1u8] + r1);
            lemma_at_split(s, p, seq![1u8], r1);
            lemma_m_u8_at(s, p, 1u8);
            lemma_at_split(s, p + 1, norm_wire(norm1), r2);
            lemma_m_norm_at(s, p + 1, norm1);
            lemma_at_split(s, p + 14, le_bytes(dnet.hidden as nat, 4), r3);
            lemma_m_u32_at(s, p + 14, dnet.hidden);
            lemma_at_split(s, p + 18, u32s_wire(d), r4);
            lemma_m_u32s_at(s, p + 18, d);
            lemma_at_split(s, p + 34, scales_wire(sc), f);
            lemma_m_scales_at(s, p + 34, sc);
            lemma_m_ffn_part_at(s, p + 74, norm2, ffn, ffn_scales);
        },
        _ => {},
    }
}

/// Wire bytes of the Gemma fields after the attention scales.
pub open spec fn gemma_tail_wire(eps: i64, qs: Scale, pan: NormSpec, n2: NormSpec, ffn: FfnWeights, fs: FfnScales,
    pfn: NormSpec, sw: u32, g: u8, o: u8) -> Seq<u8>
{
    le_signed(eps as int, 8) + (scale_wire(qs) + (norm_wire(pan) + (ffn_part_wire(n2, ffn, fs)
        + (norm_wire(pfn) + (le_bytes(sw as nat, 4) + (seq![g] + seq![o]))))))
}

proof fn lemma_m_gemma_tail_at(s: Seq<u8>, q: nat, eps: i64, qs: Scale, pan: NormSpec, n2: NormSpec, ffn: FfnWeights,
    fs: FfnScales, pfn: NormSpec, sw: u32, g: u8, o: u8)
    requires
        at(s, q, gemma_tail_wire(eps, qs, pan, n2, ffn, fs, pfn, sw, g, o)),
        qs.num > 0,
        norm_scale_ok(pan),
        norm_scale_ok(n2),
        norm_scale_ok(pfn),
        scales_pos(ffn_scales_seq(fs)),
    ensures
        m_gemma_tail(s, q) == Ok::<(i64, Scale, NormMeta, NormMeta, u32, Seq<Scale>, NormMeta, u32, u8, u8, nat), LoadError>(
            (eps, qs, norm_meta_of(pan), norm_meta_of(n2), ffn.intermediate, ffn_scales_seq(fs), norm_meta_of(pfn), sw, g, o, q + 77)),
{
    let t9 = seq![g] + seq![o];
    let t8 = le_bytes(sw as nat, 4) + t9;
    let t7 = norm_wire(pfn) + t8;
    let t6 = ffn_part_wire(n2, ffn, fs) + t7;
    let t5 = norm_wire(pan) + t6;
    let t4 = scale_wire(qs) + t5;
    lemma_at_split(s, q, le_signed(eps as int, 8), t4);
    lemma_m_i64_at(s, q, eps);
    lemma_at_split(s, q + 8, scale_wire(qs), t5);
    lemma_m_scale_at(s, q + 8, qs);
    lemma_at_split(s, q + 12, norm_wire(pan), t6);
    lemma_m_norm_at(s, q + 12, pan);
    lemma_at_split(s, q + 25, ffn_part_wire(n2, ffn, fs), t7);
    lemma_m_ffn_part_at(s, q + 25, n2, ffn, fs);
    lemma_at_split(s, q + 58, norm_wire(pfn), t8);
    lemma_m_norm_at(s, q + 58, pfn);
    lemma_at_split(s, q + 71, le_bytes(sw as nat, 4), t9);
    lemma_m_u32_at(s, q + 71, sw);
    lemma_at_split(s, q + 75, seq![g], seq![o]);
    lemma_m_u8_at(s, q + 75, g);
    lemma_m_u8_at(s, q + 76, o);
}

proof fn lemma_at_join(s: Seq<u8>, p: nat, a: Seq<u8>, b: Seq<u8>)
    requires
        at(s, p, a),
        at(s, p + a.len(), b),
    ensures
        at(s, p, a + b),
{
    assert(s.subrange(p as int, (p + a.len() + b.len()) as int) =~= a + b) by {
        assert forall|i: int| 0 <= i < a.len() + b.len() implies #[trigger] s.subrange(p as int, (p + a.len() + b.len()) as int)[i] == (a + b)[i] by {
            if i < a.len() {
                assert(s.subrange(p as int, (p + a.len()) as int)[i] == a[i]);
            } else {
                assert(s.subrange((p + a.len()) as int, (p + a.len() + b.len()) as int)[i - a.len()] == b[i - a.len()]);
            }
        }
    }
}

/// The fields of a Gemma entry sit at their offsets.
#[verifier::spinoff_prover]
#[verifier::rlimit(60)]
proof fn lemma_gemma_parts(s: Seq<u8>, p: nat, lw: LayerWeights)
    requires
        lw is Gemma,
        at(s, p, layer_wire(lw)),
    ensures
        match lw {
            LayerWeights::Gemma {
                norm1, attn, attn_scales, qk_norm_eps_q, qk_norm_post_scale, post_attn_norm, norm2, ffn, ffn_scales,
                post_ffn_norm, sliding_window, inp_gate, layer_output_scale, ..
            } => {
                &&& layer_wire(lw).len() == 131
                &&& at(s, p, seq![2u8])
                &&& at(s, p + 1, norm_wire(norm1))
                &&& at(s, p + 14, le_bytes(attn.hidden as nat, 4))
                &&& at(s, p + 18, u32s_wire(seq![attn.num_q_heads, attn.num_kv_heads, attn.head_dim]))
                &&& at(s, p + 30, scales_wire(attn_scales_seq(attn_scales)))
                &&& at(s, p + 54, gemma_tail_wire(qk_norm_eps_q, qk_norm_post_scale, post_attn_norm, norm2, ffn,
                    ffn_scales, post_ffn_norm, match sliding_window { Some(w) => w, None => 0u32 },
                    if inp_gate is Some { 1u8 } else { 0u8 }, if layer_output_scale is Some { 1u8 } else { 0u8 }))
            },
            _ => true,
        },
{
    match lw {
        LayerWeights::Gemma {
            norm1, attn, attn_scales, qk_norm_eps_q, qk_norm_post_scale, post_attn_norm, norm2, ffn, ffn_scales,
            post_ffn_norm, sliding_window, inp_gate, layer_output_scale, ..
        } => {
            lemma_attn_scales_wire(attn_scales);
            lemma_u32s3(attn.num_q_heads, attn.num_kv_heads, attn.head_dim);
            let sw: u32 = match sliding_window { Some(w) => w, None => 0u32 };
            let g: u8 = if inp_gate is Some { 1u8 } else { 0u8 };
            let o: u8 = if layer_output_scale is Some { 1u8 } else { 0u8 };
            let n1 = norm_wire(norm1);
            let h = le_bytes(attn.hidden as nat, 4);
            let q = le_bytes(attn.num_q_heads as nat, 4);
            let kv = le_bytes(attn.num_kv_heads as nat, 4);
            let hd = le_bytes(attn.head_dim as nat, 4);
            let asw = attn_scales_wire(attn_scales);
            let eps = le_signed(qk_norm_eps_q as int, 8);
            let qs = scale_wire(qk_norm_post_scale);
            let pan = norm_wire(post_attn_norm);
            let fp = ffn_part_wire(norm2, ffn, ffn_scales);
            let pfn = norm_wire(post_ffn_norm);
            let swb = le_bytes(sw as nat, 4);
            let go = seq![g, o];
            let p1 = seq![2u8];
            let p2 = p1 + n1;
            let p3 = p2 + h;
            let p4 = p3 + q;
            let p5 = p4 + kv;
            let p6 = p5 + hd;
            let p7 = p6 + asw;
            let p8 = p7 + eps;
            let p9 = p8 + qs;
            let p10 = p9 + pan;
            let p11 = p10 + fp;
            let p12 = p11 + pfn;
            let p13 = p12 + swb;
            assert(layer_wire(lw) == p13 + go);
            lemma_at_split(s, p, p13, go);
            lemma_at_split(s, p, p12, swb);
            lemma_at_split(s, p, p11, pfn);
            lemma_at_split(s, p, p10, fp);
            lemma_at_split(s, p, p9, pan);
            lemma_at_split(s, p, p8, qs);
            lemma_at_split(s, p, p7, eps);
            lemma_at_split(s, p, p6, asw);
            lemma_at_split(s, p, p5, hd);
            lemma_at_split(s, p, p4, kv);
            lemma_at_split(s, p, p3, q);
            lemma_at_split(s, p, p2, h);
            lemma_at_split(s, p, p1, n1);
            lemma_at_join(s, p + 18, q, kv);
            lemma_at_join(s, p + 18, q + kv, hd);
            assert(seq![g] + seq![o] =~= go);
            let t9 = seq![g] + seq![o];
            let t8 = swb + t9;
            let t7 = pfn + t8;
            let t6 = fp + t7;
            let t5 = pan + t6;
            let t4 = qs + t5;
            let t3 = eps + t4;
            lemma_at_join(s, p + 125, swb, t9);
            lemma_at_join(s, p + 112, pfn, t8);
            lemma_at_join(s, p + 79, fp, t7);
            lemma_at_join(s, p + 66, pan, t6);
            lemma_at_join(s, p + 62, qs, t5);
            lemma_at_join(s, p + 54, eps, t4);
        },
        _ => {},
    }
}

#[verifier::spinoff_prover]
#[verifier::rlimit(100)]
proof fn lemma_m_gemma_at(s: Seq<u8>, p: nat, idx: u32, want: u32, lw: LayerWeights)
    requires
        lw is Gemma,
        layer_encodable(lw, want),
        at(s, p, layer_wire(lw)),
    ensures
        m_layer(s, p, idx, want) == Ok::<(LayerMeta, nat), LoadError>((layer_meta_of(lw), p + layer_wire(lw).len())),
{
    lemma_gemma_parts(s, p, lw);
    match lw {
        LayerWeights::Gemma {
            norm1, attn, attn_scales, qk_norm_eps_q, qk_norm_post_scale, post_attn_norm, norm2, ffn, ffn_scales,
            post_ffn_norm, sliding_window, inp_gate, layer_output_scale, ..
        } => {
            lemma_attn_scales_wire(attn_scales);
            let d = seq![attn.num_q_heads, attn.num_kv_heads, attn.head_dim];
            let sc = attn_scales_seq(attn_scales);
            let sw: u32 = match sliding_window { Some(w) => w, None => 0u32 };
            let g: u8 = if inp_gate is Some { 1u8 } else { 0u8 };
            let o: u8 = if layer_output_scale is Some { 1u8 } else { 0u8 };
            let t3 = gemma_tail_wire(qk_norm_eps_q, qk_norm_post_scale, post_attn_norm, norm2, ffn, ffn_scales,
                post_ffn_norm, sw, g, o);
            lemma_m_u8_at(s, p, 2u8);
            lemma_m_norm_at(s, p + 1, norm1);
            lemma_m_u32_at(s, p + 14, attn.hidden);
            lemma_m_u32s_at(s, p + 18, d);
            lemma_m_scales_at(s, p + 30, sc);
            lemma_m_gemma_tail_at(s, p + 54, qk_norm_eps_q, qk_norm_post_scale, post_attn_norm, norm2, ffn, ffn_scales,
                post_ffn_norm, sw, g, o);
        },
        _ => {},
    }
}

proof fn lemma_m_layer_at(s: Seq<u8>, p: nat, idx: u32, want: u32, lw: LayerWeights)
    requires
        layer_encodable(lw, want),
        at(s, p, layer_wire(lw)),
    ensures
        m_layer(s, p, idx, want) == Ok::<(LayerMeta, nat), LoadError>((layer_meta_of(lw), p + layer_wire(lw).len())),
{
    match lw {
        LayerWeights::Attention { .. } => lemma_m_attn_at(s, p, idx, want, lw),
        LayerWeights::DeltaNet { .. } => lemma_m_dnet_at(s, p, idx, want, lw),
        LayerWeights::Gemma { .. } => lemma_m_gemma_at(s, p, idx, want, lw),
        _ => {},
    }
}

#[verifier::spinoff_prover]
#[verifier::rlimit(40)]
proof fn lemma_m_layers_at(s: Seq<u8>, p: nat, ls: Seq<LayerWeights>, n: nat, want: u32)
    requires
        n <= ls.len(),
        n <= u32::MAX + 1,
        forall|k: int| 0 <= k < ls.len() ==> layer_encodable(#[trigger] ls[k], want),
        at(s, p, layers_wire(ls, n as int)),
    ensures
        m_layers(s, p, n, want) == Ok::<(Seq<LayerMeta>, nat), LoadError>(
            (Seq::new(n, |k: int| layer_meta_of(ls[k])), p + layers_wire(ls, n as int).len())),
    decreases n,
{
    if n == 0 {
        assert(Seq::new(0, |k: int| layer_meta_of(ls[k])) =~= Seq::<LayerMeta>::empty());
    } else {
        let m1 = (n - 1) as nat;
        lemma_at_split(s, p, layers_wire(ls, m1 as int), layer_wire(ls[m1 as int]));
        lemma_m_layers_at(s, p, ls, m1, want);
        lemma_m_layer_at(s, p + layers_wire(ls, m1 as int).len(), m1 as u32, want, ls[m1 as int]);
        assert(Seq::new(m1, |k: int| layer_meta_of(ls[k])).push(layer_meta_of(ls[m1 as int]))
            =~= Seq::new(n, |k: int| layer_meta_of(ls[k])));
    }
}

/// The manifest of a model, as it is read back.
pub open spec fn manifest_view_of(m: Model) -> ManifestView {
    ManifestView {
        arch_tag: m.arch_tag@,
        feature_flags: m.feature_flags,
        dims: m.dims,
        layer_metas: Seq::new(m.layers@.len(), |k: int| layer_meta_of(m.layers@[k])),
        final_norm: match m.final_norm { Some(n) => Some(norm_meta_of(n)), None => None },
        rope_seq_len: m.rope_tables.seq_len,
        rope_half_head_dim: m.rope_tables.half_head_dim,
        ffn_activation_kind: m.ffn_activation.kind,
        sigmoid_lut_kind: m.sigmoid_lut.kind,
    }
}

/// A model whose manifest can be written and read back: at most
/// `u32::MAX` blocks, each of a kind the manifest describes with the
/// model's hidden size, and every scale positive.
pub open spec fn manifest_encodable(m: Model) -> bool {
    &&& m.layers@.len() <= u32::MAX
    &&& forall|k: int| 0 <= k < m.layers@.len() ==> layer_encodable(#[trigger] m.layers@[k], m.dims.hidden)
    &&& match m.final_norm { Some(n) => norm_scale_ok(n), None => true }
}

proof fn lemma_kind_tag_round_trip(k: ActivationKind)
    ensures
        kind_from_tag_spec(crate::activation_lut::kind_tag_spec(k)) == k,
{
}

proof fn lemma_u32s5(a: u32, b: u32, c: u32, d: u32, e: u32)
    ensures
        u32s_wire(seq![a, b, c, d, e]) == le_bytes(a as nat, 4) + le_bytes(b as nat, 4) + le_bytes(c as nat, 4)
            + le_bytes(d as nat, 4) + le_bytes(e as nat, 4),
{
    lemma_u32s4(a, b, c, d);
    let v = seq![a, b, c, d, e];
    assert(v.drop_last() =~= seq![a, b, c, d]);
}

proof fn lemma_u32s2(a: u32, b: u32)
    ensures
        u32s_wire(seq![a, b]) == le_bytes(a as nat, 4) + le_bytes(b as nat, 4),
{
    reveal_with_fuel(u32s_wire, 3);
    let v = seq![a, b];
    assert(v.drop_last().drop_last() =~= Seq::<u32>::empty());
    assert(v.drop_last() =~= seq![a]);
    assert(u32s_wire(v) =~= le_bytes(a as nat, 4) + le_bytes(b as nat, 4));
}

/// The final-norm entry of a manifest.
pub open spec fn final_wire(f: Option<NormSpec>) -> Seq<u8> {
    match f {
        Some(n) => seq![1u8] + norm_wire(n),
        None => seq![0u8],
    }
}

/// The first 56 bytes of a manifest: magic, version, tag, flags, dimensions
/// and block count.
pub open spec fn manifest_head_wire(m: Model) -> Seq<u8> {
    magic_spec() + le_bytes(VERSION as nat, 4) + m.arch_tag@ + le_bytes(m.feature_flags as nat, 8)
        + le_bytes(m.dims.vocab as nat, 4) + le_bytes(m.dims.hidden as nat, 4) + le_bytes(m.dims.seq_len as nat, 4)
        + le_bytes(m.dims.activation_tile as nat, 4) + le_bytes((m.layers@.len() as u32) as nat, 4)
}

/// The rest of a manifest: blocks, final norm, table shapes and kind tags.
pub open spec fn manifest_tail_wire(m: Model) -> Seq<u8> {
    layers_wire(m.layers@, m.layers@.len() as int) + final_wire(m.final_norm)
        + le_bytes(m.rope_tables.seq_len as nat, 4) + le_bytes(m.rope_tables.half_head_dim as nat, 4)
        + seq![crate::activation_lut::kind_tag_spec(m.ffn_activation.kind), crate::activation_lut::kind_tag_spec(m.sigmoid_lut.kind)]
}

#[verifier::spinoff_prover]
#[verifier::rlimit(60)]
proof fn lemma_manifest_head_at(s: Seq<u8>, m: Model, tail: Seq<u8>)
    requires
        s == manifest_head_wire(m) + tail,
    ensures
        s.len() >= 56,
        at(s, 0, magic_spec()),
        at(s, 8, le_bytes(VERSION as nat, 4)),
        at(s, 12, m.arch_tag@),
        at(s, 28, le_bytes(m.feature_flags as nat, 8)),
        at(s, 36, u32s_wire(seq![m.dims.vocab, m.dims.hidden, m.dims.seq_len, m.dims.activation_tile,
            m.layers@.len() as u32])),
{
    let nl = m.layers@.len() as u32;
    let ver = le_bytes(VERSION as nat, 4);
    let arch = m.arch_tag@;
    let ff = le_bytes(m.feature_flags as nat, 8);
    let dv = le_bytes(m.dims.vocab as nat, 4);
    let dh = le_bytes(m.dims.hidden as nat, 4);
    let ds = le_bytes(m.dims.seq_len as nat, 4);
    let dt = le_bytes(m.dims.activation_tile as nat, 4);
    let dn = le_bytes(nl as nat, 4);
    let p1 = magic_spec();
    let p2 = p1 + ver;
    let p3 = p2 + arch;
    let p4 = p3 + ff;
    let p5 = p4 + dv;
    let p6 = p5 + dh;
    let p7 = p6 + ds;
    let p8 = p7 + dt;
    let p9 = p8 + dn;
    assert(s =~= p9 + tail);
    assert(at(s, 0, s)) by {
        assert(s.subrange(0, s.len() as int) =~= s);
    }
    lemma_at_split(s, 0, p9, tail);
    lemma_at_split(s, 0, p8, dn);
    lemma_at_split(s, 0, p7, dt);
    lemma_at_split(s, 0, p6, ds);
    lemma_at_split(s, 0, p5, dh);
    lemma_at_split(s, 0, p4, dv);
    lemma_at_split(s, 0, p3, ff);
    lemma_at_split(s, 0, p2, arch);
    lemma_at_split(s, 0, p1, ver);
    lemma_at_join(s, 36, dv, dh);
    lemma_at_join(s, 36, dv + dh, ds);
    lemma_at_join(s, 36, dv + dh + ds, dt);
    lemma_at_join(s, 36, dv + dh + ds + dt, dn);
    lemma_u32s5(m.dims.vocab, m.dims.hidden, m.dims.seq_len, m.dims.activation_tile, nl);
}

#[verifier::spinoff_prover]
#[verifier::rlimit(60)]
proof fn lemma_manifest_head(s: Seq<u8>, m: Model, tail: Seq<u8>)
    requires
        s == manifest_head_wire(m) + tail,
    ensures
        manifest_spec(s) == manifest_rest_spec(s, m.arch_tag@, m.feature_flags, m.dims, m.layers@.len() as u32, 56),
{
    let nl = m.layers@.len() as u32;
    let d = seq![m.dims.vocab, m.dims.hidden, m.dims.seq_len, m.dims.activation_tile, nl];
    lemma_manifest_head_at(s, m, tail);
    lemma_m_u32_at(s, 8, VERSION);
    lemma_m_u64_at(s, 28, m.feature_flags);
    lemma_m_u32s_at(s, 36, d);
    assert(m_u32s(s, 36, 5) == Ok::<(Seq<u32>, nat), LoadError>((d, 56)));
    assert(s.subrange(12, 28) == m.arch_tag@);
    assert(s.subrange(0, 8) == magic_spec());
    assert(m.dims == (ModelDims { vocab: d[0], hidden: d[1], seq_len: d[2], activation_tile: d[3] }));
}

#[verifier::spinoff_prover]
#[verifier::rlimit(60)]
proof fn lemma_manifest_tail(s: Seq<u8>, m: Model)
    requires
        manifest_encodable(m),
        s.len() == 56 + manifest_tail_wire(m).len(),
        at(s, 56, manifest_tail_wire(m)),
    ensures
        manifest_rest_spec(s, m.arch_tag@, m.feature_flags, m.dims, m.layers@.len() as u32, 56)
            == Ok::<ManifestView, LoadError>(manifest_view_of(m)),
{
    let nl = m.layers@.len() as u32;
    let lw = layers_wire(m.layers@, m.layers@.len() as int);
    let fin = final_wire(m.final_norm);
    let rs = le_bytes(m.rope_tables.seq_len as nat, 4);
    let rh = le_bytes(m.rope_tables.half_head_dim as nat, 4);
    let kt = seq![crate::activation_lut::kind_tag_spec(m.ffn_activation.kind), crate::activation_lut::kind_tag_spec(m.sigmoid_lut.kind)];
    let t1 = lw + fin;
    let t2 = t1 + rs;
    let t3 = t2 + rh;
    lemma_at_split(s, 56, t3, kt);
    lemma_at_split(s, 56, t2, rh);
    lemma_at_split(s, 56, t1, rs);
    lemma_at_split(s, 56, lw, fin);
    let l = lw.len();
    lemma_m_layers_at(s, 56, m.layers@, m.layers@.len(), m.dims.hidden);
    let q = 56 + l;
    match m.final_norm {
        Some(n) => {
            lemma_at_split(s, q, seq![1u8], norm_wire(n));
            lemma_m_u8_at(s, q, 1u8);
            lemma_m_norm_at(s, q + 1, n);
        },
        None => {
            lemma_m_u8_at(s, q, 0u8);
        },
    }
    let q2 = q + fin.len();
    lemma_at_join(s, q2, rs, rh);
    lemma_u32s2(m.rope_tables.seq_len, m.rope_tables.half_head_dim);
    lemma_m_u32s_at(s, q2, seq![m.rope_tables.seq_len, m.rope_tables.half_head_dim]);
    assert(kt =~= seq![kt[0]] + seq![kt[1]]);
    lemma_at_split(s, q2 + 8, seq![kt[0]], seq![kt[1]]);
    lemma_m_u8_at(s, q2 + 8, kt[0]);
    lemma_m_u8_at(s, q2 + 9, kt[1]);
    lemma_kind_tag_round_trip(m.ffn_activation.kind);
    lemma_kind_tag_round_trip(m.sigmoid_lut.kind);
    assert(Seq::new(nl as nat, |k: int| layer_meta_of(m.layers@[k])) =~= manifest_view_of(m).layer_metas);
}

/// Reading a written manifest gives back the model's block shapes, scales,
/// norms, dimensions, tags and table shapes.
pub proof fn lemma_manifest_round_trip(m: Model)
    requires
        manifest_encodable(m),
    ensures
        manifest_spec(manifest_wire(m)) == Ok::<ManifestView, LoadError>(manifest_view_of(m)),
{
    let s = manifest_wire(m);
    let head = manifest_head_wire(m);
    let tail = manifest_tail_wire(m);
    assert(s =~= head + tail);
    assert(head.len() == 56);
    lemma_manifest_head(s, m, tail);
    assert(s.subrange(56, s.len() as int) =~= tail);
    lemma_manifest_tail(s, m);
}

} // verus!
