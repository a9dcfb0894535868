use ai_pow_vi::activation_lut::ActivationLut;
use ai_pow_vi::attention::AttentionScales;
use ai_pow_vi::attention::AttentionWeights;
use ai_pow_vi::comm_w::canonical_weight_bytes;
use ai_pow_vi::comm_w::compute_comm_w;
use ai_pow_vi::deltanet::DeltaNetScales;
use ai_pow_vi::deltanet::DeltaNetWeights;
use ai_pow_vi::ffn::FfnScales;
use ai_pow_vi::ffn::FfnWeights;
use ai_pow_vi::io::encode_manifest;
use ai_pow_vi::io::hex_encode;
use ai_pow_vi::io::load_model_bytes;
use ai_pow_vi::io::manifest_kinds_supported;
use ai_pow_vi::io::parse_manifest;
use ai_pow_vi::io::LoadError;
use ai_pow_vi::layer::LayerWeights;
use ai_pow_vi::layer::NormSpec;
use ai_pow_vi::model::Model;
use ai_pow_vi::model::ModelDims;
use ai_pow_vi::quant::Scale;
use ai_pow_vi::quant::SCALE_DENOM_LOG2;
use ai_pow_vi::rmsnorm::DEFAULT_EPS_Q;
use ai_pow_vi::rope::RopeTables;
use ai_pow_vi::softmax::ExpLut;

fn load(manifest: &[u8], weights: &[u8], comm: &[u8; 32]) -> Result<Model, LoadError> {
    load_model_bytes(manifest, weights, comm).expect("manifest sizes in range")
}

fn lcg_bytes(len: usize, seed: u64) -> Vec<i8> {
    let mut s = seed;
    (0..len)
        .map(|_| {
            s = s
                .wrapping_mul(6364136223846793005)
                .wrapping_add(1442695040888963407);
            s.wrapping_shr(56) as i8
        })
        .collect()
}

fn small() -> Scale {
    Scale::from_num(1 << (SCALE_DENOM_LOG2 - 4)).unwrap()
}

fn build_attn_model() -> Model {
    let hidden = 4u32;
    let hu = hidden as usize;
    Model {
        dims: ModelDims {
            vocab: 8,
            hidden,
            seq_len: 4,
            activation_tile: 2,
        },
        arch_tag: [0u8; 16],
        feature_flags: 0,
        embed: lcg_bytes(8 * hu, 0xa1a1),
        layers: vec![LayerWeights::Attention {
            norm1: NormSpec::RmsNorm {
                gamma: lcg_bytes(hu, 0xb2b2),
                eps_q: DEFAULT_EPS_Q,
                post_scale: small(),
            },
            attn: AttentionWeights {
                hidden,
                num_q_heads: 1,
                num_kv_heads: 1,
                head_dim: 2,
                w_q: lcg_bytes(hu * 2, 0xc3c3),
                w_k: lcg_bytes(hu * 2, 0xd4d4),
                w_v: lcg_bytes(hu * 2, 0xe5e5),
                w_o: lcg_bytes(2 * hu, 0xf6f6),
            },
            attn_scales: AttentionScales {
                q: small(),
                k: small(),
                v: small(),
                score: small(),
                attn_out: small(),
                o: small(),
            },
            norm2: NormSpec::RmsNorm {
                gamma: lcg_bytes(hu, 0x0707),
                eps_q: DEFAULT_EPS_Q,
                post_scale: small(),
            },
            ffn: FfnWeights {
                hidden,
                intermediate: hidden * 2,
                w_gate: lcg_bytes(hu * (hu * 2), 0x1818),
                w_up: lcg_bytes(hu * (hu * 2), 0x2929),
                w_down: lcg_bytes((hu * 2) * hu, 0x3a3a),
            },
            ffn_scales: FfnScales {
                gate: small(),
                up: small(),
                mid: small(),
                down: small(),
            },
        }],
        final_norm: Some(NormSpec::RmsNorm {
            gamma: lcg_bytes(hu, 0x4b4b),
            eps_q: DEFAULT_EPS_Q,
            post_scale: small(),
        }),
        rope_tables: RopeTables::identity(4, 1),
        softmax_lut: ExpLut::uniform_test(),
        sigmoid_lut: ActivationLut::identity(),
        ffn_activation: ActivationLut::identity(),
    }
}

fn build_deltanet_model() -> Model {
    let hidden = 4u32;
    let hu = hidden as usize;
    let num_qk = 1u32;
    let num_v = 2u32;
    let hd = 2u32;
    Model {
        dims: ModelDims {
            vocab: 8,
            hidden,
            seq_len: 4,
            activation_tile: 2,
        },
        arch_tag: [0u8; 16],
        feature_flags: 0,
        embed: lcg_bytes(8 * hu, 0xa1a1),
        layers: vec![LayerWeights::DeltaNet {
            norm1: NormSpec::LayerNorm {
                gamma: lcg_bytes(hu, 0xb2b2),
                beta: lcg_bytes(hu, 0xc3c3),
                eps_q: DEFAULT_EPS_Q,
                post_scale: small(),
            },
            dnet: DeltaNetWeights {
                hidden,
                num_qk_heads: num_qk,
                num_v_heads: num_v,
                head_dim_qk: hd,
                head_dim_v: hd,
                w_q: lcg_bytes(hu * (num_qk * hd) as usize, 0xd4d4),
                w_k: lcg_bytes(hu * (num_qk * hd) as usize, 0xe5e5),
                w_v: lcg_bytes(hu * (num_v * hd) as usize, 0xf6f6),
                w_alpha: lcg_bytes(hu * num_qk as usize, 0x0707),
                w_beta: lcg_bytes(hu * num_qk as usize, 0x1818),
                w_o: lcg_bytes((num_v * hd) as usize * hu, 0x2929),
            },
            dnet_scales: DeltaNetScales {
                q: small(),
                k: small(),
                v: small(),
                alpha_logit: small(),
                beta_logit: small(),
                u: small(),
                decay: small(),
                update: small(),
                o: small(),
                proj: small(),
            },
            norm2: NormSpec::RmsNorm {
                gamma: lcg_bytes(hu, 0x3a3a),
                eps_q: DEFAULT_EPS_Q,
                post_scale: small(),
            },
            ffn: FfnWeights {
                hidden,
                intermediate: hidden * 2,
                w_gate: lcg_bytes(hu * (hu * 2), 0x4b4b),
                w_up: lcg_bytes(hu * (hu * 2), 0x5c5c),
                w_down: lcg_bytes((hu * 2) * hu, 0x6d6d),
            },
            ffn_scales: FfnScales {
                gate: small(),
                up: small(),
                mid: small(),
                down: small(),
            },
        }],
        final_norm: None,
        rope_tables: RopeTables::identity(4, 1),
        softmax_lut: ExpLut::uniform_test(),
        sigmoid_lut: ActivationLut::identity(),
        ffn_activation: ActivationLut::identity(),
    }
}

#[test]
fn round_trip_attention_model() {
    let m = build_attn_model();
    let manifest = encode_manifest(&m);
    let weights = canonical_weight_bytes(&m);
    let comm = compute_comm_w(&m);
    let loaded = load(&manifest, &weights, &comm).unwrap();
    assert_eq!(m.dims, loaded.dims);
    assert_eq!(m.embed, loaded.embed);
    assert_eq!(m.layers, loaded.layers);
    assert_eq!(m.final_norm, loaded.final_norm);
    assert_eq!(m.rope_tables, loaded.rope_tables);
    assert_eq!(m.softmax_lut, loaded.softmax_lut);
    assert_eq!(m.sigmoid_lut, loaded.sigmoid_lut);
    assert_eq!(m.ffn_activation, loaded.ffn_activation);
    assert_eq!(compute_comm_w(&loaded), comm);
}

#[test]
fn round_trip_deltanet_model() {
    let m = build_deltanet_model();
    let manifest = encode_manifest(&m);
    let weights = canonical_weight_bytes(&m);
    let comm = compute_comm_w(&m);
    let loaded = load(&manifest, &weights, &comm).unwrap();
    assert_eq!(m.layers, loaded.layers);
    assert_eq!(m.final_norm, loaded.final_norm);
}

#[test]
fn flipping_one_weight_byte_trips_comm_w() {
    let m = build_attn_model();
    let manifest = encode_manifest(&m);
    let mut weights = canonical_weight_bytes(&m);
    let comm = compute_comm_w(&m);
    weights[7] ^= 1;
    let result = load(&manifest, &weights, &comm);
    assert!(matches!(result, Err(LoadError::CommWMismatch)));
}

#[test]
fn flipping_one_manifest_byte_trips_comm_w() {
    let m = build_attn_model();
    let mut manifest = encode_manifest(&m);
    let weights = canonical_weight_bytes(&m);
    let comm = compute_comm_w(&m);
    manifest[15] ^= 1;
    assert!(load(&manifest, &weights, &comm).is_err());
}

#[test]
fn wrong_expected_comm_w_rejected() {
    let m = build_attn_model();
    let manifest = encode_manifest(&m);
    let weights = canonical_weight_bytes(&m);
    let mut wrong = compute_comm_w(&m);
    wrong[0] ^= 1;
    let result = load(&manifest, &weights, &wrong);
    assert!(matches!(result, Err(LoadError::CommWMismatch)));
}

#[test]
fn truncated_weights_returns_eof() {
    let m = build_attn_model();
    let manifest = encode_manifest(&m);
    let weights = canonical_weight_bytes(&m);
    let comm = compute_comm_w(&m);
    let r = load(&manifest, &weights[..weights.len() / 2], &comm);
    assert!(matches!(r, Err(LoadError::WeightsEof(_))));
}

#[test]
fn trailing_weight_byte_rejected() {
    let m = build_attn_model();
    let manifest = encode_manifest(&m);
    let mut weights = canonical_weight_bytes(&m);
    weights.push(0);
    let comm = compute_comm_w(&m);
    assert!(matches!(load(&manifest, &weights, &comm), Err(LoadError::WeightsTrailing)));
}

#[test]
fn trailing_manifest_byte_rejected() {
    let m = build_attn_model();
    let mut manifest = encode_manifest(&m);
    manifest.push(0);
    assert!(matches!(parse_manifest(&manifest), Err(LoadError::ManifestTrailing)));
}

#[test]
fn truncated_manifest_reports_offset() {
    let m = build_attn_model();
    let manifest = encode_manifest(&m);
    assert!(matches!(parse_manifest(&manifest[..10]), Err(LoadError::ManifestEof(8))));
    assert!(matches!(parse_manifest(&manifest[..5]), Err(LoadError::ManifestEof(0))));
}

#[test]
fn bad_magic_rejected() {
    let r = load(b"NOTAIPOW", b"", &[0u8; 32]);
    assert!(matches!(r, Err(LoadError::BadMagic)));
}

#[test]
fn unsupported_version_rejected() {
    let mut buf: Vec<u8> = Vec::new();
    buf.extend_from_slice(b"AIPOWVI1");
    buf.extend_from_slice(&999u32.to_le_bytes());
    let r = load(&buf, b"", &[0u8; 32]);
    assert!(matches!(r, Err(LoadError::UnsupportedVersion(999))));
}

#[test]
fn comm_w_hex_file_written_correctly() {
    let m = build_attn_model();
    let want = compute_comm_w(&m);
    let hex = hex_encode(&want);
    assert_eq!(hex.len(), 64);
    let expected: String = want.iter().map(|b| format!("{:02x}", b)).collect();
    assert_eq!(String::from_utf8(hex).unwrap(), expected);
}

#[test]
fn zero_scale_in_manifest_rejected() {
    let m = build_attn_model();
    let mut manifest = encode_manifest(&m);
    // The first norm's post-scale numerator sits after magic, version,
    // arch tag, flags, four dims, the block count, the block tag, the norm
    // tag and the norm epsilon.
    let off = 8 + 4 + 16 + 8 + 16 + 4 + 1 + 1 + 8;
    manifest[off..off + 4].copy_from_slice(&0i32.to_le_bytes());
    assert!(matches!(parse_manifest(&manifest), Err(LoadError::Scale(_))));
}

#[test]
fn manifest_kinds_supported_reports_unencodable_blocks() {
    assert!(manifest_kinds_supported(&build_attn_model()));
    assert!(manifest_kinds_supported(&build_deltanet_model()));
    let mut empty = build_attn_model();
    empty.layers.clear();
    assert!(manifest_kinds_supported(&empty));
    let mut q = build_attn_model();
    let layer = q.layers.remove(0);
    if let LayerWeights::Attention { norm1, attn, attn_scales, norm2, ffn, ffn_scales } = layer {
        let hd = attn.head_dim as usize;
        q.layers.push(LayerWeights::QwenStandard {
            norm1,
            attn,
            attn_scales,
            q_norm_gamma: vec![1i8; hd],
            k_norm_gamma: vec![1i8; hd],
            qk_norm_eps_q: DEFAULT_EPS_Q,
            qk_norm_post_scale: small(),
            norm2,
            ffn,
            ffn_scales,
        });
    } else {
        unreachable!();
    }
    assert!(!manifest_kinds_supported(&q));
}
