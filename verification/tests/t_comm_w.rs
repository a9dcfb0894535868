use ai_pow_vi::model::Model;
use ai_pow_vi::quant::Scale;
use ai_pow_vi::rope::RopeTables;
use ai_pow_vi::softmax::ExpLut;
use ai_pow_vi::deltanet::DeltaNetScales;
use ai_pow_vi::deltanet::DeltaNetWeights;
use ai_pow_vi::comm_w::WEIGHT_TILE_BYTES;
use ai_pow_vi::comm_w::canonical_weight_bytes;
use ai_pow_vi::comm_w::compute_comm_w;
use ai_pow_vi::comm_w::weights_merkle_root;
use ai_pow_vi::activation_lut::ActivationLut;
use ai_pow_vi::attention::AttentionScales;
use ai_pow_vi::attention::AttentionWeights;
use ai_pow_vi::ffn::FfnScales;
use ai_pow_vi::ffn::FfnWeights;
use ai_pow_vi::layer::LayerWeights;
use ai_pow_vi::layer::NormSpec;
use ai_pow_vi::model::ModelDims;
use ai_pow_vi::quant::SCALE_DENOM_LOG2;
use ai_pow_vi::rmsnorm::DEFAULT_EPS_Q;
fn lcg_bytes(len: usize, seed: u64) -> Vec<i8> {
    let mut s = seed;
    (0..len)
        .map(|_| {
            s = s
                .wrapping_mul(6364136223846793005)
                .wrapping_add(1442695040888963407);
            s.wrapping_shr(56) as i8
        })
        .collect()
}

fn small() -> Scale {
    Scale::from_num(1 << (SCALE_DENOM_LOG2 - 4)).unwrap()
}

fn build_model() -> Model {
    let hidden = 4u32;
    let hu = hidden as usize;
    Model {
        dims: ModelDims {
            vocab: 8,
            hidden,
            seq_len: 4,
            activation_tile: 2,
        },
        arch_tag: [0u8; 16],
        feature_flags: 0,
        embed: lcg_bytes(8 * hu, 0x1111),
        layers: vec![LayerWeights::Attention {
            norm1: NormSpec::RmsNorm {
                gamma: lcg_bytes(hu, 0x2222),
                eps_q: DEFAULT_EPS_Q,
                post_scale: small(),
            },
            attn: AttentionWeights {
                hidden,
                num_q_heads: 1,
                num_kv_heads: 1,
                head_dim: 2,
                w_q: lcg_bytes(hu * 2, 0x3333),
                w_k: lcg_bytes(hu * 2, 0x4444),
                w_v: lcg_bytes(hu * 2, 0x5555),
                w_o: lcg_bytes(2 * hu, 0x6666),
            },
            attn_scales: AttentionScales {
                q: small(),
                k: small(),
                v: small(),
                score: small(),
                attn_out: small(),
                o: small(),
            },
            norm2: NormSpec::RmsNorm {
                gamma: lcg_bytes(hu, 0x7777),
                eps_q: DEFAULT_EPS_Q,
                post_scale: small(),
            },
            ffn: FfnWeights {
                hidden,
                intermediate: hidden * 2,
                w_gate: lcg_bytes(hu * (hu * 2), 0x8888),
                w_up: lcg_bytes(hu * (hu * 2), 0x9999),
                w_down: lcg_bytes((hu * 2) * hu, 0xaaaa),
            },
            ffn_scales: FfnScales {
                gate: small(),
                up: small(),
                mid: small(),
                down: small(),
            },
        }],
        final_norm: Some(NormSpec::RmsNorm {
            gamma: lcg_bytes(hu, 0xbbbb),
            eps_q: DEFAULT_EPS_Q,
            post_scale: small(),
        }),
        rope_tables: RopeTables::identity(4, 1),
        softmax_lut: ExpLut::uniform_test(),
        sigmoid_lut: ActivationLut::identity(),
        ffn_activation: ActivationLut::identity(),
    }
}

#[test]
fn comm_w_is_deterministic() {
    let m = build_model();
    let a = compute_comm_w(&m);
    let b = compute_comm_w(&m);
    assert_eq!(a, b);
}

#[test]
fn comm_w_changes_when_one_weight_byte_flips() {
    let mut m = build_model();
    let original = compute_comm_w(&m);
    // Flip one byte of a layer's W_q.
    if let LayerWeights::Attention { attn, .. } = &mut m.layers[0] {
        attn.w_q[0] ^= 1;
    }
    let after = compute_comm_w(&m);
    assert_ne!(original, after);
}

#[test]
fn comm_w_changes_when_scale_changes() {
    let mut m = build_model();
    let original = compute_comm_w(&m);
    if let LayerWeights::Attention { attn_scales, .. } = &mut m.layers[0] {
        attn_scales.q = Scale::from_num(1 << (SCALE_DENOM_LOG2 - 5)).unwrap();
    }
    let after = compute_comm_w(&m);
    assert_ne!(
        original, after,
        "scale change must propagate into comm_W via the manifest hash"
    );
}

#[test]
fn comm_w_changes_when_norm_eps_changes() {
    let mut m = build_model();
    let original = compute_comm_w(&m);
    if let LayerWeights::Attention { norm1, .. } = &mut m.layers[0] {
        if let NormSpec::RmsNorm { eps_q, .. } = norm1 {
            *eps_q = 2;
        }
    }
    let after = compute_comm_w(&m);
    assert_ne!(original, after);
}

#[test]
fn comm_w_changes_when_lut_byte_flips() {
    let mut m = build_model();
    let original = compute_comm_w(&m);
    let mut bytes = m.softmax_lut.to_bytes();
    bytes[7] ^= 1;
    m.softmax_lut = ExpLut::from_bytes(&bytes).unwrap();
    let after = compute_comm_w(&m);
    assert_ne!(original, after);
}

#[test]
fn comm_w_distinguishes_attention_vs_deltanet_at_same_dims() {
    // Build two models with the same hidden/vocab but one Attention
    // layer vs one DeltaNet layer (with matching hidden). Their
    // manifests must differ.
    let mut m = build_model();
    let comm_attn = compute_comm_w(&m);
    let hu = m.dims.hidden as usize;
    m.layers[0] = LayerWeights::DeltaNet {
        norm1: NormSpec::RmsNorm {
            gamma: vec![0i8; hu],
            eps_q: DEFAULT_EPS_Q,
            post_scale: small(),
        },
        dnet: DeltaNetWeights {
            hidden: m.dims.hidden,
            num_qk_heads: 1,
            num_v_heads: 1,
            head_dim_qk: 2,
            head_dim_v: 2,
            w_q: vec![0i8; hu * 2],
            w_k: vec![0i8; hu * 2],
            w_v: vec![0i8; hu * 2],
            w_alpha: vec![0i8; hu],
            w_beta: vec![0i8; hu],
            w_o: vec![0i8; 2 * hu],
        },
        dnet_scales: DeltaNetScales {
            q: small(),
            k: small(),
            v: small(),
            alpha_logit: small(),
            beta_logit: small(),
            u: small(),
            decay: small(),
            update: small(),
            o: small(),
            proj: small(),
        },
        norm2: NormSpec::RmsNorm {
            gamma: vec![0i8; hu],
            eps_q: DEFAULT_EPS_Q,
            post_scale: small(),
        },
        ffn: FfnWeights {
            hidden: m.dims.hidden,
            intermediate: m.dims.hidden * 2,
            w_gate: vec![0i8; hu * (hu * 2)],
            w_up: vec![0i8; hu * (hu * 2)],
            w_down: vec![0i8; (hu * 2) * hu],
        },
        ffn_scales: FfnScales {
            gate: small(),
            up: small(),
            mid: small(),
            down: small(),
        },
    };
    let comm_dnet = compute_comm_w(&m);
    assert_ne!(comm_attn, comm_dnet);
}

#[test]
fn canonical_weight_bytes_is_stable() {
    let m = build_model();
    let a = canonical_weight_bytes(&m);
    let b = canonical_weight_bytes(&m);
    assert_eq!(a, b);
    assert!(!a.is_empty());
}

#[test]
fn weights_merkle_root_handles_zero_padding() {
    // Trivially small byte stream that doesn't reach a full tile.
    let bytes = vec![1u8, 2, 3];
    let r1 = weights_merkle_root(&bytes);
    // Padding the same data to exactly WEIGHT_TILE_BYTES with zeros
    // should produce the same root because we always zero-pad.
    let mut padded = vec![0u8; WEIGHT_TILE_BYTES];
    padded[..3].copy_from_slice(&bytes);
    let r2 = weights_merkle_root(&padded);
    assert_eq!(r1, r2);
}
