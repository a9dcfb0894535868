use ai_pow_vi::activations::ActivationError;
use ai_pow_vi::activations::ActivationLayout;
use ai_pow_vi::activations::ActivationLog;
use ai_pow_vi::layer::forward_layer;
use ai_pow_vi::layer::LayerContext;
use ai_pow_vi::layer::LayerError;
use ai_pow_vi::layernorm::layernorm;
use ai_pow_vi::layernorm::LayerNormError;
use ai_pow_vi::model::Model;
use ai_pow_vi::model::ModelError;
use ai_pow_vi::model::Token;
use ai_pow_vi::quant::rescale_and_requantize;
use ai_pow_vi::rmsnorm::rmsnorm;
use ai_pow_vi::rmsnorm::RmsNormError;
use ai_pow_vi::activations::verify_opening;
use ai_pow_vi::forward::ForwardError;
use ai_pow_vi::forward::forward_prefix;
use ai_pow_vi::activation_lut::ActivationLut;
use ai_pow_vi::attention::AttentionScales;
use ai_pow_vi::attention::AttentionWeights;
use ai_pow_vi::ffn::FfnScales;
use ai_pow_vi::ffn::FfnWeights;
use ai_pow_vi::layer::LayerWeights;
use ai_pow_vi::layer::NormSpec;
use ai_pow_vi::model::ModelDims;
use ai_pow_vi::quant::Scale;
use ai_pow_vi::quant::SCALE_DENOM_LOG2;
use ai_pow_vi::rmsnorm::DEFAULT_EPS_Q;
use ai_pow_vi::rope::RopeTables;
use ai_pow_vi::softmax::ExpLut;
fn lcg_bytes(len: usize, seed: u64) -> Vec<i8> {
    let mut s = seed;
    (0..len)
        .map(|_| {
            s = s
                .wrapping_mul(6364136223846793005)
                .wrapping_add(1442695040888963407);
            s.wrapping_shr(56) as i8
        })
        .collect()
}

fn small() -> Scale {
    Scale::from_num(1 << (SCALE_DENOM_LOG2 - 4)).unwrap()
}

fn build_attn_layer(hidden: u32, seed: u64) -> LayerWeights {
    let hu = hidden as usize;
    LayerWeights::Attention {
        norm1: NormSpec::RmsNorm {
            gamma: lcg_bytes(hu, seed),
            eps_q: DEFAULT_EPS_Q,
            post_scale: small(),
        },
        attn: AttentionWeights {
            hidden,
            num_q_heads: 1,
            num_kv_heads: 1,
            head_dim: 2,
            w_q: lcg_bytes(hu * 2, seed.wrapping_add(1)),
            w_k: lcg_bytes(hu * 2, seed.wrapping_add(2)),
            w_v: lcg_bytes(hu * 2, seed.wrapping_add(3)),
            w_o: lcg_bytes(2 * hu, seed.wrapping_add(4)),
        },
        attn_scales: AttentionScales {
            q: small(),
            k: small(),
            v: small(),
            score: small(),
            attn_out: small(),
            o: small(),
        },
        norm2: NormSpec::RmsNorm {
            gamma: lcg_bytes(hu, seed.wrapping_add(5)),
            eps_q: DEFAULT_EPS_Q,
            post_scale: small(),
        },
        ffn: FfnWeights {
            hidden,
            intermediate: hidden * 2,
            w_gate: lcg_bytes(hu * (hu * 2), seed.wrapping_add(6)),
            w_up: lcg_bytes(hu * (hu * 2), seed.wrapping_add(7)),
            w_down: lcg_bytes((hu * 2) * hu, seed.wrapping_add(8)),
        },
        ffn_scales: FfnScales {
            gate: small(),
            up: small(),
            mid: small(),
            down: small(),
        },
    }
}

fn build_model(hidden: u32, vocab: u32, seq_len: u32, num_layers: u32, seed: u64) -> Model {
    let layers: Vec<LayerWeights> = (0..num_layers)
        .map(|i| build_attn_layer(hidden, seed.wrapping_add((i as u64) * 100)))
        .collect();
    Model {
        dims: ModelDims {
            vocab,
            hidden,
            seq_len,
            activation_tile: 2,
        },
        arch_tag: [0u8; 16],
        feature_flags: 0,
        embed: lcg_bytes((vocab * hidden) as usize, seed.wrapping_add(0xeeee)),
        layers,
        final_norm: Some(NormSpec::RmsNorm {
            gamma: lcg_bytes(hidden as usize, seed.wrapping_add(0xffff)),
            eps_q: DEFAULT_EPS_Q,
            post_scale: small(),
        }),
        rope_tables: RopeTables::identity(seq_len, 1),
        softmax_lut: ExpLut::uniform_test(),
        sigmoid_lut: ActivationLut::identity(),
        ffn_activation: ActivationLut::identity(),
    }
}

fn make_ctx<'a>(model: &'a Model) -> LayerContext<'a> {
    LayerContext {
        rope_tables: &model.rope_tables,
        softmax_lut: &model.softmax_lut,
        sigmoid_lut: &model.sigmoid_lut,
        ffn_activation: &model.ffn_activation,
    }
}

#[test]
fn target_layer_zero_returns_just_embedded_prefix() {
    let model = build_model(4, 8, 4, 2, 0x1111);
    let ctx = make_ctx(&model);
    let mut log = ActivationLog::new(ActivationLayout {
        seq_len: 4,
        hidden: 4,
        tile: 2,
    })
    .unwrap();
    let prompt = vec![1u32, 3];
    let out = forward_prefix(&model, &prompt, 0, &ctx, &mut log).unwrap();
    // Output shape: (m=2, hidden=4) → 8 i8 elements.
    assert_eq!(out.len(), 8);
    // It must equal the embed_table[1] || embed_table[3] concatenation.
    let want_row0 = &model.embed[(1 * 4)..(2 * 4)];
    let want_row1 = &model.embed[(3 * 4)..(4 * 4)];
    assert_eq!(&out[..4], want_row0);
    assert_eq!(&out[4..], want_row1);
    // And the log has exactly one entry (layer 0 input).
    assert_eq!(log.num_layers(), 1);
}

#[test]
fn target_layer_full_applies_final_norm_and_records_all() {
    let model = build_model(4, 8, 4, 2, 0x2222);
    let ctx = make_ctx(&model);
    let mut log = ActivationLog::new(ActivationLayout {
        seq_len: 4,
        hidden: 4,
        tile: 2,
    })
    .unwrap();
    let prompt = vec![0u32, 1, 2];
    let _out = forward_prefix(&model, &prompt, model.num_layers(), &ctx, &mut log).unwrap();
    // 2 layers + initial embed = 3 records.
    assert_eq!(log.num_layers(), model.num_layers() + 1);
}

#[test]
fn empty_prompt_rejected() {
    let model = build_model(4, 8, 4, 2, 0x3333);
    let ctx = make_ctx(&model);
    let mut log = ActivationLog::new(ActivationLayout {
        seq_len: 4,
        hidden: 4,
        tile: 2,
    })
    .unwrap();
    assert_eq!(
        forward_prefix(&model, &[], 0, &ctx, &mut log).err(),
        Some(ForwardError::EmptyPrompt),
    );
}

#[test]
fn prompt_too_long_rejected() {
    let model = build_model(4, 8, 4, 2, 0x4444);
    let ctx = make_ctx(&model);
    let mut log = ActivationLog::new(ActivationLayout {
        seq_len: 4,
        hidden: 4,
        tile: 2,
    })
    .unwrap();
    let too_long = vec![0u32; 5];
    assert_eq!(
        forward_prefix(&model, &too_long, 0, &ctx, &mut log).err(),
        Some(ForwardError::PromptTooLong { got: 5, max: 4 }),
    );
}

#[test]
fn token_out_of_range_rejected() {
    let model = build_model(4, 8, 4, 2, 0x5555);
    let ctx = make_ctx(&model);
    let mut log = ActivationLog::new(ActivationLayout {
        seq_len: 4,
        hidden: 4,
        tile: 2,
    })
    .unwrap();
    let bad = vec![100u32]; // vocab is 8
    assert_eq!(
        forward_prefix(&model, &bad, 0, &ctx, &mut log).err(),
        Some(ForwardError::TokenOutOfRange(100)),
    );
}

#[test]
fn target_layer_too_large_rejected() {
    let model = build_model(4, 8, 4, 2, 0x6666);
    let ctx = make_ctx(&model);
    let mut log = ActivationLog::new(ActivationLayout {
        seq_len: 4,
        hidden: 4,
        tile: 2,
    })
    .unwrap();
    let prompt = vec![1u32];
    assert_eq!(
        forward_prefix(&model, &prompt, 99, &ctx, &mut log).err(),
        Some(ForwardError::TargetLayerTooLarge { got: 99, max: 2 }),
    );
}

#[test]
fn log_layout_must_match() {
    let model = build_model(4, 8, 4, 2, 0x7777);
    let ctx = make_ctx(&model);
    // Wrong tile size.
    let mut log = ActivationLog::new(ActivationLayout {
        seq_len: 4,
        hidden: 4,
        tile: 4,
    })
    .unwrap();
    let prompt = vec![1u32];
    assert_eq!(
        forward_prefix(&model, &prompt, 0, &ctx, &mut log).err(),
        Some(ForwardError::LogLayoutMismatch),
    );
}

#[test]
fn log_must_be_empty() {
    let layout = ActivationLayout {
        seq_len: 4,
        hidden: 4,
        tile: 2,
    };
    let model = build_model(4, 8, 4, 2, 0x8888);
    let ctx = make_ctx(&model);
    let mut log = ActivationLog::new(layout).unwrap();
    // Pre-populate log with a record.
    log.record_layer(0, &vec![0i8; 16]).unwrap();
    let prompt = vec![1u32];
    assert_eq!(
        forward_prefix(&model, &prompt, 0, &ctx, &mut log).err(),
        Some(ForwardError::LogAlreadyPopulated),
    );
}

#[test]
fn forward_determinism_two_calls_match() {
    let layout = ActivationLayout {
        seq_len: 4,
        hidden: 4,
        tile: 2,
    };
    let model = build_model(4, 8, 4, 2, 0x9999);
    let ctx = make_ctx(&model);
    let prompt = vec![0u32, 2, 5];
    let mut log_a = ActivationLog::new(layout).unwrap();
    let mut log_b = ActivationLog::new(layout).unwrap();
    let a = forward_prefix(&model, &prompt, model.num_layers(), &ctx, &mut log_a).unwrap();
    let b = forward_prefix(&model, &prompt, model.num_layers(), &ctx, &mut log_b).unwrap();
    assert_eq!(a, b);
    assert_eq!(log_a.layer_roots, log_b.layer_roots);
}

#[test]
fn prefix_to_layer_1_differs_from_prefix_to_layer_2() {
    let layout = ActivationLayout {
        seq_len: 4,
        hidden: 4,
        tile: 2,
    };
    let model = build_model(4, 8, 4, 3, 0xaaaa);
    let ctx = make_ctx(&model);
    let prompt = vec![1u32, 2];
    let mut log1 = ActivationLog::new(layout).unwrap();
    let mut log2 = ActivationLog::new(layout).unwrap();
    let p1 = forward_prefix(&model, &prompt, 1, &ctx, &mut log1).unwrap();
    let p2 = forward_prefix(&model, &prompt, 2, &ctx, &mut log2).unwrap();
    // They share the first activation root (layer 0 input = embed), but
    // p2 has one more record and a different return tensor.
    assert_eq!(log1.layer_roots[0], log2.layer_roots[0]);
    assert_eq!(log1.num_layers(), 2);
    assert_eq!(log2.num_layers(), 3);
    // Layer-1-input root in p1 should match layer-1-input root in p2.
    assert_eq!(log1.layer_roots[1], log2.layer_roots[1]);
    // Outputs differ.
    assert_ne!(p1, p2);
}

#[test]
fn opening_a_recorded_tile_verifies_against_root() {
    let layout = ActivationLayout {
        seq_len: 4,
        hidden: 4,
        tile: 2,
    };
    let model = build_model(4, 8, 4, 2, 0xbbbb);
    let ctx = make_ctx(&model);
    let prompt = vec![1u32, 3];
    let mut log = ActivationLog::new(layout).unwrap();
    forward_prefix(&model, &prompt, 1, &ctx, &mut log).unwrap();

    // Reconstruct the layer-0-input tensor (embedded prompt + zero
    // padding) so we can open and verify it.
    let hu = model.dims.hidden as usize;
    let mut tensor = vec![0i8; (model.dims.seq_len as usize) * hu];
    for (i, &tok) in prompt.iter().enumerate() {
        tensor[i * hu..(i + 1) * hu]
            .copy_from_slice(&model.embed[(tok as usize) * hu..((tok as usize) + 1) * hu]);
    }
    let opening = log.open(0, 1, &tensor).unwrap();
    verify_opening(&layout, &log.root(0).unwrap(), &opening).unwrap();
}
