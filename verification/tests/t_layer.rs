use ai_pow_vi::activation_lut::ActivationLut;
use ai_pow_vi::attention::attention_forward;
use ai_pow_vi::attention::attention_forward_gemma;
use ai_pow_vi::attention::AttentionError;
use ai_pow_vi::attention::AttentionScales;
use ai_pow_vi::attention::AttentionWeights;
use ai_pow_vi::attention::GemmaAttentionOpts;
use ai_pow_vi::deltanet::deltanet_forward;
use ai_pow_vi::deltanet::DeltaNetError;
use ai_pow_vi::deltanet::DeltaNetScales;
use ai_pow_vi::deltanet::DeltaNetWeights;
use ai_pow_vi::ffn::ffn_forward;
use ai_pow_vi::ffn::FfnError;
use ai_pow_vi::ffn::FfnScales;
use ai_pow_vi::ffn::FfnWeights;
use ai_pow_vi::layernorm::layernorm;
use ai_pow_vi::layernorm::LayerNormError;
use ai_pow_vi::matmul_int8::dot_int8;
use ai_pow_vi::matmul_int8::matmul_int8;
use ai_pow_vi::matmul_int8::matmul_int8_requant;
use ai_pow_vi::matmul_int8::requantize_vec;
use ai_pow_vi::quant::rescale_and_requantize;
use ai_pow_vi::quant::round_half_to_even_div_pow2;
use ai_pow_vi::quant::saturate_i8;
use ai_pow_vi::quant::Scale;
use ai_pow_vi::quant::SCALE_DENOM_LOG2;
use ai_pow_vi::rmsnorm::rmsnorm;
use ai_pow_vi::rmsnorm::RmsNormError;
use ai_pow_vi::rope::rope_apply;
use ai_pow_vi::rope::RopeTables;
use ai_pow_vi::softmax::softmax_int;
use ai_pow_vi::softmax::ExpLut;
use ai_pow_vi::ssm::ssm_forward;
use ai_pow_vi::ssm::SsmError;
use ai_pow_vi::ssm::SsmOpts;
use ai_pow_vi::layer::LayerContext;
use ai_pow_vi::layer::LayerError;
use ai_pow_vi::layer::LayerWeights;
use ai_pow_vi::layer::NormSpec;
use ai_pow_vi::layer::add_residual_inplace;
use ai_pow_vi::layer::apply_norm_per_token;
use ai_pow_vi::layer::forward_layer;
use ai_pow_vi::activation_lut::ActivationKind;
use ai_pow_vi::rmsnorm::DEFAULT_EPS_Q;
fn lcg_bytes(len: usize, seed: u64) -> Vec<i8> {
    let mut s = seed;
    (0..len)
        .map(|_| {
            s = s
                .wrapping_mul(6364136223846793005)
                .wrapping_add(1442695040888963407);
            s.wrapping_shr(56) as i8
        })
        .collect()
}

fn small_scale() -> Scale {
    Scale::from_num(1 << (SCALE_DENOM_LOG2 - 4)).unwrap()
}

fn unit_scale() -> Scale {
    Scale::from_num(1 << SCALE_DENOM_LOG2).unwrap()
}

fn rms_norm(hidden: usize, gamma_seed: u64) -> NormSpec {
    NormSpec::RmsNorm {
        gamma: lcg_bytes(hidden, gamma_seed),
        eps_q: DEFAULT_EPS_Q,
        post_scale: small_scale(),
    }
}

fn ln_norm(hidden: usize, gamma_seed: u64, beta_seed: u64) -> NormSpec {
    NormSpec::LayerNorm {
        gamma: lcg_bytes(hidden, gamma_seed),
        beta: lcg_bytes(hidden, beta_seed),
        eps_q: DEFAULT_EPS_Q,
        post_scale: small_scale(),
    }
}

fn build_attn_layer(hidden: u32, num_q: u32, num_kv: u32, hd: u32, seed: u64) -> LayerWeights {
    let hu = hidden as usize;
    LayerWeights::Attention {
        norm1: rms_norm(hu, seed),
        attn: AttentionWeights {
            hidden,
            num_q_heads: num_q,
            num_kv_heads: num_kv,
            head_dim: hd,
            w_q: lcg_bytes(hu * (num_q * hd) as usize, seed.wrapping_add(1)),
            w_k: lcg_bytes(hu * (num_kv * hd) as usize, seed.wrapping_add(2)),
            w_v: lcg_bytes(hu * (num_kv * hd) as usize, seed.wrapping_add(3)),
            w_o: lcg_bytes((num_q * hd) as usize * hu, seed.wrapping_add(4)),
        },
        attn_scales: AttentionScales {
            q: small_scale(),
            k: small_scale(),
            v: small_scale(),
            score: small_scale(),
            attn_out: small_scale(),
            o: small_scale(),
        },
        norm2: rms_norm(hu, seed.wrapping_add(5)),
        ffn: FfnWeights {
            hidden,
            intermediate: hidden * 2,
            w_gate: lcg_bytes(hu * (hu * 2), seed.wrapping_add(6)),
            w_up: lcg_bytes(hu * (hu * 2), seed.wrapping_add(7)),
            w_down: lcg_bytes((hu * 2) * hu, seed.wrapping_add(8)),
        },
        ffn_scales: FfnScales {
            gate: small_scale(),
            up: small_scale(),
            mid: small_scale(),
            down: small_scale(),
        },
    }
}

fn build_dnet_layer(hidden: u32, num_qk: u32, num_v: u32, hd: u32, seed: u64) -> LayerWeights {
    let hu = hidden as usize;
    LayerWeights::DeltaNet {
        norm1: rms_norm(hu, seed),
        dnet: DeltaNetWeights {
            hidden,
            num_qk_heads: num_qk,
            num_v_heads: num_v,
            head_dim_qk: hd,
            head_dim_v: hd,
            w_q: lcg_bytes(hu * (num_qk * hd) as usize, seed.wrapping_add(1)),
            w_k: lcg_bytes(hu * (num_qk * hd) as usize, seed.wrapping_add(2)),
            w_v: lcg_bytes(hu * (num_v * hd) as usize, seed.wrapping_add(3)),
            w_alpha: lcg_bytes(hu * num_qk as usize, seed.wrapping_add(4)),
            w_beta: lcg_bytes(hu * num_qk as usize, seed.wrapping_add(5)),
            w_o: lcg_bytes((num_v * hd) as usize * hu, seed.wrapping_add(6)),
        },
        dnet_scales: DeltaNetScales {
            q: small_scale(),
            k: small_scale(),
            v: small_scale(),
            alpha_logit: small_scale(),
            beta_logit: small_scale(),
            u: small_scale(),
            decay: Scale::from_num(1 << (SCALE_DENOM_LOG2 - 6)).unwrap(),
            update: small_scale(),
            o: small_scale(),
            proj: small_scale(),
        },
        norm2: rms_norm(hu, seed.wrapping_add(7)),
        ffn: FfnWeights {
            hidden,
            intermediate: hidden * 2,
            w_gate: lcg_bytes(hu * (hu * 2), seed.wrapping_add(8)),
            w_up: lcg_bytes(hu * (hu * 2), seed.wrapping_add(9)),
            w_down: lcg_bytes((hu * 2) * hu, seed.wrapping_add(10)),
        },
        ffn_scales: FfnScales {
            gate: small_scale(),
            up: small_scale(),
            mid: small_scale(),
            down: small_scale(),
        },
    }
}

fn ctx<'a>(
    rope_tables: &'a RopeTables,
    softmax_lut: &'a ExpLut,
    sigmoid_lut: &'a ActivationLut,
    ffn_activation: &'a ActivationLut,
) -> LayerContext<'a> {
    LayerContext {
        rope_tables,
        softmax_lut,
        sigmoid_lut,
        ffn_activation,
    }
}

#[test]
fn attention_layer_runs_and_produces_output() {
    let hidden = 8u32;
    let m = 3u32;
    let layer = build_attn_layer(hidden, 2, 1, 4, 0xa1a1);
    let rope_tables = RopeTables::identity(m, 2);
    let softmax_lut = ExpLut::uniform_test();
    let sigmoid_lut = ActivationLut::identity();
    let ffn_act = ActivationLut::identity();
    let c = ctx(&rope_tables, &softmax_lut, &sigmoid_lut, &ffn_act);
    let input = lcg_bytes((m * hidden) as usize, 0xb2b2);
    let mut output = vec![0i8; (m * hidden) as usize];
    forward_layer(&input, &layer, &c, m, &mut output).unwrap();
}

#[test]
fn deltanet_layer_runs_and_produces_output() {
    let hidden = 4u32;
    let m = 3u32;
    let layer = build_dnet_layer(hidden, 1, 2, 2, 0xc3c3);
    // DeltaNet ignores rope_tables and softmax_lut.
    let rope_tables = RopeTables::identity(m, 1);
    let softmax_lut = ExpLut::uniform_test();
    let mut sig = [0u8; 256];
    for (i, b) in sig.iter_mut().enumerate() {
        let x = (i as i32) - 128;
        *b = (64 + x / 2).clamp(0, 127) as u8;
    }
    let sigmoid_lut = ActivationLut::from_bytes(ActivationKind::SiLU, &sig).unwrap();
    let ffn_act = ActivationLut::identity();
    let c = ctx(&rope_tables, &softmax_lut, &sigmoid_lut, &ffn_act);
    let input = lcg_bytes((m * hidden) as usize, 0xd4d4);
    let mut output = vec![0i8; (m * hidden) as usize];
    forward_layer(&input, &layer, &c, m, &mut output).unwrap();
}

#[test]
fn layer_determinism_two_calls_match() {
    let hidden = 4u32;
    let m = 2u32;
    let layer = build_attn_layer(hidden, 1, 1, 2, 0xfeed);
    let rope_tables = RopeTables::identity(m, 1);
    let softmax_lut = ExpLut::uniform_test();
    let sigmoid_lut = ActivationLut::identity();
    let ffn_act = ActivationLut::identity();
    let c = ctx(&rope_tables, &softmax_lut, &sigmoid_lut, &ffn_act);
    let input = lcg_bytes((m * hidden) as usize, 0xbeef);
    let mut a = vec![0i8; (m * hidden) as usize];
    let mut b = vec![0i8; (m * hidden) as usize];
    forward_layer(&input, &layer, &c, m, &mut a).unwrap();
    forward_layer(&input, &layer, &c, m, &mut b).unwrap();
    assert_eq!(a, b);
}

#[test]
fn layer_length_mismatch_rejected() {
    let layer = build_attn_layer(4, 1, 1, 2, 0x1234);
    let rope_tables = RopeTables::identity(2, 1);
    let softmax_lut = ExpLut::uniform_test();
    let sigmoid_lut = ActivationLut::identity();
    let ffn_act = ActivationLut::identity();
    let c = ctx(&rope_tables, &softmax_lut, &sigmoid_lut, &ffn_act);

    let short = vec![0i8; 7];
    let mut out = vec![0i8; 8];
    assert_eq!(
        forward_layer(&short, &layer, &c, 2, &mut out).err(),
        Some(LayerError::BadInputLen),
    );
    let input = vec![0i8; 8];
    let mut bad = vec![0i8; 5];
    assert_eq!(
        forward_layer(&input, &layer, &c, 2, &mut bad).err(),
        Some(LayerError::BadOutputLen),
    );
    assert_eq!(
        forward_layer(&input, &layer, &c, 0, &mut out).err(),
        Some(LayerError::ZeroM),
    );
}

#[test]
fn norm_shape_mismatch_rejected() {
    // Build a layer with norm1.gamma of wrong length.
    let mut layer = build_attn_layer(4, 1, 1, 2, 0x4444);
    if let LayerWeights::Attention { norm1, .. } = &mut layer {
        *norm1 = NormSpec::RmsNorm {
            gamma: vec![0i8; 3], // wrong: should be hidden=4
            eps_q: DEFAULT_EPS_Q,
            post_scale: small_scale(),
        };
    }
    let rope_tables = RopeTables::identity(2, 1);
    let softmax_lut = ExpLut::uniform_test();
    let sigmoid_lut = ActivationLut::identity();
    let ffn_act = ActivationLut::identity();
    let c = ctx(&rope_tables, &softmax_lut, &sigmoid_lut, &ffn_act);
    let input = vec![0i8; 8];
    let mut output = vec![0i8; 8];
    assert_eq!(
        forward_layer(&input, &layer, &c, 2, &mut output).err(),
        Some(LayerError::BadNormShape),
    );
}

#[test]
fn layernorm_flavor_works() {
    let hidden = 4u32;
    let m = 2u32;
    let mut layer = build_attn_layer(hidden, 1, 1, 2, 0x5050);
    if let LayerWeights::Attention { norm1, .. } = &mut layer {
        *norm1 = ln_norm(hidden as usize, 0x6060, 0x7070);
    }
    let rope_tables = RopeTables::identity(m, 1);
    let softmax_lut = ExpLut::uniform_test();
    let sigmoid_lut = ActivationLut::identity();
    let ffn_act = ActivationLut::identity();
    let c = ctx(&rope_tables, &softmax_lut, &sigmoid_lut, &ffn_act);
    let input = lcg_bytes((m * hidden) as usize, 0x8080);
    let mut output = vec![0i8; (m * hidden) as usize];
    forward_layer(&input, &layer, &c, m, &mut output).unwrap();
}

#[test]
fn residual_dominates_when_sublayers_zero() {
    // If both sublayer outputs are zero (achievable by zeroing all
    // weights), the layer reduces to: output = saturate_i8(input + 0
    // + 0) = input. Norms still apply but they get zeroed by the all-
    // zero attention weights, so the second residual just passes input.
    let hidden = 4u32;
    let m = 2u32;
    let mut layer = build_attn_layer(hidden, 1, 1, 2, 0x9090);
    if let LayerWeights::Attention { attn, ffn, .. } = &mut layer {
        attn.w_q = vec![0i8; attn.w_q.len()];
        attn.w_k = vec![0i8; attn.w_k.len()];
        attn.w_v = vec![0i8; attn.w_v.len()];
        attn.w_o = vec![0i8; attn.w_o.len()];
        ffn.w_gate = vec![0i8; ffn.w_gate.len()];
        ffn.w_up = vec![0i8; ffn.w_up.len()];
        ffn.w_down = vec![0i8; ffn.w_down.len()];
    }
    let rope_tables = RopeTables::identity(m, 1);
    let softmax_lut = ExpLut::uniform_test();
    let sigmoid_lut = ActivationLut::identity();
    let ffn_act = ActivationLut::identity();
    let c = ctx(&rope_tables, &softmax_lut, &sigmoid_lut, &ffn_act);
    let input = lcg_bytes((m * hidden) as usize, 0xaaaa);
    let mut output = vec![0i8; (m * hidden) as usize];
    forward_layer(&input, &layer, &c, m, &mut output).unwrap();
    assert_eq!(
        output, input,
        "with zero sublayer weights, layer is identity"
    );
}

#[test]
fn attention_and_deltanet_layers_produce_distinct_outputs() {
    let hidden = 4u32;
    let m = 2u32;
    let attn_layer = build_attn_layer(hidden, 1, 1, 2, 0xcccc);
    let dnet_layer = build_dnet_layer(hidden, 1, 1, 2, 0xcccc);
    let rope_tables = RopeTables::identity(m, 1);
    let softmax_lut = ExpLut::uniform_test();
    let mut sig = [0u8; 256];
    for (i, b) in sig.iter_mut().enumerate() {
        let x = (i as i32) - 128;
        *b = (64 + x / 2).clamp(0, 127) as u8;
    }
    let sigmoid_lut = ActivationLut::from_bytes(ActivationKind::SiLU, &sig).unwrap();
    let ffn_act = ActivationLut::identity();
    let c = ctx(&rope_tables, &softmax_lut, &sigmoid_lut, &ffn_act);
    let input = lcg_bytes((m * hidden) as usize, 0xdddd);
    let mut out_attn = vec![0i8; (m * hidden) as usize];
    let mut out_dnet = vec![0i8; (m * hidden) as usize];
    forward_layer(&input, &attn_layer, &c, m, &mut out_attn).unwrap();
    forward_layer(&input, &dnet_layer, &c, m, &mut out_dnet).unwrap();
    assert_ne!(
        out_attn, out_dnet,
        "different sublayer flavors must yield different outputs"
    );
}

#[test]
fn add_residual_saturates() {
    let mut a = vec![100i8, -100, 50, -50];
    let b = vec![50i8, -50, -50, 50];
    add_residual_inplace(&mut a, &b);
    assert_eq!(
        a,
        vec![127, -128, 0, 0],
        "residual must saturate to i8 range"
    );
}

#[test]
fn norm_per_token_validates_lengths() {
    // Wrong input length.
    let norm = rms_norm(4, 0x1234);
    let mut out = vec![0i8; 8];
    let bad = vec![0i8; 7];
    assert_eq!(
        apply_norm_per_token(&norm, &bad, 2, 4, &mut out).err(),
        Some(LayerError::BadInputLen),
    );

    // Wrong output length.
    let input = vec![0i8; 8];
    let mut bad_out = vec![0i8; 5];
    assert_eq!(
        apply_norm_per_token(&norm, &input, 2, 4, &mut bad_out).err(),
        Some(LayerError::BadOutputLen),
    );
}

#[test]
fn unit_post_scale_norm_round_trip() {
    // With post_scale = 1.0 and a constant input, normed = beta_or_zero.
    let hidden = 8u32;
    let m = 1u32;
    let norm = NormSpec::RmsNorm {
        gamma: vec![32i8; hidden as usize],
        eps_q: DEFAULT_EPS_Q,
        post_scale: unit_scale(),
    };
    let input = vec![5i8; (m * hidden) as usize];
    let mut output = vec![0i8; (m * hidden) as usize];
    apply_norm_per_token(&norm, &input, m, hidden, &mut output).unwrap();
    // RMSNorm of constant input → output = (constant / rms) * gamma. With
    // gamma=32 and a uniform constant, the per-channel result is the same
    // value across channels. We only assert all entries are equal.
    let first = output[0];
    for &v in &output {
        assert_eq!(
            v, first,
            "RMSNorm of uniform input must produce uniform output"
        );
    }
}

fn build_gemma_layer(hidden: u32, num_q: u32, num_kv: u32, hd: u32, seed: u64) -> LayerWeights {
    let hu = hidden as usize;
    let hdu = hd as usize;
    LayerWeights::Gemma {
        norm1: rms_norm(hu, seed),
        attn: AttentionWeights {
            hidden,
            num_q_heads: num_q,
            num_kv_heads: num_kv,
            head_dim: hd,
            w_q: lcg_bytes(hu * (num_q * hd) as usize, seed.wrapping_add(1)),
            w_k: lcg_bytes(hu * (num_kv * hd) as usize, seed.wrapping_add(2)),
            w_v: lcg_bytes(hu * (num_kv * hd) as usize, seed.wrapping_add(3)),
            w_o: lcg_bytes((num_q * hd) as usize * hu, seed.wrapping_add(4)),
        },
        attn_scales: AttentionScales {
            q: small_scale(),
            k: small_scale(),
            v: small_scale(),
            score: small_scale(),
            attn_out: small_scale(),
            o: small_scale(),
        },
        q_norm_gamma: lcg_bytes(hdu, seed.wrapping_add(5)),
        k_norm_gamma: lcg_bytes(hdu, seed.wrapping_add(6)),
        qk_norm_eps_q: DEFAULT_EPS_Q,
        qk_norm_post_scale: small_scale(),
        post_attn_norm: rms_norm(hu, seed.wrapping_add(7)),
        norm2: rms_norm(hu, seed.wrapping_add(8)),
        ffn: FfnWeights {
            hidden,
            intermediate: hidden * 2,
            w_gate: lcg_bytes(hu * (hu * 2), seed.wrapping_add(9)),
            w_up: lcg_bytes(hu * (hu * 2), seed.wrapping_add(10)),
            w_down: lcg_bytes((hu * 2) * hu, seed.wrapping_add(11)),
        },
        ffn_scales: FfnScales {
            gate: small_scale(),
            up: small_scale(),
            mid: small_scale(),
            down: small_scale(),
        },
        post_ffn_norm: rms_norm(hu, seed.wrapping_add(12)),
        sliding_window: None,
        inp_gate: Some(lcg_bytes(hu, seed.wrapping_add(13))),
        layer_output_scale: Some(lcg_bytes(hu, seed.wrapping_add(14))),
    }
}

#[test]
fn gemma_layer_full_runs() {
    let hidden = 8u32;
    let m = 3u32;
    let layer = build_gemma_layer(hidden, 2, 1, 4, 0x9090);
    let rope_tables = RopeTables::identity(m, 2);
    let softmax_lut = ExpLut::uniform_test();
    let sigmoid_lut = ActivationLut::identity();
    let ffn_act = ActivationLut::identity();
    let c = ctx(&rope_tables, &softmax_lut, &sigmoid_lut, &ffn_act);
    let input = lcg_bytes((m * hidden) as usize, 0xa1a1);
    let mut output = vec![0i8; (m * hidden) as usize];
    forward_layer(&input, &layer, &c, m, &mut output).unwrap();
}

#[test]
fn gemma_layer_sliding_window_changes_output() {
    let hidden = 8u32;
    let m = 4u32;
    let mut base = build_gemma_layer(hidden, 2, 1, 4, 0x1111);
    let mut sw = build_gemma_layer(hidden, 2, 1, 4, 0x1111);
    if let LayerWeights::Gemma { sliding_window, .. } = &mut sw {
        *sliding_window = Some(2);
    }
    let rope_tables = RopeTables::identity(m, 2);
    let softmax_lut = ExpLut::uniform_test();
    let sigmoid_lut = ActivationLut::identity();
    let ffn_act = ActivationLut::identity();
    let c = ctx(&rope_tables, &softmax_lut, &sigmoid_lut, &ffn_act);
    let input = lcg_bytes((m * hidden) as usize, 0x2222);
    let mut out_base = vec![0i8; (m * hidden) as usize];
    let mut out_sw = vec![0i8; (m * hidden) as usize];
    forward_layer(&input, &base, &c, m, &mut out_base).unwrap();
    forward_layer(&input, &sw, &c, m, &mut out_sw).unwrap();
    // First token (i=0): both see only itself, so the sliding window
    // doesn't change anything.
    assert_eq!(&out_base[..hidden as usize], &out_sw[..hidden as usize]);
    // For i=3 (m-1=3), base sees [0..=3]; sw sees [2..=3]. Outputs
    // for position 3 must differ for a non-degenerate model.
    let row3_base = &out_base[(3 * hidden as usize)..(4 * hidden as usize)];
    let row3_sw = &out_sw[(3 * hidden as usize)..(4 * hidden as usize)];
    assert_ne!(
        row3_base, row3_sw,
        "sliding window should change late tokens"
    );
    let _ = (&mut base, &mut sw); // silence "unused mut" if any
}

fn build_qwen_standard_layer(
    hidden: u32,
    num_q: u32,
    num_kv: u32,
    hd: u32,
    seed: u64,
) -> LayerWeights {
    let hu = hidden as usize;
    let hdu = hd as usize;
    LayerWeights::QwenStandard {
        norm1: rms_norm(hu, seed),
        attn: AttentionWeights {
            hidden,
            num_q_heads: num_q,
            num_kv_heads: num_kv,
            head_dim: hd,
            w_q: lcg_bytes(hu * (num_q * hd) as usize, seed.wrapping_add(1)),
            w_k: lcg_bytes(hu * (num_kv * hd) as usize, seed.wrapping_add(2)),
            w_v: lcg_bytes(hu * (num_kv * hd) as usize, seed.wrapping_add(3)),
            w_o: lcg_bytes((num_q * hd) as usize * hu, seed.wrapping_add(4)),
        },
        attn_scales: AttentionScales {
            q: small_scale(),
            k: small_scale(),
            v: small_scale(),
            score: small_scale(),
            attn_out: small_scale(),
            o: small_scale(),
        },
        q_norm_gamma: lcg_bytes(hdu, seed.wrapping_add(5)),
        k_norm_gamma: lcg_bytes(hdu, seed.wrapping_add(6)),
        qk_norm_eps_q: DEFAULT_EPS_Q,
        qk_norm_post_scale: small_scale(),
        norm2: rms_norm(hu, seed.wrapping_add(7)),
        ffn: FfnWeights {
            hidden,
            intermediate: hidden * 2,
            w_gate: lcg_bytes(hu * (hu * 2), seed.wrapping_add(8)),
            w_up: lcg_bytes(hu * (hu * 2), seed.wrapping_add(9)),
            w_down: lcg_bytes((hu * 2) * hu, seed.wrapping_add(10)),
        },
        ffn_scales: FfnScales {
            gate: small_scale(),
            up: small_scale(),
            mid: small_scale(),
            down: small_scale(),
        },
    }
}

fn build_qwen_hybrid_layer(
    hidden: u32,
    num_q: u32,
    num_kv: u32,
    num_v: u32,
    head_dim: u32,
    seed: u64,
) -> LayerWeights {
    let hu = hidden as usize;
    let hdu = head_dim as usize;
    let kernel_size = 4u32;
    let qkv_dim = ((num_q + num_kv + num_kv) * head_dim) as usize;
    let nv = num_v as usize;
    LayerWeights::QwenHybridSsm {
        norm1: rms_norm(hu, seed),
        attn_qkv_fused: lcg_bytes(hu * qkv_dim, seed.wrapping_add(1)),
        attn_gate: lcg_bytes(hu * (num_q * head_dim) as usize, seed.wrapping_add(2)),
        attn_out: lcg_bytes((num_q * head_dim) as usize * hu, seed.wrapping_add(3)),
        num_q_heads: num_q,
        num_kv_heads: num_kv,
        head_dim,
        attn_scales: AttentionScales {
            q: small_scale(),
            k: small_scale(),
            v: small_scale(),
            score: small_scale(),
            attn_out: small_scale(),
            o: small_scale(),
        },
        q_norm_gamma: lcg_bytes(hdu, seed.wrapping_add(4)),
        k_norm_gamma: lcg_bytes(hdu, seed.wrapping_add(5)),
        qk_norm_eps_q: DEFAULT_EPS_Q,
        qk_norm_post_scale: small_scale(),
        ssm_a: lcg_bytes(nv, seed.wrapping_add(6)),
        ssm_alpha: lcg_bytes(hu * nv, seed.wrapping_add(7)),
        ssm_beta: lcg_bytes(hu * nv, seed.wrapping_add(8)),
        ssm_conv1d: lcg_bytes((kernel_size as usize) * hu, seed.wrapping_add(9)),
        ssm_dt: lcg_bytes(nv, seed.wrapping_add(10)),
        ssm_norm_gamma: lcg_bytes(hdu, seed.wrapping_add(11)),
        ssm_norm_eps_q: DEFAULT_EPS_Q,
        ssm_norm_post_scale: small_scale(),
        ssm_out: lcg_bytes((num_v * head_dim) as usize * hu, seed.wrapping_add(12)),
        num_v_heads: num_v,
        ssm_head_dim: head_dim,
        ssm_kernel_size: kernel_size,
        ssm_scales: DeltaNetScales {
            q: small_scale(),
            k: small_scale(),
            v: small_scale(),
            alpha_logit: small_scale(),
            beta_logit: small_scale(),
            u: small_scale(),
            decay: small_scale(),
            update: small_scale(),
            o: small_scale(),
            proj: small_scale(),
        },
        norm2: rms_norm(hu, seed.wrapping_add(13)),
        ffn: FfnWeights {
            hidden,
            intermediate: hidden * 2,
            w_gate: lcg_bytes(hu * (hu * 2), seed.wrapping_add(14)),
            w_up: lcg_bytes(hu * (hu * 2), seed.wrapping_add(15)),
            w_down: lcg_bytes((hu * 2) * hu, seed.wrapping_add(16)),
        },
        ffn_scales: FfnScales {
            gate: small_scale(),
            up: small_scale(),
            mid: small_scale(),
            down: small_scale(),
        },
    }
}

#[test]
fn qwen_hybrid_ssm_zero_weights_yields_input_passthrough() {
    // With every sublayer weight zero, both attention and SSM produce
    // zero outputs; FFN also produces zero; layer reduces to identity
    // (input passthrough modulo norm scaling, which on zero post-add
    // preserves input bytes).
    let hidden = 8u32;
    let m = 2u32;
    let mut layer = build_qwen_hybrid_layer(hidden, 2, 1, 3, 4, 0xeeee);
    if let LayerWeights::QwenHybridSsm {
        attn_qkv_fused,
        attn_gate,
        attn_out,
        ssm_alpha,
        ssm_beta,
        ssm_conv1d,
        ssm_out,
        ffn,
        ..
    } = &mut layer
    {
        attn_qkv_fused.iter_mut().for_each(|x| *x = 0);
        attn_gate.iter_mut().for_each(|x| *x = 0);
        attn_out.iter_mut().for_each(|x| *x = 0);
        ssm_alpha.iter_mut().for_each(|x| *x = 0);
        ssm_beta.iter_mut().for_each(|x| *x = 0);
        ssm_conv1d.iter_mut().for_each(|x| *x = 0);
        ssm_out.iter_mut().for_each(|x| *x = 0);
        ffn.w_gate.iter_mut().for_each(|x| *x = 0);
        ffn.w_up.iter_mut().for_each(|x| *x = 0);
        ffn.w_down.iter_mut().for_each(|x| *x = 0);
    }
    let rope_tables = RopeTables::identity(m, 2);
    let softmax_lut = ExpLut::uniform_test();
    let sigmoid_lut = ActivationLut::identity();
    let ffn_act = ActivationLut::identity();
    let c = ctx(&rope_tables, &softmax_lut, &sigmoid_lut, &ffn_act);
    let input = lcg_bytes((m * hidden) as usize, 0xdada);
    let mut output = vec![0i8; (m * hidden) as usize];
    forward_layer(&input, &layer, &c, m, &mut output).unwrap();
    assert_eq!(
        output, input,
        "with zero sublayer weights, hybrid layer is identity"
    );
}

