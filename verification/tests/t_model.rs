use ai_pow_vi::activation_lut::ActivationLut;
use ai_pow_vi::layer::LayerWeights;
use ai_pow_vi::layer::NormSpec;
use ai_pow_vi::rope::RopeTables;
use ai_pow_vi::softmax::ExpLut;
use ai_pow_vi::model::Model;
use ai_pow_vi::model::ModelDims;
use ai_pow_vi::model::ModelError;
use ai_pow_vi::attention::AttentionScales;
use ai_pow_vi::attention::AttentionWeights;
use ai_pow_vi::ffn::FfnScales;
use ai_pow_vi::ffn::FfnWeights;
use ai_pow_vi::quant::Scale;
use ai_pow_vi::quant::SCALE_DENOM_LOG2;
use ai_pow_vi::rmsnorm::DEFAULT_EPS_Q;
fn small() -> Scale {
    Scale::from_num(1 << (SCALE_DENOM_LOG2 - 4)).unwrap()
}

fn dummy_attn_layer(hidden: u32) -> LayerWeights {
    let hu = hidden as usize;
    LayerWeights::Attention {
        norm1: NormSpec::RmsNorm {
            gamma: vec![1i8; hu],
            eps_q: DEFAULT_EPS_Q,
            post_scale: small(),
        },
        attn: AttentionWeights {
            hidden,
            num_q_heads: 1,
            num_kv_heads: 1,
            head_dim: 2,
            w_q: vec![0i8; hu * 2],
            w_k: vec![0i8; hu * 2],
            w_v: vec![0i8; hu * 2],
            w_o: vec![0i8; 2 * hu],
        },
        attn_scales: AttentionScales {
            q: small(),
            k: small(),
            v: small(),
            score: small(),
            attn_out: small(),
            o: small(),
        },
        norm2: NormSpec::RmsNorm {
            gamma: vec![1i8; hu],
            eps_q: DEFAULT_EPS_Q,
            post_scale: small(),
        },
        ffn: FfnWeights {
            hidden,
            intermediate: hidden * 2,
            w_gate: vec![0i8; hu * (hu * 2)],
            w_up: vec![0i8; hu * (hu * 2)],
            w_down: vec![0i8; (hu * 2) * hu],
        },
        ffn_scales: FfnScales {
            gate: small(),
            up: small(),
            mid: small(),
            down: small(),
        },
    }
}

fn dummy_model(hidden: u32, vocab: u32, seq_len: u32, tile: u32, num_layers: u32) -> Model {
    let layers: Vec<LayerWeights> = (0..num_layers).map(|_| dummy_attn_layer(hidden)).collect();
    Model {
        dims: ModelDims {
            vocab,
            hidden,
            seq_len,
            activation_tile: tile,
        },
        arch_tag: [0u8; 16],
        feature_flags: 0,
        embed: vec![0i8; (vocab * hidden) as usize],
        layers,
        final_norm: Some(NormSpec::RmsNorm {
            gamma: vec![1i8; hidden as usize],
            eps_q: DEFAULT_EPS_Q,
            post_scale: small(),
        }),
        rope_tables: RopeTables::identity(seq_len, 1),
        softmax_lut: ExpLut::uniform_test(),
        sigmoid_lut: ActivationLut::identity(),
        ffn_activation: ActivationLut::identity(),
    }
}

#[test]
fn validate_accepts_consistent_model() {
    let m = dummy_model(4, 8, 4, 2, 2);
    m.validate().unwrap();
}

#[test]
fn validate_rejects_zero_dim() {
    let mut m = dummy_model(4, 8, 4, 2, 2);
    m.dims.vocab = 0;
    assert_eq!(m.validate().err(), Some(ModelError::ZeroDim));
}

#[test]
fn validate_rejects_bad_embed_len() {
    let mut m = dummy_model(4, 8, 4, 2, 2);
    m.embed = vec![0i8; 5];
    assert_eq!(m.validate().err(), Some(ModelError::BadEmbedLen));
}

#[test]
fn validate_rejects_seq_len_not_multiple_of_tile() {
    let mut m = dummy_model(4, 8, 4, 2, 1);
    m.dims.seq_len = 5;
    assert_eq!(
        m.validate().err(),
        Some(ModelError::SeqLenNotMultipleOfTile {
            seq_len: 5,
            tile: 2,
        }),
    );
}

#[test]
fn validate_rejects_layer_hidden_mismatch() {
    let mut m = dummy_model(4, 8, 4, 2, 2);
    // Build a layer whose hidden differs from the model's claimed hidden.
    m.layers[0] = dummy_attn_layer(8);
    // Keep dims and embed consistent (hidden=4) so we trip the layer-mismatch
    // check rather than BadEmbedLen.
    assert_eq!(
        m.validate().err(),
        Some(ModelError::LayerHiddenMismatch {
            layer_idx: 0,
            expected: 4,
            got: 8,
        }),
    );
}

#[test]
fn num_layers_reports_count() {
    let m = dummy_model(4, 8, 4, 2, 3);
    assert_eq!(m.num_layers(), 3);
}
