use ai_pow_vi::matmul_int8::dot_int8;
use ai_pow_vi::matmul_int8::matmul_int8;
use ai_pow_vi::matmul_int8::matmul_int8_requant;
use ai_pow_vi::matmul_int8::requantize_vec;
use ai_pow_vi::matmul_int8::MatmulError;
use ai_pow_vi::quant::rescale_and_requantize;
use ai_pow_vi::quant::round_half_to_even_div_pow2;
use ai_pow_vi::quant::Scale;
use ai_pow_vi::quant::SCALE_DENOM_LOG2;
use ai_pow_vi::rope::rope_apply;
use ai_pow_vi::rope::RopeError;
use ai_pow_vi::rope::RopeTables;
use ai_pow_vi::softmax::softmax_int;
use ai_pow_vi::softmax::ExpLut;
use ai_pow_vi::softmax::SoftmaxError;
use ai_pow_vi::attention::AttentionError;
use ai_pow_vi::attention::AttentionScales;
use ai_pow_vi::attention::AttentionWeights;
use ai_pow_vi::attention::attention_forward;
use ai_pow_vi::attention::attention_forward_gemma;
use ai_pow_vi::attention::GemmaAttentionOpts;
fn unit_scale() -> Scale {
    Scale::from_num(1 << SCALE_DENOM_LOG2).unwrap()
}

fn small_scales() -> AttentionScales {
    AttentionScales {
        q: Scale::from_num(1 << (SCALE_DENOM_LOG2 - 4)).unwrap(),
        k: Scale::from_num(1 << (SCALE_DENOM_LOG2 - 4)).unwrap(),
        v: Scale::from_num(1 << (SCALE_DENOM_LOG2 - 4)).unwrap(),
        score: Scale::from_num(1 << (SCALE_DENOM_LOG2 - 4)).unwrap(),
        attn_out: Scale::from_num(1 << (SCALE_DENOM_LOG2 - 4)).unwrap(),
        o: Scale::from_num(1 << (SCALE_DENOM_LOG2 - 4)).unwrap(),
    }
}

fn lcg_weights(len: usize, seed: u64) -> Vec<i8> {
    let mut s = seed;
    (0..len)
        .map(|_| {
            s = s
                .wrapping_mul(6364136223846793005)
                .wrapping_add(1442695040888963407);
            s.wrapping_shr(56) as i8
        })
        .collect()
}

fn build_weights(hidden: u32, num_q: u32, num_kv: u32, hd: u32, seed: u64) -> AttentionWeights {
    let hu = hidden as usize;
    let qu = (num_q * hd) as usize;
    let kvu = (num_kv * hd) as usize;
    AttentionWeights {
        hidden,
        num_q_heads: num_q,
        num_kv_heads: num_kv,
        head_dim: hd,
        w_q: lcg_weights(hu * qu, seed),
        w_k: lcg_weights(hu * kvu, seed.wrapping_add(1)),
        w_v: lcg_weights(hu * kvu, seed.wrapping_add(2)),
        w_o: lcg_weights(qu * hu, seed.wrapping_add(3)),
    }
}

#[test]
fn attention_zero_input_yields_zero_output() {
    let hidden = 8u32;
    let num_q = 2u32;
    let num_kv = 1u32;
    let hd = 4u32;
    let m = 3u32;
    let weights = build_weights(hidden, num_q, num_kv, hd, 0xabcd);
    let rope_tables = RopeTables::identity(m, hd / 2);
    let lut = ExpLut::uniform_test();
    let input = vec![0i8; (m * hidden) as usize];
    let mut output = vec![1i8; (m * hidden) as usize];
    attention_forward(
        &input,
        &weights,
        small_scales(),
        &rope_tables,
        &lut,
        m,
        &mut output,
    )
    .unwrap();
    for &v in &output {
        assert_eq!(v, 0, "zero input must yield zero output");
    }
}

#[test]
fn single_token_no_causal_interaction() {
    // m=1: softmax sees exactly one score, probs=[127], result is just v[0] scaled.
    let hidden = 8u32;
    let num_q = 2u32;
    let num_kv = 2u32;
    let hd = 4u32;
    let m = 1u32;
    let weights = build_weights(hidden, num_q, num_kv, hd, 0x1111);
    let rope_tables = RopeTables::identity(m, hd / 2);
    let lut = ExpLut::uniform_test();
    let input = lcg_weights((m * hidden) as usize, 0x5555);
    let mut output = vec![0i8; (m * hidden) as usize];
    // Should not panic or error.
    attention_forward(
        &input,
        &weights,
        small_scales(),
        &rope_tables,
        &lut,
        m,
        &mut output,
    )
    .unwrap();
}

#[test]
fn identity_rope_uniform_softmax_produces_output() {
    // With identity RoPE and uniform LUT, all positions contribute equally
    // to the V-weighted sum; the result is well-defined and non-panicking.
    let hidden = 8u32;
    let num_q = 2u32;
    let num_kv = 1u32;
    let hd = 4u32;
    let m = 4u32;
    let weights = build_weights(hidden, num_q, num_kv, hd, 0x2222);
    let rope_tables = RopeTables::identity(m, hd / 2);
    let lut = ExpLut::uniform_test();
    let input = lcg_weights((m * hidden) as usize, 0x3333);
    let mut output = vec![0i8; (m * hidden) as usize];
    attention_forward(
        &input,
        &weights,
        small_scales(),
        &rope_tables,
        &lut,
        m,
        &mut output,
    )
    .unwrap();
    // With uniform softmax, each position receives equal weight; all we
    // assert is the call succeeds and output is overwritten.
    assert!(output.iter().any(|&v| v != 0) || input.iter().all(|&v| v == 0));
}

#[test]
fn causal_order_enforced() {
    // Verify that different sequence lengths produce different outputs (i.e.
    // later tokens actually "see" earlier ones). m=1 and m=2 on the same
    // prefix must differ at position 1.
    let hidden = 8u32;
    let num_q = 2u32;
    let num_kv = 1u32;
    let hd = 4u32;
    let weights = build_weights(hidden, num_q, num_kv, hd, 0x4444);
    let lut = ExpLut::uniform_test();

    let input_m2 = lcg_weights((2 * hidden) as usize, 0x9999);
    let rope_m2 = RopeTables::identity(2, hd / 2);
    let mut out_m2 = vec![0i8; (2 * hidden) as usize];
    attention_forward(
        &input_m2,
        &weights,
        small_scales(),
        &rope_m2,
        &lut,
        2,
        &mut out_m2,
    )
    .unwrap();

    let input_m1 = input_m2[..(hidden as usize)].to_vec();
    let rope_m1 = RopeTables::identity(1, hd / 2);
    let mut out_m1 = vec![0i8; hidden as usize];
    attention_forward(
        &input_m1,
        &weights,
        small_scales(),
        &rope_m1,
        &lut,
        1,
        &mut out_m1,
    )
    .unwrap();

    // Position 0 output is identical regardless of sequence length
    // (causal: pos 0 sees only itself in both cases).
    assert_eq!(&out_m2[..hidden as usize], &out_m1[..]);
}

#[test]
fn gqa_num_kv_one() {
    // num_kv_heads=1: all q heads share the same single kv head.
    let hidden = 8u32;
    let num_q = 4u32;
    let num_kv = 1u32;
    let hd = 4u32;
    let m = 3u32;
    let weights = build_weights(hidden, num_q, num_kv, hd, 0x5555);
    let rope_tables = RopeTables::identity(m, hd / 2);
    let lut = ExpLut::uniform_test();
    let input = lcg_weights((m * hidden) as usize, 0x6666);
    let mut output = vec![0i8; (m * hidden) as usize];
    attention_forward(
        &input,
        &weights,
        small_scales(),
        &rope_tables,
        &lut,
        m,
        &mut output,
    )
    .unwrap();
}

#[test]
fn gqa_num_kv_equals_num_q() {
    // Standard MHA: each q head maps to its own kv head.
    let hidden = 8u32;
    let num_q = 4u32;
    let num_kv = 4u32;
    let hd = 4u32;
    let m = 3u32;
    let weights = build_weights(hidden, num_q, num_kv, hd, 0x7777);
    let rope_tables = RopeTables::identity(m, hd / 2);
    let lut = ExpLut::uniform_test();
    let input = lcg_weights((m * hidden) as usize, 0x8888);
    let mut output = vec![0i8; (m * hidden) as usize];
    attention_forward(
        &input,
        &weights,
        small_scales(),
        &rope_tables,
        &lut,
        m,
        &mut output,
    )
    .unwrap();
}

#[test]
fn attention_length_mismatch_rejected() {
    let hidden = 8u32;
    let num_q = 2u32;
    let num_kv = 1u32;
    let hd = 4u32;
    let m = 2u32;
    let weights = build_weights(hidden, num_q, num_kv, hd, 0xaaaa);
    let rope_tables = RopeTables::identity(m, hd / 2);
    let lut = ExpLut::uniform_test();
    let good_input = vec![0i8; (m * hidden) as usize];
    let mut good_output = vec![0i8; (m * hidden) as usize];

    // Short input.
    let short_input = vec![0i8; (m * hidden) as usize - 1];
    assert_eq!(
        attention_forward(
            &short_input,
            &weights,
            small_scales(),
            &rope_tables,
            &lut,
            m,
            &mut good_output
        )
        .err(),
        Some(AttentionError::BadInputLen),
    );

    // Short output.
    let mut short_output = vec![0i8; (m * hidden) as usize - 1];
    assert_eq!(
        attention_forward(
            &good_input,
            &weights,
            small_scales(),
            &rope_tables,
            &lut,
            m,
            &mut short_output
        )
        .err(),
        Some(AttentionError::BadOutputLen),
    );
}

#[test]
fn attention_zero_dim_rejected() {
    let hidden = 8u32;
    let num_q = 2u32;
    let num_kv = 1u32;
    let hd = 4u32;
    let weights = build_weights(hidden, num_q, num_kv, hd, 0xbbbb);
    let rope_tables = RopeTables::identity(4, hd / 2);
    let lut = ExpLut::uniform_test();
    let mut out = vec![0i8; (2 * hidden) as usize];

    // m = 0.
    let input = vec![0i8; 0];
    assert_eq!(
        attention_forward(
            &input,
            &weights,
            small_scales(),
            &rope_tables,
            &lut,
            0,
            &mut out
        )
        .err(),
        Some(AttentionError::ZeroDim),
    );
}

#[test]
fn rope_mismatch_rejected() {
    let hidden = 8u32;
    let num_q = 2u32;
    let num_kv = 1u32;
    let hd = 4u32;
    let m = 2u32;
    let weights = build_weights(hidden, num_q, num_kv, hd, 0xcccc);
    // Wrong half_head_dim: hd/2 + 1 = 3 instead of 2.
    let bad_rope = RopeTables::identity(m, hd / 2 + 1);
    let lut = ExpLut::uniform_test();
    let input = vec![0i8; (m * hidden) as usize];
    let mut output = vec![0i8; (m * hidden) as usize];
    assert_eq!(
        attention_forward(
            &input,
            &weights,
            small_scales(),
            &bad_rope,
            &lut,
            m,
            &mut output
        )
        .err(),
        Some(AttentionError::RopeHalfHeadDimMismatch),
    );
}

#[test]
fn bad_kv_heads_rejected() {
    let hidden = 8u32;
    let hd = 4u32;
    let m = 2u32;
    let rope_tables = RopeTables::identity(m, hd / 2);
    let lut = ExpLut::uniform_test();

    // num_kv_heads = 0.
    let mut w0 = build_weights(hidden, 2, 1, hd, 0xdddd);
    w0.num_kv_heads = 0;
    let input = vec![0i8; (m * hidden) as usize];
    let mut output = vec![0i8; (m * hidden) as usize];
    assert_eq!(
        attention_forward(
            &input,
            &w0,
            small_scales(),
            &rope_tables,
            &lut,
            m,
            &mut output
        )
        .err(),
        Some(AttentionError::BadKvHeads),
    );

    // num_kv_heads does not divide num_q_heads (3 does not divide 4).
    let mut w1 = build_weights(hidden, 4, 1, hd, 0xdddd);
    w1.num_kv_heads = 3;
    w1.w_k = lcg_weights((hidden as usize) * (3 * hd as usize), 0xeeee);
    w1.w_v = lcg_weights((hidden as usize) * (3 * hd as usize), 0xffff);
    assert_eq!(
        attention_forward(
            &input,
            &w1,
            small_scales(),
            &rope_tables,
            &lut,
            m,
            &mut output
        )
        .err(),
        Some(AttentionError::BadKvHeads),
    );
}

#[test]
fn scale_roundtrip_vs_matmul_int8() {
    // Q projection through attention_forward must match direct matmul+requantize.
    // We test this by zeroing w_k, w_v, w_o so all downstream ops produce zero,
    // and then checking that attention output at pos 0 head 0 reflects q[0] @ W_q.
    // (This is an indirect check; the full round-trip is tested by determinism.)
    let hidden = 8u32;
    let num_q = 1u32;
    let num_kv = 1u32;
    let hd = 4u32;
    let m = 1u32;

    let w_q = lcg_weights((hidden * num_q * hd) as usize, 0x1234);
    let zero_kv = vec![0i8; (hidden * num_kv * hd) as usize];
    let zero_o = vec![0i8; (num_q * hd * hidden) as usize];

    let weights = AttentionWeights {
        hidden,
        num_q_heads: num_q,
        num_kv_heads: num_kv,
        head_dim: hd,
        w_q: w_q.clone(),
        w_k: zero_kv.clone(),
        w_v: zero_kv.clone(),
        w_o: zero_o,
    };

    let q_scale = Scale::from_num(1 << (SCALE_DENOM_LOG2 - 4)).unwrap();
    let scales = AttentionScales {
        q: q_scale,
        k: unit_scale(),
        v: unit_scale(),
        score: unit_scale(),
        attn_out: unit_scale(),
        o: unit_scale(),
    };

    let rope_tables = RopeTables::identity(m, hd / 2);
    let lut = ExpLut::uniform_test();
    let input = lcg_weights((m * hidden) as usize, 0x5678);

    // Direct Q projection.
    let mut q_acc = vec![0i32; (m * num_q * hd) as usize];
    ai_pow_vi::matmul_int8::matmul_int8(&input, &w_q, m, hidden, num_q * hd, &mut q_acc).unwrap();
    let mut q_direct = vec![0i8; (m * num_q * hd) as usize];
    ai_pow_vi::matmul_int8::requantize_vec(&q_acc, q_scale, &mut q_direct).unwrap();

    // Through attention_forward (w_v = 0 → attn_out = 0 → output projection with w_o = 0).
    let mut attn_out = vec![0i8; (m * hidden) as usize];
    attention_forward(
        &input, &weights, scales, &rope_tables, &lut, m, &mut attn_out,
    )
    .unwrap();
    // We don't assert equality (output projection collapses things), just no panic/error.
    let _ = (q_direct, attn_out);
}

#[test]
fn attention_determinism() {
    let hidden = 8u32;
    let num_q = 2u32;
    let num_kv = 1u32;
    let hd = 4u32;
    let m = 4u32;
    let weights = build_weights(hidden, num_q, num_kv, hd, 0xfeed_beef);
    let rope_tables = RopeTables::identity(m, hd / 2);
    let lut = ExpLut::uniform_test();
    let input = lcg_weights((m * hidden) as usize, 0xcafe_babe);
    let mut a = vec![0i8; (m * hidden) as usize];
    let mut b = vec![0i8; (m * hidden) as usize];
    attention_forward(
        &input,
        &weights,
        small_scales(),
        &rope_tables,
        &lut,
        m,
        &mut a,
    )
    .unwrap();
    attention_forward(
        &input,
        &weights,
        small_scales(),
        &rope_tables,
        &lut,
        m,
        &mut b,
    )
    .unwrap();
    assert_eq!(a, b);
}

#[test]
fn head_dim_odd_rejected() {
    // head_dim = 3 is odd → HeadDimOdd.
    let hidden = 8u32;
    let hd = 3u32;
    let m = 2u32;
    let mut weights = build_weights(hidden, 2, 1, 4, 0xabab);
    // Override head_dim and resize weights accordingly.
    weights.head_dim = hd;
    weights.w_q = vec![0i8; (hidden * 2 * hd) as usize];
    weights.w_k = vec![0i8; (hidden * 1 * hd) as usize];
    weights.w_v = vec![0i8; (hidden * 1 * hd) as usize];
    weights.w_o = vec![0i8; (2 * hd * hidden) as usize];
    let rope_tables = RopeTables::zeros(m, 1); // half_head_dim=1 but hd/2=1 (no exact match)
    let lut = ExpLut::uniform_test();
    let input = vec![0i8; (m * hidden) as usize];
    let mut output = vec![0i8; (m * hidden) as usize];
    assert_eq!(
        attention_forward(
            &input,
            &weights,
            small_scales(),
            &rope_tables,
            &lut,
            m,
            &mut output
        )
        .err(),
        Some(AttentionError::HeadDimOdd),
    );
}

#[test]
fn rope_seq_len_too_short_rejected() {
    let hidden = 8u32;
    let num_q = 2u32;
    let num_kv = 1u32;
    let hd = 4u32;
    let m = 4u32;
    let weights = build_weights(hidden, num_q, num_kv, hd, 0x1234_5678);
    // rope_tables with seq_len=2 but m=4.
    let short_rope = RopeTables::identity(2, hd / 2);
    let lut = ExpLut::uniform_test();
    let input = vec![0i8; (m * hidden) as usize];
    let mut output = vec![0i8; (m * hidden) as usize];
    assert_eq!(
        attention_forward(
            &input,
            &weights,
            small_scales(),
            &short_rope,
            &lut,
            m,
            &mut output
        )
        .err(),
        Some(AttentionError::RopeSeqLenTooShort),
    );
}

#[test]
fn windowed_qk_normed_attention_is_causal_on_every_prefix() {
    let hidden = 8u32;
    let num_q = 2u32;
    let num_kv = 1u32;
    let hd = 4u32;
    let m = 4u32;
    let weights = build_weights(hidden, num_q, num_kv, hd, 0x7171);
    let mut table = [0i32; 256];
    for (i, slot) in table.iter_mut().enumerate() {
        *slot = 65536 - (i as i32 * 250);
    }
    let lut = ExpLut { table };
    let rope = RopeTables::identity(m, hd / 2);
    let gamma = vec![64i8, 32, 16, 8];
    let opts = GemmaAttentionOpts {
        q_norm_gamma: Some(&gamma),
        k_norm_gamma: Some(&gamma),
        qk_norm_eps_q: 1,
        qk_norm_post_scale: Scale::from_num(1 << (SCALE_DENOM_LOG2 - 2)).unwrap(),
        sliding_window: Some(2),
    };
    let input = lcg_weights((m * hidden) as usize, 0x2468);
    let mut full = vec![0i8; (m * hidden) as usize];
    attention_forward_gemma(&input, &weights, small_scales(), &rope, &lut, opts, m, &mut full).unwrap();
    for m2 in 1..m {
        let n = (m2 * hidden) as usize;
        let mut part = vec![0i8; n];
        attention_forward_gemma(&input[..n], &weights, small_scales(), &rope, &lut, opts, m2, &mut part).unwrap();
        assert_eq!(&full[..n], &part[..], "prefix of {m2} tokens");
    }
}
