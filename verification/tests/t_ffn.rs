use ai_pow_vi::activation_lut::ActivationLut;
use ai_pow_vi::matmul_int8::matmul_int8;
use ai_pow_vi::matmul_int8::requantize_vec;
use ai_pow_vi::matmul_int8::MatmulError;
use ai_pow_vi::quant::rescale_and_requantize;
use ai_pow_vi::quant::Scale;
use ai_pow_vi::ffn::FfnError;
use ai_pow_vi::ffn::FfnScales;
use ai_pow_vi::ffn::FfnWeights;
use ai_pow_vi::ffn::elementwise_mul_i8;
use ai_pow_vi::ffn::ffn_forward;
use ai_pow_vi::activation_lut::ActivationKind;
use ai_pow_vi::quant::SCALE_DENOM_LOG2;
fn unit_scale() -> Scale {
    Scale::from_num(1 << SCALE_DENOM_LOG2).unwrap()
}

fn ffn_scales(s: Scale) -> FfnScales {
    FfnScales {
        gate: s,
        up: s,
        mid: s,
        down: s,
    }
}

#[test]
fn elementwise_mul_zero_is_zero() {
    let a = vec![0i8; 5];
    let b = vec![1i8, 2, 3, 4, 5];
    let mut out = vec![0i8; 5];
    elementwise_mul_i8(&a, &b, unit_scale(), &mut out).unwrap();
    for &v in &out {
        assert_eq!(v, 0);
    }
}

#[test]
fn elementwise_mul_unit_scale_just_clamps() {
    let a = vec![5i8, -10, 100];
    let b = vec![3i8, -2, 4];
    let mut out = vec![0i8; 3];
    elementwise_mul_i8(&a, &b, unit_scale(), &mut out).unwrap();
    assert_eq!(out[0], 15); // 5*3
    assert_eq!(out[1], 20); // -10 * -2
    assert_eq!(out[2], 127); // 100*4 = 400, saturates to 127
}

#[test]
fn elementwise_mul_quarter_scale() {
    // scale = 1/4 (num = 2^13). 100 * 4 = 400; 400/4 = 100.
    let s = Scale::from_num(1 << (SCALE_DENOM_LOG2 - 2)).unwrap();
    let a = vec![100i8];
    let b = vec![4i8];
    let mut out = vec![0i8];
    elementwise_mul_i8(&a, &b, s, &mut out).unwrap();
    assert_eq!(out[0], 100);
}

#[test]
fn elementwise_mul_rejects_len_mismatch() {
    let mut out = vec![0i8; 3];
    assert_eq!(
        elementwise_mul_i8(&[1, 2, 3], &[1, 2], unit_scale(), &mut out).err(),
        Some(FfnError::BadInputLen),
    );
}

fn build_test_ffn(hidden: u32, intermediate: u32, seed: u64) -> FfnWeights {
    let mut s = seed;
    let mut step = || -> i8 {
        s = s
            .wrapping_mul(6364136223846793005)
            .wrapping_add(1442695040888963407);
        s.wrapping_shr(56) as i8
    };
    let h = hidden as usize;
    let i = intermediate as usize;
    let w_gate: Vec<i8> = (0..h * i).map(|_| step()).collect();
    let w_up: Vec<i8> = (0..h * i).map(|_| step()).collect();
    let w_down: Vec<i8> = (0..i * h).map(|_| step()).collect();
    FfnWeights {
        hidden,
        intermediate,
        w_gate,
        w_up,
        w_down,
    }
}

#[test]
fn ffn_forward_zero_input_is_zero() {
    let hidden = 8u32;
    let intermediate = 16u32;
    let m = 2u32;
    let weights = build_test_ffn(hidden, intermediate, 0xabcdef);
    let activation = ActivationLut::identity();
    let input = vec![0i8; (m * hidden) as usize];
    let mut output = vec![1i8; (m * hidden) as usize]; // pre-fill to confirm overwrite
    ffn_forward(
        &input,
        &weights,
        &activation,
        ffn_scales(unit_scale()),
        m,
        &mut output,
    )
    .unwrap();
    for &v in &output {
        assert_eq!(v, 0, "zero input → zero output");
    }
}

#[test]
fn ffn_forward_validates_lengths() {
    let hidden = 8u32;
    let intermediate = 16u32;
    let m = 2u32;
    let weights = build_test_ffn(hidden, intermediate, 0x123);
    let activation = ActivationLut::identity();
    let input = vec![0i8; 7]; // wrong size
    let mut output = vec![0i8; (m * hidden) as usize];
    assert_eq!(
        ffn_forward(
            &input,
            &weights,
            &activation,
            ffn_scales(unit_scale()),
            m,
            &mut output,
        )
        .err(),
        Some(FfnError::BadInputLen),
    );

    let input = vec![0i8; (m * hidden) as usize];
    let mut output = vec![0i8; 5];
    assert_eq!(
        ffn_forward(
            &input,
            &weights,
            &activation,
            ffn_scales(unit_scale()),
            m,
            &mut output,
        )
        .err(),
        Some(FfnError::BadOutputLen),
    );
}

#[test]
fn ffn_forward_determinism() {
    let hidden = 8u32;
    let intermediate = 16u32;
    let m = 2u32;
    let weights = build_test_ffn(hidden, intermediate, 0xdeadbeef);
    let activation =
        ActivationLut::from_bytes(ActivationKind::SiLU, &(0u8..=255u8).collect::<Vec<_>>())
            .unwrap();
    let input: Vec<i8> = (0..(m * hidden) as i32)
        .map(|i| (i * 7 - 50) as i8)
        .collect();
    let mut a = vec![0i8; (m * hidden) as usize];
    let mut b = vec![0i8; (m * hidden) as usize];
    let scales = FfnScales {
        gate: Scale::from_num(1 << (SCALE_DENOM_LOG2 - 6)).unwrap(),
        up: Scale::from_num(1 << (SCALE_DENOM_LOG2 - 6)).unwrap(),
        mid: Scale::from_num(1 << (SCALE_DENOM_LOG2 - 4)).unwrap(),
        down: Scale::from_num(1 << (SCALE_DENOM_LOG2 - 6)).unwrap(),
    };
    ffn_forward(&input, &weights, &activation, scales, m, &mut a).unwrap();
    ffn_forward(&input, &weights, &activation, scales, m, &mut b).unwrap();
    assert_eq!(a, b);
}

#[test]
fn ffn_with_zeroed_gate_yields_zero_output() {
    // A zero W_gate gives zero gate values. The
    // identity LUT then maps zero → zero. The elementwise multiply
    // with the up tensor is zero. Final down matmul is zero. So output
    // is zero regardless of W_up / W_down.
    let hidden = 8u32;
    let intermediate = 16u32;
    let m = 2u32;
    let mut weights = build_test_ffn(hidden, intermediate, 0xfeed);
    weights.w_gate = vec![0i8; (hidden * intermediate) as usize];
    let activation = ActivationLut::identity();
    let input: Vec<i8> = (0..(m * hidden) as i32)
        .map(|i| (i * 3 - 7) as i8)
        .collect();
    let mut output = vec![0i8; (m * hidden) as usize];
    ffn_forward(
        &input,
        &weights,
        &activation,
        ffn_scales(unit_scale()),
        m,
        &mut output,
    )
    .unwrap();
    for &v in &output {
        assert_eq!(v, 0);
    }
}
