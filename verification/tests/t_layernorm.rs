use ai_pow_vi::rmsnorm::isqrt_floor;
use ai_pow_vi::rmsnorm::FRACT_BITS as RMS_FRACT_BITS;
use ai_pow_vi::layernorm::DEFAULT_EPS_Q;
use ai_pow_vi::layernorm::LayerNormError;
use ai_pow_vi::layernorm::layernorm;
#[test]
fn zero_input_with_zero_beta_yields_zeros() {
    let hidden = 8;
    let input = vec![0i8; hidden];
    let gamma = vec![32i8; hidden];
    let beta = vec![0i8; hidden];
    let mut output = vec![0i32; hidden];
    layernorm(&input, &gamma, &beta, &mut output, DEFAULT_EPS_Q).unwrap();
    for &v in &output {
        assert_eq!(v, 0);
    }
}

#[test]
fn zero_input_with_nonzero_beta_yields_beta() {
    let hidden = 8;
    let input = vec![0i8; hidden];
    let gamma = vec![32i8; hidden];
    let beta: Vec<i8> = (0..hidden as i8).collect();
    let mut output = vec![0i32; hidden];
    layernorm(&input, &gamma, &beta, &mut output, DEFAULT_EPS_Q).unwrap();
    for (i, &v) in output.iter().enumerate() {
        assert_eq!(v, i as i32, "beta should pass through at zero input");
    }
}

#[test]
fn constant_input_yields_zero_then_beta() {
    // If every x[i] = c, mean = c, all deviations = 0, var = 0,
    // (x - mean) * gamma * inv_std = 0, so output = beta.
    let hidden = 16;
    let input = vec![42i8; hidden];
    let gamma = vec![100i8; hidden];
    let beta: Vec<i8> = (0..hidden as i8).map(|v| v * 2 - 16).collect();
    let mut output = vec![0i32; hidden];
    layernorm(&input, &gamma, &beta, &mut output, DEFAULT_EPS_Q).unwrap();
    for (i, &v) in output.iter().enumerate() {
        assert_eq!(v, beta[i] as i32);
    }
}

#[test]
fn sign_symmetric_around_mean() {
    // Symmetric input around 0 with zero beta → output is sign-symmetric.
    let hidden = 32;
    let input: Vec<i8> = (0..hidden as i8).map(|v| v - 16).collect();
    let gamma = vec![16i8; hidden];
    let beta = vec![0i8; hidden];
    let mut out_pos = vec![0i32; hidden];
    let mut out_neg = vec![0i32; hidden];
    layernorm(&input, &gamma, &beta, &mut out_pos, DEFAULT_EPS_Q).unwrap();
    let neg_input: Vec<i8> = input.iter().map(|x| -x).collect();
    layernorm(&neg_input, &gamma, &beta, &mut out_neg, DEFAULT_EPS_Q).unwrap();
    for i in 0..hidden {
        assert_eq!(out_pos[i], -out_neg[i], "mismatch at {i}");
    }
}

#[test]
fn rejects_len_mismatch() {
    let mut output = vec![0i32; 4];
    assert_eq!(
        layernorm(&[1, 2, 3], &[1; 4], &[0; 4], &mut output, DEFAULT_EPS_Q).err(),
        Some(LayerNormError::LenMismatch),
    );
    let mut output = vec![0i32; 3];
    assert_eq!(
        layernorm(&[1; 4], &[1; 4], &[0; 4], &mut output, DEFAULT_EPS_Q).err(),
        Some(LayerNormError::LenMismatch),
    );
}

#[test]
fn rejects_zero_hidden() {
    let mut output: Vec<i32> = Vec::new();
    assert_eq!(
        layernorm(&[], &[], &[], &mut output, DEFAULT_EPS_Q).err(),
        Some(LayerNormError::ZeroHidden),
    );
}

#[test]
fn layernorm_determinism_round_trip() {
    let hidden = 64;
    let input: Vec<i8> = (0..hidden as i32).map(|i| (i * 11 - 100) as i8).collect();
    let gamma: Vec<i8> = (0..hidden as i32).map(|i| (i * 3 + 5) as i8).collect();
    let beta: Vec<i8> = (0..hidden as i32).map(|i| (i - 32) as i8).collect();
    let mut a = vec![0i32; hidden];
    let mut b = vec![0i32; hidden];
    layernorm(&input, &gamma, &beta, &mut a, DEFAULT_EPS_Q).unwrap();
    layernorm(&input, &gamma, &beta, &mut b, DEFAULT_EPS_Q).unwrap();
    assert_eq!(a, b);
}
