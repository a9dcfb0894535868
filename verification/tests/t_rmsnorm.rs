use ai_pow_vi::rmsnorm::DEFAULT_EPS_Q;
use ai_pow_vi::rmsnorm::FRACT_BITS;
use ai_pow_vi::rmsnorm::RmsNormError;
use ai_pow_vi::rmsnorm::isqrt_floor;
use ai_pow_vi::rmsnorm::rmsnorm;
#[test]
fn isqrt_small_cases() {
    assert_eq!(isqrt_floor(0), 0);
    assert_eq!(isqrt_floor(1), 1);
    assert_eq!(isqrt_floor(2), 1);
    assert_eq!(isqrt_floor(3), 1);
    assert_eq!(isqrt_floor(4), 2);
    assert_eq!(isqrt_floor(15), 3);
    assert_eq!(isqrt_floor(16), 4);
    assert_eq!(isqrt_floor(99), 9);
    assert_eq!(isqrt_floor(100), 10);
    assert_eq!(isqrt_floor(10_000), 100);
    assert_eq!(isqrt_floor(10_001), 100);
    assert_eq!(isqrt_floor(99_999_999), 9999);
}

#[test]
fn isqrt_large_cases() {
    // 2^62: result is 2^31.
    assert_eq!(isqrt_floor(1i64 << 62), 1i64 << 31);
    // (2^31 + 1)^2 - 1: sqrt is 2^31 (floor).
    let n = (1i64 << 31) + 1;
    assert_eq!(isqrt_floor(n * n - 1), n - 1);
    assert_eq!(isqrt_floor(n * n), n);
}

#[test]
fn isqrt_floor_property_is_monotone_and_bounded() {
    for y in 0..1000 {
        let s = isqrt_floor(y);
        assert!(s * s <= y, "{s}^2 > {y}");
        assert!((s + 1) * (s + 1) > y, "{}^2 <= {y}", s + 1);
    }
}

#[test]
fn rmsnorm_zero_input_yields_zero_output() {
    let hidden = 16;
    let input = vec![0i8; hidden];
    let gamma = vec![32i8; hidden];
    let mut output = vec![0i32; hidden];
    rmsnorm(&input, &gamma, &mut output, DEFAULT_EPS_Q).unwrap();
    // All zeros.
    for &v in &output {
        assert_eq!(v, 0);
    }
}

#[test]
fn rmsnorm_uniform_input_normalizes() {
    // If every x[i] = c and every gamma[i] = g, then
    // mean_sq = c^2 (no bias), rms = c, output[i] = c * g / c = g.
    // In fixed-point: output[i] should be very close to g << FRACT_BITS
    // before the final shift, i.e. close to g after shift. The test
    // checks that all outputs match within a small rounding window.
    let hidden = 64;
    let input = vec![64i8; hidden];
    let gamma = vec![20i8; hidden];
    let mut output = vec![0i32; hidden];
    rmsnorm(&input, &gamma, &mut output, DEFAULT_EPS_Q).unwrap();
    // Expected: output[i] ≈ gamma * 1 = 20 (no requantize step yet).
    for &v in &output {
        assert!(
            (v - 20).abs() <= 1,
            "expected ~20, got {v} (rounding noise should be <=1)"
        );
    }
}

#[test]
fn rmsnorm_scaling_invariance() {
    // x and gamma are flipped sign together → output sign should flip
    // but magnitudes match.
    let hidden = 64;
    let input: Vec<i8> = (0..hidden as i8).collect();
    let gamma = vec![16i8; hidden];
    let mut out_pos = vec![0i32; hidden];
    let mut out_neg = vec![0i32; hidden];
    rmsnorm(&input, &gamma, &mut out_pos, DEFAULT_EPS_Q).unwrap();
    let neg_input: Vec<i8> = input.iter().map(|x| -x).collect();
    rmsnorm(&neg_input, &gamma, &mut out_neg, DEFAULT_EPS_Q).unwrap();
    for i in 0..hidden {
        assert_eq!(out_pos[i], -out_neg[i], "sign symmetry at {i}");
    }
}

#[test]
fn rmsnorm_rejects_len_mismatch() {
    let mut output = vec![0i32; 4];
    assert_eq!(
        rmsnorm(&[1, 2, 3], &[1, 2, 3, 4], &mut output, DEFAULT_EPS_Q).err(),
        Some(RmsNormError::LenMismatch),
    );
    let mut output = vec![0i32; 4];
    assert_eq!(
        rmsnorm(&[1, 2, 3, 4], &[1, 2, 3], &mut output, DEFAULT_EPS_Q).err(),
        Some(RmsNormError::LenMismatch),
    );
    let mut output = vec![0i32; 3];
    assert_eq!(
        rmsnorm(&[1, 2, 3, 4], &[1, 2, 3, 4], &mut output, DEFAULT_EPS_Q).err(),
        Some(RmsNormError::LenMismatch),
    );
}

#[test]
fn rmsnorm_rejects_zero_hidden() {
    let mut output: Vec<i32> = Vec::new();
    assert_eq!(
        rmsnorm(&[], &[], &mut output, DEFAULT_EPS_Q).err(),
        Some(RmsNormError::ZeroHidden),
    );
}

#[test]
fn rmsnorm_determinism() {
    // Same input twice → byte-equal output.
    let hidden = 128;
    let input: Vec<i8> = (0..hidden as i32).map(|i| ((i * 7 - 200) as i8)).collect();
    let gamma: Vec<i8> = (0..hidden as i32).map(|i| ((i * 3 + 5) as i8)).collect();
    let mut a = vec![0i32; hidden];
    let mut b = vec![0i32; hidden];
    rmsnorm(&input, &gamma, &mut a, DEFAULT_EPS_Q).unwrap();
    rmsnorm(&input, &gamma, &mut b, DEFAULT_EPS_Q).unwrap();
    assert_eq!(a, b);
}
