use ai_pow_vi::quant::QuantError;
use ai_pow_vi::quant::SCALE_DENOM_LOG2;
use ai_pow_vi::quant::Scale;
use ai_pow_vi::quant::rescale_and_requantize;
use ai_pow_vi::quant::round_half_to_even_div_pow2;
use ai_pow_vi::quant::saturate_i8;
#[test]
fn scale_from_num_rejects_non_positive() {
    assert_eq!(Scale::from_num(0), Err(QuantError::NonPositiveScale));
    assert_eq!(Scale::from_num(-1), Err(QuantError::NonPositiveScale));
    assert!(Scale::from_num(1).is_ok());
}

#[test]
fn round_half_to_even_basic() {
    // 1.5 -> 2 (even). Encode as value=12, shift=3 (12/8 = 1.5).
    assert_eq!(round_half_to_even_div_pow2(12, 3), 2);
    // 0.5 -> 0 (even). value=4, shift=3 (4/8 = 0.5).
    assert_eq!(round_half_to_even_div_pow2(4, 3), 0);
    // 2.5 -> 2 (even). value=20, shift=3 (20/8 = 2.5).
    assert_eq!(round_half_to_even_div_pow2(20, 3), 2);
    // -1.5 -> -2 (even). value=-12, shift=3.
    assert_eq!(round_half_to_even_div_pow2(-12, 3), -2);
    // -0.5 -> 0 (even). value=-4, shift=3.
    assert_eq!(round_half_to_even_div_pow2(-4, 3), 0);
    // -2.5 -> -2 (even). value=-20, shift=3.
    assert_eq!(round_half_to_even_div_pow2(-20, 3), -2);
}

#[test]
fn round_half_to_even_non_half_cases() {
    // 1.25 -> 1, 1.75 -> 2, -1.25 -> -1, -1.75 -> -2.
    assert_eq!(round_half_to_even_div_pow2(10, 3), 1); // 10/8 = 1.25
    assert_eq!(round_half_to_even_div_pow2(14, 3), 2); // 14/8 = 1.75
    assert_eq!(round_half_to_even_div_pow2(-10, 3), -1);
    assert_eq!(round_half_to_even_div_pow2(-14, 3), -2);
}

#[test]
fn round_half_to_even_zero_and_one() {
    assert_eq!(round_half_to_even_div_pow2(0, 15), 0);
    assert_eq!(round_half_to_even_div_pow2(1 << 15, 15), 1);
    assert_eq!(round_half_to_even_div_pow2(-(1 << 15), 15), -1);
}

#[test]
fn rescale_identity_scale() {
    // Scale = 1.0 (num = 2^15). Output = clamp(acc).
    let s = Scale::from_num(1 << SCALE_DENOM_LOG2).unwrap();
    assert_eq!(rescale_and_requantize(0, s), 0);
    assert_eq!(rescale_and_requantize(50, s), 50);
    assert_eq!(rescale_and_requantize(-50, s), -50);
    assert_eq!(rescale_and_requantize(500, s), 127); // clamps
    assert_eq!(rescale_and_requantize(-500, s), -128);
}

#[test]
fn rescale_with_half_scale_uses_bankers_rounding() {
    // Scale = 0.5 (num = 2^14). 5 * 0.5 = 2.5 -> 2 (round-to-even).
    let s = Scale::from_num(1 << (SCALE_DENOM_LOG2 - 1)).unwrap();
    assert_eq!(rescale_and_requantize(5, s), 2);
    // 7 * 0.5 = 3.5 -> 4.
    assert_eq!(rescale_and_requantize(7, s), 4);
    // -5 * 0.5 = -2.5 -> -2.
    assert_eq!(rescale_and_requantize(-5, s), -2);
}

#[test]
fn rescale_clamps_at_int_extremes() {
    let s = Scale::from_num(1 << SCALE_DENOM_LOG2).unwrap();
    assert_eq!(rescale_and_requantize(i32::MAX, s), 127);
    assert_eq!(rescale_and_requantize(i32::MIN, s), -128);
}

#[test]
fn saturate_helper_matches_clamp() {
    assert_eq!(saturate_i8(100), 100);
    assert_eq!(saturate_i8(200), 127);
    assert_eq!(saturate_i8(-200), -128);
    assert_eq!(saturate_i8(0), 0);
}
