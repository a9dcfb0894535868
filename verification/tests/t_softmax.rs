use ai_pow_vi::softmax::ExpLut;
use ai_pow_vi::softmax::ExpLutError;
use ai_pow_vi::softmax::SoftmaxError;
use ai_pow_vi::softmax::softmax_int;
#[test]
fn uniform_lut_yields_uniform_distribution() {
    let lut = ExpLut::uniform_test();
    let scores = vec![100i32, -42, 0, 7]; // arbitrary; LUT ignores them.
    let mut out = vec![0i8; 4];
    softmax_int(&scores, &lut, &mut out).unwrap();
    // Each = 127 / 4 ≈ 31.75 → 32 (round to nearest).
    for &v in &out {
        assert_eq!(v, 32);
    }
}

#[test]
fn dominant_score_takes_most_mass() {
    // Build a LUT that decays sharply: e^-x in fixed-point.
    let mut table = [0i32; 256];
    for (i, slot) in table.iter_mut().enumerate() {
        // Crude exp(-i) integer approx: 65536 / 2^i, clamped at 0 for
        // large i. Not a real exp; just sharp-enough to peak.
        let v = if i < 16 {
            (1i32 << 16).wrapping_shr(i as u32)
        } else {
            0
        };
        *slot = v;
    }
    let lut = ExpLut { table };
    // Scores: position 2 dominates by 5 LUT-units. delta for position 2
    // is 0 (it's the max), others have delta = 5 → very small mass.
    let scores = vec![-5i32, -5, 0, -5];
    let mut out = vec![0i8; 4];
    softmax_int(&scores, &lut, &mut out).unwrap();
    assert!(out[2] > out[0], "max-score position must dominate: {out:?}");
    assert!(out[2] > out[1]);
    assert!(out[2] > out[3]);
}

#[test]
fn all_equal_scores_produce_uniform_with_decaying_lut() {
    let mut table = [0i32; 256];
    // Decreasing table.
    for (i, slot) in table.iter_mut().enumerate() {
        *slot = 65536 - (i as i32 * 100);
    }
    let lut = ExpLut { table };
    let scores = vec![42i32; 8];
    let mut out = vec![0i8; 8];
    softmax_int(&scores, &lut, &mut out).unwrap();
    // All deltas are 0, so every position gets table[0]; outputs are
    // each 127 / 8 = 15.875 → 16.
    for &v in &out {
        assert_eq!(v, 16, "out: {out:?}");
    }
}

#[test]
fn rejects_bad_inputs() {
    let lut = ExpLut::uniform_test();
    let mut out = vec![0i8; 0];
    assert_eq!(
        softmax_int(&[], &lut, &mut out).err(),
        Some(SoftmaxError::Empty)
    );
    let mut out = vec![0i8; 3];
    assert_eq!(
        softmax_int(&[1, 2], &lut, &mut out).err(),
        Some(SoftmaxError::LenMismatch),
    );
}

#[test]
fn output_sums_close_to_127() {
    let lut = ExpLut::uniform_test();
    let scores: Vec<i32> = (0..32).collect();
    let mut out = vec![0i8; 32];
    softmax_int(&scores, &lut, &mut out).unwrap();
    // Each = 127 / 32 = 3.96875 → 4. Sum ~ 128 (off-by-one rounding).
    let total: i32 = out.iter().map(|&v| v as i32).sum();
    assert!(
        (total - 127).abs() <= 1,
        "softmax sum should be ~127, got {total} (out: {out:?})",
    );
}

#[test]
fn softmax_determinism_round_trip() {
    let lut = ExpLut::uniform_test();
    let scores: Vec<i32> = (0..64).map(|i| i * 17 - 100).collect();
    let mut a = vec![0i8; 64];
    let mut b = vec![0i8; 64];
    softmax_int(&scores, &lut, &mut a).unwrap();
    softmax_int(&scores, &lut, &mut b).unwrap();
    assert_eq!(a, b);
}

#[test]
fn lut_round_trip_bytes() {
    let lut = ExpLut::uniform_test();
    let bytes = lut.to_bytes();
    let again = ExpLut::from_bytes(&bytes).unwrap();
    assert_eq!(lut, again);
}

#[test]
fn lut_commit_changes_on_one_byte_flip() {
    let a = ExpLut::uniform_test();
    let mut bytes = a.to_bytes();
    bytes[42] ^= 1;
    let b = ExpLut::from_bytes(&bytes).unwrap();
    assert_ne!(a.commit(), b.commit());
}

#[test]
fn lut_from_bytes_rejects_bad_length() {
    assert_eq!(
        ExpLut::from_bytes(&[0u8; 100]).err(),
        Some(ExpLutError::WrongLength(100)),
    );
}

#[test]
fn shifting_every_score_by_a_constant_keeps_the_distribution() {
    let mut table = [0i32; 256];
    for (i, slot) in table.iter_mut().enumerate() {
        *slot = 65536 - (i as i32 * 200);
    }
    let lut = ExpLut { table };
    let scores = vec![-7i32, 3, 0, 12, -300];
    let mut out = vec![0i8; 5];
    softmax_int(&scores, &lut, &mut out).unwrap();
    for c in [-1000i32, -1, 1, 77, 1_000_000] {
        let shifted: Vec<i32> = scores.iter().map(|s| s + c).collect();
        let mut out2 = vec![0i8; 5];
        softmax_int(&shifted, &lut, &mut out2).unwrap();
        assert_eq!(out, out2, "shift {c}");
    }
}

#[test]
fn decoded_table_re_encodes_to_the_same_bytes() {
    let mut s = 0x1234_5678_9abc_def0u64;
    let bytes: Vec<u8> = (0..1024)
        .map(|_| {
            s = s.wrapping_mul(6364136223846793005).wrapping_add(1442695040888963407);
            (s >> 56) as u8
        })
        .collect();
    let lut = ExpLut::from_bytes(&bytes).unwrap();
    assert_eq!(lut.to_bytes().to_vec(), bytes);
    assert_eq!(ExpLut::from_bytes(&lut.to_bytes()).unwrap().table, lut.table);
}
