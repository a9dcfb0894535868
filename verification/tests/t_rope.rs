use ai_pow_vi::quant::round_half_to_even_div_pow2;
use ai_pow_vi::quant::saturate_i8;
use ai_pow_vi::rope::FRACT_BITS;
use ai_pow_vi::rope::RopeError;
use ai_pow_vi::rope::RopeTables;
use ai_pow_vi::rope::rope_apply;
#[test]
fn identity_tables_are_no_op() {
    let tables = RopeTables::identity(4, 8);
    let mut x: Vec<i8> = (0..16i8).map(|v| v - 8).collect();
    let original = x.clone();
    rope_apply(&mut x, 2, &tables).unwrap();
    assert_eq!(x, original, "identity rotation must not modify input");
}

#[test]
fn ninety_degree_rotation_swaps_pair() {
    // Tables: cos = 0, sin = 1 → (x0, x1) -> (-x1, x0).
    let mut tables = RopeTables::zeros(2, 4);
    for slot in tables.cos.iter_mut() {
        *slot = 0;
    }
    for slot in tables.sin.iter_mut() {
        *slot = 1 << FRACT_BITS;
    }
    let mut x: Vec<i8> = vec![10, 20, -30, 40, 0, 7, -1, 1];
    let mut expected = vec![0i8; 8];
    for j in 0..4 {
        expected[j * 2] = -x[j * 2 + 1];
        expected[j * 2 + 1] = x[j * 2];
    }
    rope_apply(&mut x, 0, &tables).unwrap();
    assert_eq!(x, expected);
}

#[test]
fn one_eighty_rotation_negates_pair() {
    // cos = -1, sin = 0 → (x0, x1) -> (-x0, -x1).
    let mut tables = RopeTables::zeros(2, 4);
    for slot in tables.cos.iter_mut() {
        *slot = -(1 << FRACT_BITS);
    }
    let mut x: Vec<i8> = vec![10, 20, -30, 40, 0, 7, -1, 1];
    let expected: Vec<i8> = x.iter().map(|v| -v).collect();
    rope_apply(&mut x, 0, &tables).unwrap();
    assert_eq!(x, expected);
}

#[test]
fn rejects_position_out_of_range() {
    let tables = RopeTables::identity(4, 4);
    let mut x = vec![0i8; 8];
    assert_eq!(
        rope_apply(&mut x, 4, &tables).err(),
        Some(RopeError::PosOutOfRange),
    );
}

#[test]
fn rejects_length_mismatch() {
    let tables = RopeTables::identity(4, 4);
    let mut x = vec![0i8; 7];
    assert_eq!(
        rope_apply(&mut x, 0, &tables).err(),
        Some(RopeError::LenMismatch),
    );
}

#[test]
fn validate_catches_shape_mismatch() {
    let mut tables = RopeTables::identity(4, 4);
    tables.cos.pop();
    assert_eq!(tables.validate().err(), Some(RopeError::ShapeMismatch));
}

#[test]
fn commit_is_position_and_table_sensitive() {
    let a = RopeTables::identity(4, 4);
    let b = RopeTables::identity(4, 8); // different shape
    assert_ne!(a.commit(), b.commit());
    let mut c = RopeTables::identity(4, 4);
    c.cos[0] ^= 1;
    assert_ne!(a.commit(), c.commit());
}

#[test]
fn determinism_same_inputs_same_outputs() {
    // Hand-built tables with a few fixed angles.
    let mut tables = RopeTables::zeros(2, 4);
    for j in 0..4 {
        // Position 0: identity. Position 1: rotation by some angle.
        tables.cos[j] = 1 << FRACT_BITS;
        tables.sin[j] = 0;
        tables.cos[4 + j] = 12345;
        tables.sin[4 + j] = -6789;
    }
    let x_seed: Vec<i8> = (0..8i8).map(|v| (v * 13 - 50) as i8).collect();
    let mut a = x_seed.clone();
    let mut b = x_seed.clone();
    rope_apply(&mut a, 1, &tables).unwrap();
    rope_apply(&mut b, 1, &tables).unwrap();
    assert_eq!(a, b);
}
