use ai_pow_vi::tile_hash::TileState;
use ai_pow_vi::tile_hash::tile_hardness_hash;
use ai_pow_vi::tile_hash::tile_leaf;
use ai_pow_vi::tile_hash::tile_state_from_block;
#[test]
fn tile_state_from_empty_is_zero() {
    let state = tile_state_from_block(&[]);
    assert_eq!(state, TileState::zero());
}

#[test]
fn tile_leaf_is_deterministic() {
    let block = vec![1i32, -2, 3, -4, 5, -6, 7, -8, 9, -10, 11, -12, 13, -14, 15, -16, 17];
    let h1 = tile_leaf(&block);
    let h2 = tile_leaf(&block);
    assert_eq!(h1, h2);
}

#[test]
fn tile_leaf_changes_with_content() {
    let mut block = vec![0i32; 16];
    let h0 = tile_leaf(&block);
    block[0] = 1;
    let h1 = tile_leaf(&block);
    assert_ne!(h0, h1);
}

#[test]
fn tile_state_uses_pearl_rotate_xor() {
    // Manual cross-check: two i32s a, b XOR-folded into slot 0 give
    // (((0 << 13) ^ a) << 13) ^ b. Build a 32-entry block such that
    // chunk 0 = a, chunk 1 = b (with each chunk XOR-ing to those values).
    let a = 0x1234_5678u32 as i32;
    let b = 0x0bad_f00du32 as i32;
    let mut block = vec![0i32; 32];
    block[0] = a; // chunk 0 XOR -> a (rest are zero)
    block[16] = b; // chunk 1 XOR -> b
    let state = tile_state_from_block(&block);
    // step 0: M[0] = (0 << 13) ^ a = a
    // step 1: M[1] = (0 << 13) ^ b = b
    // Other slots remain 0.
    assert_eq!(state.0[0] as u32, a as u32);
    assert_eq!(state.0[1] as u32, b as u32);
    for v in &state.0[2..] {
        assert_eq!(*v, 0);
    }
}

#[test]
fn tile_state_step_two_into_same_slot_rotates() {
    // step 0 -> slot 0 with value `a`.
    // step 16 -> slot 0 again: M[0] = M[0].rotate_left(13) ^ b.
    let a = 0x1234_5678u32;
    let b = 0x0bad_f00du32;
    let mut block = vec![0i32; 17 * 16];
    block[0] = a as i32;
    block[16 * 16] = b as i32;
    let state = tile_state_from_block(&block);
    let expected = a.rotate_left(13) ^ b;
    assert_eq!(state.0[0] as u32, expected);
}

#[test]
fn hardness_hash_binds_all_inputs() {
    let seed = [9u8; 32];
    let m = [7u8; 32];
    let base = tile_hardness_hash(&seed, 1, 2, &m);
    // Different (i, j) → different hash.
    assert_ne!(tile_hardness_hash(&seed, 2, 2, &m), base);
    assert_ne!(tile_hardness_hash(&seed, 1, 3, &m), base);
    // Different seed → different hash.
    assert_ne!(tile_hardness_hash(&[10u8; 32], 1, 2, &m), base);
    // Different leaf → different hash.
    let mut m2 = m;
    m2[0] ^= 1;
    assert_ne!(tile_hardness_hash(&seed, 1, 2, &m2), base);
}
