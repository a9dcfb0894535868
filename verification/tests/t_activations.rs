use ai_pow_vi::merkle::merkle_root;
use ai_pow_vi::activations::ActivationError;
use ai_pow_vi::activations::ActivationLayout;
use ai_pow_vi::activations::ActivationLog;
use ai_pow_vi::activations::extract_tile_bytes;
use ai_pow_vi::activations::tile_leaf_hash;
use ai_pow_vi::activations::verify_opening;
fn lcg_bytes(len: usize, seed: u64) -> Vec<i8> {
    let mut s = seed;
    (0..len)
        .map(|_| {
            s = s
                .wrapping_mul(6364136223846793005)
                .wrapping_add(1442695040888963407);
            s.wrapping_shr(56) as i8
        })
        .collect()
}

#[test]
fn layout_validates_dimensions() {
    let bad = ActivationLayout {
        seq_len: 0,
        hidden: 8,
        tile: 4,
    };
    assert_eq!(bad.validate().err(), Some(ActivationError::ZeroDim));

    let bad = ActivationLayout {
        seq_len: 5,
        hidden: 8,
        tile: 4,
    };
    assert_eq!(
        bad.validate().err(),
        Some(ActivationError::SeqLenNotMultipleOfTile),
    );

    let bad = ActivationLayout {
        seq_len: 8,
        hidden: 7,
        tile: 4,
    };
    assert_eq!(
        bad.validate().err(),
        Some(ActivationError::HiddenNotMultipleOfTile),
    );

    let good = ActivationLayout {
        seq_len: 8,
        hidden: 16,
        tile: 4,
    };
    assert!(good.validate().is_ok());
    assert_eq!(good.num_row_tiles(), 2);
    assert_eq!(good.num_col_tiles(), 4);
    assert_eq!(good.num_tiles(), 8);
}

#[test]
fn record_one_layer_matches_direct_merkle_root() {
    let layout = ActivationLayout {
        seq_len: 4,
        hidden: 8,
        tile: 2,
    };
    let tensor = lcg_bytes(4 * 8, 0xabcd);
    let mut log = ActivationLog::new(layout).unwrap();
    log.record_layer(0, &tensor).unwrap();

    // Recompute leaves directly and compare root.
    let mut leaves = Vec::new();
    for r in 0..layout.num_row_tiles() {
        for c in 0..layout.num_col_tiles() {
            leaves.push(tile_leaf_hash(&extract_tile_bytes(&tensor, &layout, r, c)));
        }
    }
    let direct = merkle_root(&leaves);
    assert_eq!(log.root(0).unwrap(), direct);
}

#[test]
fn open_any_tile_recovers_root() {
    let layout = ActivationLayout {
        seq_len: 8,
        hidden: 8,
        tile: 2,
    };
    let tensor = lcg_bytes(8 * 8, 0x1234);
    let mut log = ActivationLog::new(layout).unwrap();
    log.record_layer(0, &tensor).unwrap();
    let root = log.root(0).unwrap();
    let total = layout.num_tiles();
    for t in 0..total {
        let opening = log.open(0, t, &tensor).unwrap();
        verify_opening(&layout, &root, &opening).unwrap();
    }
}

#[test]
fn tampering_one_byte_changes_root() {
    let layout = ActivationLayout {
        seq_len: 4,
        hidden: 4,
        tile: 2,
    };
    let mut tensor = lcg_bytes(16, 0x4242);
    let mut log_a = ActivationLog::new(layout).unwrap();
    log_a.record_layer(0, &tensor).unwrap();
    let root_a = log_a.root(0).unwrap();

    tensor[7] ^= 1;
    let mut log_b = ActivationLog::new(layout).unwrap();
    log_b.record_layer(0, &tensor).unwrap();
    let root_b = log_b.root(0).unwrap();

    assert_ne!(root_a, root_b);
}

#[test]
fn tampered_opening_rejected() {
    let layout = ActivationLayout {
        seq_len: 4,
        hidden: 4,
        tile: 2,
    };
    let tensor = lcg_bytes(16, 0xfeed);
    let mut log = ActivationLog::new(layout).unwrap();
    log.record_layer(0, &tensor).unwrap();
    let root = log.root(0).unwrap();

    // Flip one byte of the opened tile_bytes; verify_opening must reject.
    let mut opening = log.open(0, 1, &tensor).unwrap();
    opening.tile_bytes[0] ^= 1;
    assert!(verify_opening(&layout, &root, &opening).is_err());

    // Original opening still verifies.
    let good = log.open(0, 1, &tensor).unwrap();
    verify_opening(&layout, &root, &good).unwrap();
}

#[test]
fn record_requires_sequential_layer_idx() {
    let layout = ActivationLayout {
        seq_len: 2,
        hidden: 2,
        tile: 1,
    };
    let tensor = vec![0i8; 4];
    let mut log = ActivationLog::new(layout).unwrap();
    // First record must use layer_idx = 0.
    assert_eq!(
        log.record_layer(1, &tensor).err(),
        Some(ActivationError::NonSequentialLayer {
            expected: 0,
            got: 1
        }),
    );
    log.record_layer(0, &tensor).unwrap();
    // Now next must be layer_idx = 1.
    assert_eq!(
        log.record_layer(0, &tensor).err(),
        Some(ActivationError::NonSequentialLayer {
            expected: 1,
            got: 0
        }),
    );
    log.record_layer(1, &tensor).unwrap();
    assert_eq!(log.num_layers(), 2);
}

#[test]
fn record_validates_tensor_len() {
    let layout = ActivationLayout {
        seq_len: 4,
        hidden: 4,
        tile: 2,
    };
    let mut log = ActivationLog::new(layout).unwrap();
    let bad = vec![0i8; 15];
    assert_eq!(
        log.record_layer(0, &bad).err(),
        Some(ActivationError::BadTensorLen),
    );
}

#[test]
fn out_of_range_lookups_rejected() {
    let layout = ActivationLayout {
        seq_len: 2,
        hidden: 2,
        tile: 2,
    };
    let tensor = vec![1i8; 4];
    let mut log = ActivationLog::new(layout).unwrap();
    log.record_layer(0, &tensor).unwrap();

    assert_eq!(
        log.root(1).err(),
        Some(ActivationError::LayerOutOfRange { have: 1, asked: 1 }),
    );
    assert_eq!(
        log.open(1, 0, &tensor).err(),
        Some(ActivationError::LayerOutOfRange { have: 1, asked: 1 }),
    );
    // Only 1 tile (since seq_len=hidden=tile=2 → 1*1 tiles).
    assert_eq!(
        log.open(0, 1, &tensor).err(),
        Some(ActivationError::TileOutOfRange { have: 1, asked: 1 }),
    );
}

#[test]
fn multi_layer_distinct_roots() {
    let layout = ActivationLayout {
        seq_len: 4,
        hidden: 4,
        tile: 2,
    };
    let mut log = ActivationLog::new(layout).unwrap();
    let t0 = lcg_bytes(16, 0x1);
    let t1 = lcg_bytes(16, 0x2);
    let t2 = lcg_bytes(16, 0x3);
    log.record_layer(0, &t0).unwrap();
    log.record_layer(1, &t1).unwrap();
    log.record_layer(2, &t2).unwrap();
    assert_eq!(log.num_layers(), 3);
    // All three tensors are distinct; all three roots must differ.
    let r0 = log.root(0).unwrap();
    let r1 = log.root(1).unwrap();
    let r2 = log.root(2).unwrap();
    assert_ne!(r0, r1);
    assert_ne!(r1, r2);
    assert_ne!(r0, r2);
}

#[test]
fn determinism_two_logs_same_inputs_same_roots() {
    let layout = ActivationLayout {
        seq_len: 8,
        hidden: 8,
        tile: 2,
    };
    let tensor = lcg_bytes(64, 0xfeed_beef_cafe_babe);
    let mut a = ActivationLog::new(layout).unwrap();
    let mut b = ActivationLog::new(layout).unwrap();
    a.record_layer(0, &tensor).unwrap();
    b.record_layer(0, &tensor).unwrap();
    assert_eq!(a.layer_roots, b.layer_roots);
    assert_eq!(a.tiles, b.tiles);
}

#[test]
fn open_for_unrecorded_layer_rejected() {
    let layout = ActivationLayout {
        seq_len: 2,
        hidden: 2,
        tile: 1,
    };
    let log = ActivationLog::new(layout).unwrap();
    let tensor = vec![0i8; 4];
    assert_eq!(
        log.open(0, 0, &tensor).err(),
        Some(ActivationError::LayerOutOfRange { have: 0, asked: 0 }),
    );
}

#[test]
fn extract_tile_is_row_major_within_tile() {
    // (4, 4) tensor, tile=2. Tensor as row-major:
    // [ 1,  2,  3,  4,
    //   5,  6,  7,  8,
    //   9, 10, 11, 12,
    //  13, 14, 15, 16]
    // Tile (0,0) covers rows 0..2, cols 0..2 → [1, 2, 5, 6].
    // Tile (1,1) covers rows 2..4, cols 2..4 → [11, 12, 15, 16].
    let layout = ActivationLayout {
        seq_len: 4,
        hidden: 4,
        tile: 2,
    };
    let tensor: Vec<i8> = (1..=16).map(|x| x as i8).collect();
    let t00 = extract_tile_bytes(&tensor, &layout, 0, 0);
    assert_eq!(t00, vec![1i8, 2, 5, 6]);
    let t11 = extract_tile_bytes(&tensor, &layout, 1, 1);
    assert_eq!(t11, vec![11i8, 12, 15, 16]);
}
