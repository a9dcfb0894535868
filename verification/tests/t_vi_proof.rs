use ai_pow_vi::vi_proof::DecodeError;
use ai_pow_vi::vi_proof::TileOpening;
use ai_pow_vi::vi_proof::ViProof;
fn sample() -> ViProof {
    ViProof {
        model_id: [1u8; 32],
        layer_index: 8,
        comm_activations: vec![[2u8; 32], [3u8; 32], [4u8; 32]],
        comm_m: [5u8; 32],
        found: TileOpening {
            i: 6,
            j: 7,
            m_ij: [8u8; 32],
            path: vec![[9u8; 32], [10u8; 32]],
        },
        spot_checks: vec![
            TileOpening {
                i: 11,
                j: 12,
                m_ij: [13u8; 32],
                path: vec![[14u8; 32]],
            },
            TileOpening {
                i: 15,
                j: 16,
                m_ij: [17u8; 32],
                path: vec![],
            },
        ],
    }
}

#[test]
fn round_trip() {
    let p = sample();
    let bytes = p.encode();
    let q = ViProof::decode(&bytes).unwrap();
    assert_eq!(p, q);
}

#[test]
fn rejects_truncated() {
    let p = sample();
    let bytes = p.encode();
    for cut in 0..bytes.len() {
        assert!(
            ViProof::decode(&bytes[..cut]).is_err(),
            "expected error at cut={cut}",
        );
    }
}

#[test]
fn rejects_trailing() {
    let p = sample();
    let mut bytes = p.encode();
    bytes.push(0xff);
    assert_eq!(ViProof::decode(&bytes).err(), Some(DecodeError::Trailing));
}

#[test]
fn rejects_path_too_large() {
    let mut bytes = Vec::new();
    bytes.extend_from_slice(&[0u8; 32]); // model_id
    bytes.extend_from_slice(&0u32.to_le_bytes()); // layer_index
    bytes.extend_from_slice(&0u32.to_le_bytes()); // 0 activation roots
    bytes.extend_from_slice(&[0u8; 32]); // comm_m
    bytes.extend_from_slice(&0u32.to_le_bytes()); // i
    bytes.extend_from_slice(&0u32.to_le_bytes()); // j
    bytes.extend_from_slice(&[0u8; 32]); // m_ij
    bytes.extend_from_slice(&u32::MAX.to_le_bytes()); // path len
    assert_eq!(
        ViProof::decode(&bytes).err(),
        Some(DecodeError::PathTooLarge)
    );
}

#[test]
fn rejects_too_many_activation_roots() {
    let mut bytes = Vec::new();
    bytes.extend_from_slice(&[0u8; 32]); // model_id
    bytes.extend_from_slice(&0u32.to_le_bytes()); // layer_index
    bytes.extend_from_slice(&u32::MAX.to_le_bytes()); // activation count
    assert_eq!(
        ViProof::decode(&bytes).err(),
        Some(DecodeError::ActivationCountTooLarge),
    );
}

#[test]
fn empty_proof_round_trips() {
    let p = ViProof {
        model_id: [0u8; 32],
        layer_index: 0,
        comm_activations: vec![[42u8; 32]],
        comm_m: [0u8; 32],
        found: TileOpening {
            i: 0,
            j: 0,
            m_ij: [0u8; 32],
            path: vec![],
        },
        spot_checks: vec![],
    };
    assert_eq!(ViProof::decode(&p.encode()).unwrap(), p);
}

#[test]
fn rejects_spot_count_over_limit() {
    let mut bytes = Vec::new();
    bytes.extend_from_slice(&[0u8; 32]); // model_id
    bytes.extend_from_slice(&0u32.to_le_bytes()); // layer_index
    bytes.extend_from_slice(&0u32.to_le_bytes()); // 0 activation roots
    bytes.extend_from_slice(&[0u8; 32]); // comm_m
    bytes.extend_from_slice(&0u32.to_le_bytes()); // i
    bytes.extend_from_slice(&0u32.to_le_bytes()); // j
    bytes.extend_from_slice(&[0u8; 32]); // m_ij
    bytes.extend_from_slice(&0u32.to_le_bytes()); // empty path
    bytes.extend_from_slice(&(1_048_576u32 + 1).to_le_bytes()); // spot count
    assert_eq!(
        ViProof::decode(&bytes).err(),
        Some(DecodeError::SpotTooLarge)
    );
}
