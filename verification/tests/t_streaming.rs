use ai_pow_vi::comm_w::weights_merkle_root;
use ai_pow_vi::streaming::StreamingMerkle;

fn stream_bytes(len: usize, seed: u64) -> Vec<u8> {
    let mut s = seed;
    (0..len)
        .map(|_| {
            s = s.wrapping_mul(6364136223846793005).wrapping_add(1442695040888963407);
            (s >> 56) as u8
        })
        .collect()
}

fn streamed_root(data: &[u8], chunk: usize) -> [u8; 32] {
    let mut sm = StreamingMerkle::new();
    for part in data.chunks(chunk) {
        sm.update(part);
    }
    sm.finalize()
}

#[test]
fn streaming_root_matches_batch_root_for_any_chunking() {
    for &len in &[0usize, 1, 63, 64, 65, 128, 200, 64 * 5, 64 * 9 + 7, 1000] {
        let data = stream_bytes(len, 0x5eed + len as u64);
        let batch = weights_merkle_root(&data);
        for &chunk in &[1usize, 3, 64, 65, 100, 4096] {
            assert_eq!(streamed_root(&data, chunk), batch, "len {len} chunk {chunk}");
        }
    }
}

#[test]
fn streaming_empty_input_is_one_zero_tile() {
    let sm = StreamingMerkle::new();
    assert_eq!(sm.finalize(), weights_merkle_root(&[]));
    assert_eq!(weights_merkle_root(&[]), weights_merkle_root(&[0u8; 64]));
}

#[test]
fn streaming_root_changes_with_one_byte() {
    let mut data = stream_bytes(300, 7);
    let a = streamed_root(&data, 50);
    data[299] ^= 1;
    let b = streamed_root(&data, 50);
    assert_ne!(a, b);
}
