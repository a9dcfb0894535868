use ai_pow_vi::activation_lut::ActivationLut;
use ai_pow_vi::attention::{AttentionScales, AttentionWeights};
use ai_pow_vi::comm_w::compute_comm_w;
use ai_pow_vi::ffn::{FfnScales, FfnWeights};
use ai_pow_vi::layer::{LayerContext, LayerWeights, NormSpec};
use ai_pow_vi::merkle::{merkle_root, MerkleError};
use ai_pow_vi::mining::{
    assemble_vi_proof, check_proof_header, commit_ffn_gate, compare_recomputed, first_hit, gate_tile_leaves,
    mining_fits_exec, spot_check_count, spot_check_plan, tile_grid, tile_hardness_all, verify_openings,
    GateCommitment, ProverError, ProverOptions, VerifierMode, VerifyError, FFN_PUZZLE_TILE,
};
use ai_pow_vi::model::{Model, ModelDims};
use ai_pow_vi::quant::{Scale, SCALE_DENOM_LOG2};
use ai_pow_vi::rmsnorm::DEFAULT_EPS_Q;
use ai_pow_vi::rope::RopeTables;
use ai_pow_vi::softmax::ExpLut;
use ai_pow_vi::tile_hash::{tile_hardness_hash, tile_leaf};
use ai_pow_vi::vi_proof::ViProof;

fn lcg_bytes(len: usize, seed: u64) -> Vec<i8> {
    let mut s = seed;
    (0..len)
        .map(|_| {
            s = s.wrapping_mul(6364136223846793005).wrapping_add(1442695040888963407);
            s.wrapping_shr(56) as i8
        })
        .collect()
}

fn small() -> Scale {
    Scale::from_num(1 << (SCALE_DENOM_LOG2 - 4)).unwrap()
}

fn build_test_model() -> Model {
    let hidden = 4u32;
    let hu = hidden as usize;
    let intermediate = 8u32;
    let iu = intermediate as usize;
    let seq_len = 4u32;
    Model {
        dims: ModelDims { vocab: 16, hidden, seq_len, activation_tile: 2 },
        arch_tag: [0u8; 16],
        feature_flags: 0,
        embed: lcg_bytes(16 * hu, 0xa1a1),
        layers: vec![LayerWeights::Attention {
            norm1: NormSpec::RmsNorm { gamma: lcg_bytes(hu, 0xb2b2), eps_q: DEFAULT_EPS_Q, post_scale: small() },
            attn: AttentionWeights {
                hidden,
                num_q_heads: 1,
                num_kv_heads: 1,
                head_dim: 2,
                w_q: lcg_bytes(hu * 2, 0xc3c3),
                w_k: lcg_bytes(hu * 2, 0xd4d4),
                w_v: lcg_bytes(hu * 2, 0xe5e5),
                w_o: lcg_bytes(2 * hu, 0xf6f6),
            },
            attn_scales: AttentionScales { q: small(), k: small(), v: small(), score: small(), attn_out: small(), o: small() },
            norm2: NormSpec::RmsNorm { gamma: lcg_bytes(hu, 0x0707), eps_q: DEFAULT_EPS_Q, post_scale: small() },
            ffn: FfnWeights {
                hidden,
                intermediate,
                w_gate: lcg_bytes(hu * iu, 0x1818),
                w_up: lcg_bytes(hu * iu, 0x2929),
                w_down: lcg_bytes(iu * hu, 0x3a3a),
            },
            ffn_scales: FfnScales { gate: small(), up: small(), mid: small(), down: small() },
        }],
        final_norm: None,
        rope_tables: RopeTables::identity(seq_len, 1),
        softmax_lut: ExpLut::uniform_test(),
        sigmoid_lut: ActivationLut::identity(),
        ffn_activation: ActivationLut::identity(),
    }
}

fn make_ctx(m: &Model) -> LayerContext<'_> {
    LayerContext {
        rope_tables: &m.rope_tables,
        softmax_lut: &m.softmax_lut,
        sigmoid_lut: &m.sigmoid_lut,
        ffn_activation: &m.ffn_activation,
    }
}

fn opts(sigma: u32, tile: u32) -> ProverOptions {
    ProverOptions { target_layer: 0, sigma, tile }
}

fn commit(m: &Model, tile: u32) -> GateCommitment {
    let ctx = make_ctx(m);
    let id = compute_comm_w(m);
    assert!(mining_fits_exec(m, &ctx));
    commit_ffn_gate(m, &id, &ctx, b"block", opts(2, tile)).unwrap()
}

#[test]
fn default_options_are_the_puzzle_tile() {
    let o = ProverOptions::default();
    assert_eq!(o, ProverOptions { target_layer: 0, sigma: 8, tile: FFN_PUZZLE_TILE });
    assert_eq!(FFN_PUZZLE_TILE, 64);
    assert_eq!(VerifierMode::FullReplica, VerifierMode::FullReplica);
}

#[test]
fn gate_tiles_are_row_major_blocks() {
    // A 4 x 4 matrix with entries 0..16, cut into 2 x 2 tiles.
    let gate: Vec<i32> = (0..16).collect();
    let leaves = gate_tile_leaves(&gate, 4, 4, 2);
    assert_eq!(leaves.len(), 4);
    assert_eq!(leaves[0], tile_leaf(&[0, 1, 4, 5]));
    assert_eq!(leaves[1], tile_leaf(&[2, 3, 6, 7]));
    assert_eq!(leaves[2], tile_leaf(&[8, 9, 12, 13]));
    assert_eq!(leaves[3], tile_leaf(&[10, 11, 14, 15]));
}

#[test]
fn first_hit_is_the_lowest_index() {
    assert_eq!(first_hit(&[false, true, true]), Some(1));
    assert_eq!(first_hit(&[true]), Some(0));
    assert_eq!(first_hit(&[false, false]), None);
    assert_eq!(first_hit(&[]), None);
}

#[test]
fn spot_check_count_is_capped_below_the_tile_count() {
    assert_eq!(spot_check_count(8, 100), 8);
    assert_eq!(spot_check_count(8, 5), 4);
    assert_eq!(spot_check_count(3, 1), 0);
    assert_eq!(spot_check_plan(8, 100), Some(8));
    assert_eq!(spot_check_plan(8, 1), None);
    assert_eq!(spot_check_plan(0, 10), None);
}

#[test]
fn commitment_covers_every_gate_tile() {
    let m = build_test_model();
    let c = commit(&m, 2);
    // seq_len 4, intermediate 8, tile 2: a 2 x 4 grid.
    assert_eq!(c.leaves.len(), 8);
    assert_eq!(c.num_col_tiles, 4);
    assert_eq!(c.comm_activations.len(), 1);
    assert_eq!(c.comm_m, merkle_root(&c.leaves));
}

#[test]
fn commitment_is_deterministic() {
    let m = build_test_model();
    let a = commit(&m, 2);
    let b = commit(&m, 2);
    assert_eq!(a.leaves, b.leaves);
    assert_eq!(a.comm_m, b.comm_m);
    assert_eq!(a.comm_activations, b.comm_activations);
}

#[test]
fn rejects_misaligned_tile() {
    let m = build_test_model();
    let ctx = make_ctx(&m);
    let id = compute_comm_w(&m);
    // Tile 3 divides neither seq_len 4 nor intermediate 8; seq_len is checked first.
    let r = commit_ffn_gate(&m, &id, &ctx, b"b", opts(2, 3));
    assert!(matches!(r, Err(ProverError::SeqLenNotMultipleOfTile { s: 4, t: 3 })));
    // Tile 4 divides seq_len 4 and intermediate 8.
    assert!(commit_ffn_gate(&m, &id, &ctx, b"b", opts(2, 4)).is_ok());
}

#[test]
fn missing_target_block_is_no_ffn() {
    let m = build_test_model();
    let ctx = make_ctx(&m);
    let id = compute_comm_w(&m);
    // Target 1 runs the whole model, then finds no block to tile.
    let r = commit_ffn_gate(&m, &id, &ctx, b"b", ProverOptions { target_layer: 1, sigma: 2, tile: 2 });
    assert!(matches!(r, Err(ProverError::NoFfn)));
    assert!(matches!(tile_grid(&m, ProverOptions { target_layer: 1, sigma: 2, tile: 2 }), Err(VerifyError::Prover(ProverError::NoFfn))));
    assert_eq!(tile_grid(&m, opts(2, 2)).unwrap(), (2, 4));
}

#[test]
fn hardness_follows_the_grid() {
    let m = build_test_model();
    let c = commit(&m, 2);
    let seed = [7u8; 32];
    let h = tile_hardness_all(&c, &seed);
    assert_eq!(h.len(), 8);
    assert_eq!(h[0], tile_hardness_hash(&seed, 0, 0, &c.leaves[0]));
    assert_eq!(h[5], tile_hardness_hash(&seed, 1, 1, &c.leaves[5]));
}

fn honest(c: &GateCommitment, id: &[u8; 32], found: u32, indices: &[u32]) -> ViProof {
    assemble_vi_proof(id, 0, c, found, indices).unwrap()
}

#[test]
fn honest_openings_are_accepted() {
    let m = build_test_model();
    let c = commit(&m, 2);
    let id = compute_comm_w(&m);
    let indices = [3u32, 5, 1, 6];
    let p = honest(&c, &id, 5, &indices);
    assert_eq!((p.found.i, p.found.j), (1, 1));
    // The found tile is dropped from the spot-checks.
    let spots: Vec<(u32, u32)> = p.spot_checks.iter().map(|o| (o.i, o.j)).collect();
    assert_eq!(spots, vec![(0, 3), (0, 1), (1, 2)]);
    assert_eq!(verify_openings(&p, 4, 8, &indices), Ok(()));
}

#[test]
fn out_of_range_spot_index_is_a_merkle_error() {
    let m = build_test_model();
    let c = commit(&m, 2);
    let id = compute_comm_w(&m);
    let r = assemble_vi_proof(&id, 0, &c, 0, &[2, 8]);
    assert!(matches!(r, Err(ProverError::Merkle(MerkleError::IndexOutOfRange))));
}

#[test]
fn tampered_openings_are_rejected() {
    let m = build_test_model();
    let c = commit(&m, 2);
    let id = compute_comm_w(&m);
    let indices = [2u32, 4];
    let p = honest(&c, &id, 0, &indices);

    let mut bad_leaf = p.clone();
    bad_leaf.found.m_ij[0] ^= 1;
    assert_eq!(verify_openings(&bad_leaf, 4, 8, &indices), Err(VerifyError::PathMismatch { i: 0, j: 0 }));

    let mut bad_root = p.clone();
    bad_root.comm_m[3] ^= 1;
    assert_eq!(verify_openings(&bad_root, 4, 8, &indices), Err(VerifyError::PathMismatch { i: 0, j: 0 }));

    // Expected indices that the proof does not carry.
    assert_eq!(verify_openings(&p, 4, 8, &[2, 5]), Err(VerifyError::UnexpectedSpotCheck { idx: 4 }));
    // A different number of spot-checks.
    assert_eq!(verify_openings(&p, 4, 8, &[2]), Err(VerifyError::UnexpectedSpotCheck { idx: 2 }));

    let mut short_path = p.clone();
    short_path.spot_checks[1].path.pop();
    assert_eq!(
        verify_openings(&short_path, 4, 8, &indices),
        Err(VerifyError::Merkle(MerkleError::PathLengthMismatch))
    );
}

#[test]
fn recomputed_proof_comparison() {
    let m = build_test_model();
    let c = commit(&m, 2);
    let id = compute_comm_w(&m);
    let p = honest(&c, &id, 0, &[1]);
    assert_eq!(compare_recomputed(&p, &p.clone()), Ok(()));

    let mut other = p.clone();
    other.comm_activations[0][0] ^= 1;
    assert_eq!(compare_recomputed(&p, &other), Err(VerifyError::ActivationRootMismatch { idx: 0 }));

    let mut longer = p.clone();
    longer.comm_activations.push([0u8; 32]);
    assert_eq!(compare_recomputed(&p, &longer), Err(VerifyError::ActivationCountMismatch { got: 1, want: 2 }));

    let mut other_m = p.clone();
    other_m.comm_m[0] ^= 1;
    assert_eq!(compare_recomputed(&p, &other_m), Err(VerifyError::CommMMismatch));
}

#[test]
fn proof_header_checks() {
    let m = build_test_model();
    let c = commit(&m, 2);
    let id = compute_comm_w(&m);
    let p = honest(&c, &id, 0, &[]);
    assert_eq!(check_proof_header(&m, &p, opts(2, 2)), Ok(id));

    let mut wrong_id = p.clone();
    wrong_id.model_id[0] ^= 1;
    assert_eq!(check_proof_header(&m, &wrong_id, opts(2, 2)), Err(VerifyError::ModelIdMismatch));

    let other_layer = ProverOptions { target_layer: 1, sigma: 2, tile: 2 };
    assert_eq!(check_proof_header(&m, &p, other_layer), Err(VerifyError::LayerIndexMismatch));
}

#[test]
fn verifier_pieces_accept_an_honest_proof() {
    let m = build_test_model();
    let c = commit(&m, 2);
    let id = compute_comm_w(&m);
    let o = opts(3, 2);
    let indices = [6u32, 0, 2];
    let p = honest(&c, &id, 0, &indices);
    let recomputed = honest(&commit(&m, 2), &id, 0, &indices);
    assert_eq!(check_proof_header(&m, &p, o), Ok(id));
    assert_eq!(compare_recomputed(&p, &recomputed), Ok(()));
    let (nr, nc) = tile_grid(&m, o).unwrap();
    let total = nr * nc;
    assert_eq!(spot_check_count(o.sigma, total), 3);
    assert_eq!(verify_openings(&p, nc, total, &indices), Ok(()));
    assert_eq!(p.encode(), recomputed.encode());
}
