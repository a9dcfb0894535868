//! The puzzle's prover and verifier logic. Mining runs the model on the
//! synthetic prompt up to a target block, computes that block's FFN gate
//! product, hashes it tile by tile into a Merkle tree, finds the first tile
//! whose hardness meets the target and opens it together with sampled
//! spot-check tiles. The verifier recomputes the same commitments and checks
//! every opening. The Fiat-Shamir seed, the sampled indices and the target
//! comparison come from the caller.
use vstd::prelude::*;
use crate::activations::{ActivationLayout, ActivationLog, ActivationError};
use crate::ffn::FfnWeights;
use crate::forward::{ForwardError, forward_prefix, forward_spec, recorded_root, model_layout, bad_token};
use crate::layer::{LayerContext, LayerWeights, layer_fits};
use crate::model::{Model, Token};
use crate::prompt::{synth_prompt, prompt_spec};
use crate::hashing::blake3_keyed_hash;
use crate::matmul_int8::{MatmulError, lemma_row_major_index, matmul_int8, matmul_check, matmul_spec};
use crate::merkle::{MerkleError, lemma_merkle_path_recovers_root, merkle_root, merkle_root_spec, views32, merkle_path, merkle_path_spec,
    merkle_recover_root, recover, depth, pow2_from, leaf_node};
use crate::vi_proof::{TileOpening, ViProof};
use crate::activations::bytes32_eq;
use crate::comm_w::{compute_comm_w, comm_w_spec, canonical_bytes_spec};
use crate::prompt::PromptError;
use crate::tile_hash::{tile_leaf, tile_state_spec, state_bytes, tile_hardness_hash};
use crate::hashing::blake3_derive_key;
use crate::bytes::le_bytes;

verus! {

/// Side of the square FFN gate tiles of the puzzle.
pub const FFN_PUZZLE_TILE: u32 = 64;

/// Tunables of one mining attempt: the block whose FFN gate is tiled, the
/// number of spot-checks, and the tile side.
#[derive(Debug, Clone, Copy, PartialEq, Eq, Structural)]
pub struct ProverOptions {
    pub target_layer: u32,
    pub sigma: u32,
    pub tile: u32,
}

impl Default for ProverOptions {
    fn default() -> (r: Self)
        ensures
            r.target_layer == 0 && r.sigma == 8 && r.tile == FFN_PUZZLE_TILE,
    {
        ProverOptions { target_layer: 0, sigma: 8, tile: FFN_PUZZLE_TILE }
    }
}

/// Why a mining attempt failed.
#[derive(Debug, Clone, Copy, PartialEq, Eq)]
pub enum ProverError {
    Forward(ForwardError),
    Matmul(MatmulError),
    Prompt(PromptError),
    NoFfn,
    IntermediateNotMultipleOfTile { i: u32, t: u32 },
    SeqLenNotMultipleOfTile { s: u32, t: u32 },
    Merkle(MerkleError),
}

/// How a proof is checked.
#[derive(Debug, Clone, Copy, PartialEq, Eq, Structural)]
pub enum VerifierMode {
    /// Re-run the prover end to end and check every commitment.
    FullReplica,
}

/// Why a proof was rejected.
#[derive(Debug, Clone, Copy, PartialEq, Eq)]
pub enum VerifyError {
    ModelIdMismatch,
    LayerIndexMismatch,
    ActivationCountMismatch { got: u32, want: u32 },
    ActivationRootMismatch { idx: u32 },
    CommMMismatch,
    HardnessFailure,
    PathMismatch { i: u32, j: u32 },
    UnexpectedSpotCheck { idx: u32 },
    MissingSpotCheck { i: u32, j: u32 },
    Prover(ProverError),
    Merkle(MerkleError),
}

// ----- tiles of the FFN gate-projection matrix -----

/// Tile `(r, c)` of a row-major matrix with `cols` columns cut into
/// `t x t` tiles, row-major within the tile.
pub open spec fn gate_tile(gate: Seq<i32>, cols: int, t: int, r: int, c: int) -> Seq<i32> {
    Seq::new((t * t) as nat, |q: int| gate[(r * t + q / t) * cols + c * t + q % t])
}

/// Merkle leaf of a tile: the keyed hash of its fold state under the
/// all-zero key.
pub open spec fn leaf_of(block: Seq<i32>) -> Seq<u8> {
    blake3_keyed_hash(Seq::new(32, |i: int| 0u8), state_bytes(tile_state_spec(block)))
}

/// Leaves of all tiles of a `rows x cols` matrix, row-major over tiles.
pub open spec fn gate_leaves(gate: Seq<i32>, rows: int, cols: int, t: int) -> Seq<Seq<u8>> {
    let nc = cols / t;
    Seq::new(((rows / t) * nc) as nat, |idx: int| leaf_of(gate_tile(gate, cols, t, idx / nc, idx % nc)))
}

proof fn lemma_tile_index(r: int, c: int, tr: int, tc: int, t: int, rows: int, cols: int)
    requires
        t > 0,
        rows % t == 0,
        cols % t == 0,
        0 <= r < rows / t,
        0 <= c < cols / t,
        0 <= tr < t,
        0 <= tc < t,
    ensures
        0 <= (r * t + tr) * cols + c * t + tc < rows * cols,
        0 <= r * t + tr < rows,
        0 <= c * t + tc < cols,
{
    vstd::arithmetic::div_mod::lemma_fundamental_div_mod(rows, t);
    vstd::arithmetic::div_mod::lemma_fundamental_div_mod(cols, t);
    assert(r * t + tr < rows) by (nonlinear_arith)
        requires r < rows / t, tr < t, rows == t * (rows / t) + rows % t, rows % t == 0, t > 0, r >= 0;
    assert(c * t + tc < cols) by (nonlinear_arith)
        requires c < cols / t, tc < t, cols == t * (cols / t) + cols % t, cols % t == 0, t > 0, c >= 0;
    assert(0 <= r * t + tr) by (nonlinear_arith)
        requires r >= 0, t > 0, tr >= 0;
    assert(0 <= c * t + tc) by (nonlinear_arith)
        requires c >= 0, t > 0, tc >= 0;
    lemma_row_major_index(r * t + tr, c * t + tc, cols, rows);
}

fn gate_tile_exec(gate: &[i32], rows: usize, cols: usize, t: usize, r: usize, c: usize) -> (block: Vec<i32>)
    requires
        t > 0,
        rows % t == 0,
        cols % t == 0,
        r < rows / t,
        c < cols / t,
        gate@.len() == rows * cols,
    ensures
        block@ == gate_tile(gate@, cols as int, t as int, r as int, c as int),
{
    let glen = gate.len();
    let mut block: Vec<i32> = Vec::new();
    let mut tr: usize = 0;
    while tr < t
        invariant
            t > 0,
            rows % t == 0,
            cols % t == 0,
            r < rows / t,
            c < cols / t,
            gate@.len() == rows * cols,
            rows * cols <= usize::MAX,
            tr <= t,
            block@.len() == tr * t,
            forall|q: int| 0 <= q < block@.len() ==>
                #[trigger] block@[q] == gate@[(r * t + q / (t as int)) * cols + c * t + q % (t as int)],
        decreases t - tr,
    {
        let mut tc: usize = 0;
        while tc < t
            invariant
                t > 0,
                rows % t == 0,
                cols % t == 0,
                r < rows / t,
                c < cols / t,
                gate@.len() == rows * cols,
                rows * cols <= usize::MAX,
                tr < t,
                tc <= t,
                block@.len() == tr * t + tc,
                forall|q: int| 0 <= q < block@.len() ==>
                    #[trigger] block@[q] == gate@[(r * t + q / (t as int)) * cols + c * t + q % (t as int)],
            decreases t - tc,
        {
            proof {
                lemma_tile_index(r as int, c as int, tr as int, tc as int, t as int, rows as int, cols as int);
                lemma_row_major_index(tr as int, tc as int, t as int, t as int);
            }
            let row = r * t + tr;
            let col = c * t + tc;
            proof {
                assert(row * cols + col < rows * cols);
                assert(row * cols <= row * cols + col);
            }
            let k = row * cols + col;
            let ghost q = block@.len() as int;
            block.push(gate[k]);
            tc = tc + 1;
        }
        proof {
            assert((tr + 1) * t == tr * t + t) by (nonlinear_arith);
        }
        tr = tr + 1;
    }
    proof {
        assert(tr * t == t * t);
        assert(block@ =~= gate_tile(gate@, cols as int, t as int, r as int, c as int));
    }
    block
}

/// Leaves of every `tile x tile` tile of a row-major `rows x cols` gate
/// product, tiles in row-major order.
pub fn gate_tile_leaves(gate: &[i32], rows: u32, cols: u32, tile: u32) -> (r: Vec<[u8; 32]>)
    requires
        tile > 0,
        rows % tile == 0,
        cols % tile == 0,
        gate@.len() == rows * cols,
    ensures
        crate::merkle::views32(r@) == gate_leaves(gate@, rows as int, cols as int, tile as int),
{
    let t = tile as usize;
    let ru = rows as usize;
    let cu = cols as usize;
    let nr = ru / t;
    let nc = cu / t;
    let mut leaves: Vec<[u8; 32]> = Vec::new();
    let mut r: usize = 0;
    while r < nr
        invariant
            t == tile, ru == rows, cu == cols, nr == ru / t, nc == cu / t,
            t > 0, ru % t == 0, cu % t == 0,
            gate@.len() == ru * cu,
            r <= nr,
            leaves@.len() == r * nc,
            forall|idx: int| 0 <= idx < leaves@.len() ==>
                (#[trigger] leaves@[idx])@ == leaf_of(gate_tile(gate@, cu as int, t as int, idx / (nc as int), idx % (nc as int))),
        decreases nr - r,
    {
        let mut c: usize = 0;
        while c < nc
            invariant
                t == tile, ru == rows, cu == cols, nr == ru / t, nc == cu / t,
                t > 0, ru % t == 0, cu % t == 0,
                gate@.len() == ru * cu,
                r < nr,
                c <= nc,
                leaves@.len() == r * nc + c,
                forall|idx: int| 0 <= idx < leaves@.len() ==>
                    (#[trigger] leaves@[idx])@ == leaf_of(gate_tile(gate@, cu as int, t as int, idx / (nc as int), idx % (nc as int))),
            decreases nc - c,
        {
            proof {
                lemma_row_major_index(r as int, c as int, nc as int, nr as int);
            }
            let block = gate_tile_exec(gate, ru, cu, t, r, c);
            let leaf = tile_leaf(block.as_slice());
            leaves.push(leaf);
            c = c + 1;
        }
        proof {
            assert((r + 1) * nc == r * nc + nc) by (nonlinear_arith);
        }
        r = r + 1;
    }
    proof {
        let g = gate_leaves(gate@, rows as int, cols as int, tile as int);
        assert(crate::merkle::views32(leaves@) =~= g);
    }
    leaves
}

// ----- the search and the spot-check plan -----

/// Index of the first `true`, if any.
pub fn first_hit(hits: &[bool]) -> (r: Option<u32>)
    requires
        hits@.len() <= u32::MAX,
    ensures
        match r {
            Some(i) => i < hits@.len() && hits@[i as int] && forall|j: int| 0 <= j < i ==> !hits@[j],
            None => forall|j: int| 0 <= j < hits@.len() ==> !hits@[j],
        },
{
    let mut i: usize = 0;
    while i < hits.len()
        invariant
            hits@.len() <= u32::MAX,
            i <= hits@.len(),
            forall|j: int| 0 <= j < i ==> !hits@[j],
        decreases hits@.len() - i,
    {
        if hits[i] {
            return Some(i as u32);
        }
        i = i + 1;
    }
    None
}

/// Number of spot-checks for `total` tiles: `sigma`, but at most
/// `total - 1`.
pub fn spot_check_count(sigma: u32, total: u32) -> (r: u32)
    requires
        total >= 1,
    ensures
        r == (if sigma < total - 1 { sigma } else { (total - 1) as u32 }),
{
    if sigma < total - 1 { sigma } else { total - 1 }
}

/// How many spot-check indices the prover samples, if it samples any:
/// only with more than one tile and a positive count.
pub fn spot_check_plan(sigma: u32, total: u32) -> (r: Option<u32>)
    requires
        total >= 1,
    ensures
        r == (if total > 1 && (if sigma < total - 1 { sigma } else { (total - 1) as u32 }) > 0 {
            Some(if sigma < total - 1 { sigma } else { (total - 1) as u32 })
        } else {
            None::<u32>
        }),
{
    let want = spot_check_count(sigma, total);
    if total > 1 && want > 0 { Some(want) } else { None }
}

// ----- the commitment to the FFN gate-projection matrix -----

/// The FFN of a block.
pub open spec fn layer_ffn(lw: LayerWeights) -> FfnWeights {
    match lw {
        LayerWeights::Attention { ffn, .. } => ffn,
        LayerWeights::DeltaNet { ffn, .. } => ffn,
        LayerWeights::QwenStandard { ffn, .. } => ffn,
        LayerWeights::QwenHybridSsm { ffn, .. } => ffn,
        LayerWeights::Gemma { ffn, .. } => ffn,
    }
}

fn layer_ffn_exec(lw: &LayerWeights) -> (r: &FfnWeights)
    ensures
        *r == layer_ffn(*lw),
{
    match lw {
        LayerWeights::Attention { ffn, .. } => ffn,
        LayerWeights::DeltaNet { ffn, .. } => ffn,
        LayerWeights::QwenStandard { ffn, .. } => ffn,
        LayerWeights::QwenHybridSsm { ffn, .. } => ffn,
        LayerWeights::Gemma { ffn, .. } => ffn,
    }
}

/// What tiling the FFN gate-projection matrix of `x` (`m` rows) against `ffn` gives: the
/// tile checks, the matrix multiplication's checks, then the leaves of its tiles and the
/// number of tile columns.
pub open spec fn gate_outcome(x: Seq<i8>, ffn: FfnWeights, m: u32, t: u32) -> Result<(Seq<Seq<u8>>, u32), ProverError> {
    let i = ffn.intermediate;
    let h = ffn.hidden;
    if m % t != 0 {
        Err(ProverError::SeqLenNotMultipleOfTile { s: m, t })
    } else if i % t != 0 {
        Err(ProverError::IntermediateNotMultipleOfTile { i, t })
    } else {
        match matmul_check(x.len() as int, ffn.w_gate@.len() as int, m * i, m as int, h as int, i as int) {
            Err(e) => Err(ProverError::Matmul(e)),
            Ok(_) => Ok((gate_leaves(matmul_spec(x, ffn.w_gate@, m as int, h as int, i as int), m as int, i as int, t as int),
                (i / t) as u32)),
        }
    }
}

/// Tile the FFN gate-projection matrix of the block input `x` (`m` rows) with `ffn` and
/// commit to it: the tile leaves, their Merkle root, the number of tile
/// columns.
pub fn commit_gate(x: &[i8], ffn: &FfnWeights, m: u32, tile: u32) -> (r: Result<(Vec<[u8; 32]>, [u8; 32], u32), ProverError>)
    requires
        tile > 0,
        2 * (m * ffn.intermediate) <= usize::MAX,
    ensures
        match gate_outcome(x@, *ffn, m, tile) {
            Err(e) => r == Err::<(Vec<[u8; 32]>, [u8; 32], u32), ProverError>(e),
            Ok((ls, nc)) => r matches Ok((leaves, root, n)) && views32(leaves@) == ls && ls.len() >= 1
                && root@ == merkle_root_spec(ls) && n == nc,
        },
{
    if m % tile != 0 {
        return Err(ProverError::SeqLenNotMultipleOfTile { s: m, t: tile });
    }
    let intermediate = ffn.intermediate;
    if intermediate % tile != 0 {
        return Err(ProverError::IntermediateNotMultipleOfTile { i: intermediate, t: tile });
    }
    let len = (m as usize) * (intermediate as usize);
    let mut gate: Vec<i32> = vec![0i32; len];
    match matmul_int8(x, ffn.w_gate.as_slice(), m, ffn.hidden, intermediate, gate.as_mut_slice()) {
        Err(e) => {
            return Err(ProverError::Matmul(e));
        },
        Ok(()) => {},
    }
    let leaves = gate_tile_leaves(gate.as_slice(), m, intermediate, tile);
    proof {
        vstd::arithmetic::div_mod::lemma_fundamental_div_mod(m as int, tile as int);
        vstd::arithmetic::div_mod::lemma_fundamental_div_mod(intermediate as int, tile as int);
        assert((m / tile) >= 1 && (intermediate / tile) >= 1) by (nonlinear_arith)
            requires m > 0, intermediate > 0, tile > 0, m % tile == 0, intermediate % tile == 0,
                m == tile * (m / tile) + m % tile, intermediate == tile * (intermediate / tile) + intermediate % tile;
        assert((m / tile) * (intermediate / tile) >= 1) by (nonlinear_arith)
            requires (m / tile) >= 1, (intermediate / tile) >= 1;
        assert((m / tile) * (intermediate / tile) <= m * intermediate) by (nonlinear_arith)
            requires tile >= 1, (m / tile) * tile <= m, (intermediate / tile) * tile <= intermediate,
                (m / tile) >= 0, (intermediate / tile) >= 0;
    }
    proof {
        let ls = gate_leaves(gate@, m as int, intermediate as int, tile as int);
        assert(views32(leaves@).len() == leaves@.len());
        assert(ls.len() == ((m as int / tile as int) * (intermediate as int / tile as int)) as nat);
        assert(leaves@.len() >= 1);
        assert(2 * leaves@.len() <= usize::MAX);
    }
    let root = merkle_root(leaves.as_slice());
    Ok((leaves, root, intermediate / tile))
}

fn copy_roots(v: &Vec<[u8; 32]>) -> (r: Vec<[u8; 32]>)
    ensures
        r@ == v@,
{
    let mut r: Vec<[u8; 32]> = Vec::new();
    let mut i: usize = 0;
    while i < v.len()
        invariant
            i <= v@.len(),
            r@ == v@.subrange(0, i as int),
        decreases v@.len() - i,
    {
        r.push(v[i]);
        i = i + 1;
    }
    proof {
        assert(v@.subrange(0, v@.len() as int) =~= v@);
    }
    r
}

/// The checks `forward_prefix` makes before any block runs, for a fresh
/// log laid out for the model.
pub open spec fn prefix_check(model: Model, prompt: Seq<Token>, target: u32) -> Result<(), ForwardError> {
    let m = prompt.len() as u32;
    if model.validate_spec() is Err {
        Err(ForwardError::Model(model.validate_spec()->Err_0))
    } else if prompt.len() == 0 {
        Err(ForwardError::EmptyPrompt)
    } else if m > model.dims.seq_len {
        Err(ForwardError::PromptTooLong { got: m, max: model.dims.seq_len })
    } else if target > model.layers@.len() as u32 {
        Err(ForwardError::TargetLayerTooLarge { got: target, max: model.layers@.len() as u32 })
    } else if bad_token(prompt, model.dims.vocab, prompt.len() as int) is Some {
        Err(ForwardError::TokenOutOfRange(bad_token(prompt, model.dims.vocab, prompt.len() as int)->0))
    } else {
        Ok(())
    }
}

/// What mining commits to before any challenge: the leaves of the target
/// block's FFN gate tiles, their Merkle root `comm_M`, the number of tile
/// columns, and the activation roots of every block input up to the target.
pub struct GateCommitment {
    pub leaves: Vec<[u8; 32]>,
    pub comm_m: [u8; 32],
    pub num_col_tiles: u32,
    pub comm_activations: Vec<[u8; 32]>,
}

/// The machine limits mining needs: block count and sizes within the forward
/// pass's limits, every block fit for a run over `seq_len` tokens, and every
/// gate matrix small enough to hold with its Merkle tree.
pub open spec fn mining_fits(model: Model, ctx: LayerContext) -> bool {
    &&& model.layers@.len() <= u32::MAX
    &&& model.dims.hidden < 0x8000_0000
    &&& 2 * (model.dims.seq_len * model.dims.hidden) <= usize::MAX
    &&& forall|i: int| 0 <= i < model.layers@.len() ==> layer_fits(#[trigger] model.layers@[i], ctx, model.dims.seq_len as int)
    &&& forall|i: int| 0 <= i < model.layers@.len() ==>
        2 * (model.dims.seq_len * layer_ffn(#[trigger] model.layers@[i]).intermediate) <= usize::MAX
}

fn prod2_le(a: u32, b: u32, bound: u128) -> (r: bool)
    ensures
        r == (a * b <= bound),
{
    let p = crate::matmul_int8::mul_u32(a, b);
    (p as u128) <= bound
}

fn prod3_le(a: u32, b: u32, c: u32, bound: u128) -> (r: bool)
    ensures
        r == (a * b * c <= bound),
{
    let p = crate::matmul_int8::mul_u32(a, b) as u128;
    assert(p * c <= 0xffff_ffff_ffff_ffff * 0xffff_ffff) by (nonlinear_arith)
        requires p <= 0xffff_ffff_ffff_ffff, c <= 0xffff_ffff;
    p * (c as u128) <= bound
}

/// Whether a block is within the machine limits of a run over `m` tokens
/// (`layer_fits`).
pub fn layer_fits_exec(layer: &LayerWeights, ctx: &LayerContext, m: u32) -> (r: bool)
    ensures
        r == layer_fits(*layer, *ctx, m as int),
{
    if ctx.rope_tables.validate().is_err() {
        return false;
    }
    let u = u32::MAX as u128;
    let z = usize::MAX as u128;
    match layer {
        LayerWeights::Attention { attn, ffn, .. } =>
            attn.hidden < 0x8000_0000 && prod2_le(attn.num_q_heads, attn.head_dim, u)
                && prod3_le(m, attn.num_q_heads, attn.head_dim, z) && prod2_le(m, ffn.intermediate, z),
        LayerWeights::DeltaNet { dnet, ffn, .. } =>
            dnet.hidden < 0x8000_0000 && prod2_le(dnet.num_qk_heads, dnet.head_dim_qk, u)
                && prod2_le(dnet.num_v_heads, dnet.head_dim_v, u)
                && prod3_le(m, dnet.num_qk_heads, dnet.head_dim_qk, z) && prod3_le(m, dnet.num_v_heads, dnet.head_dim_v, z)
                && prod2_le(dnet.head_dim_qk, dnet.head_dim_v, z) && prod2_le(m, ffn.intermediate, z),
        LayerWeights::QwenStandard { attn, ffn, .. } =>
            attn.hidden < 0x8000_0000 && prod2_le(attn.num_q_heads, attn.head_dim, u)
                && prod3_le(m, attn.num_q_heads, attn.head_dim, z) && attn.head_dim < 0x8000_0000
                && prod2_le(m, ffn.intermediate, z),
        LayerWeights::Gemma { attn, ffn, .. } =>
            attn.hidden < 0x8000_0000 && prod2_le(attn.num_q_heads, attn.head_dim, u)
                && prod3_le(m, attn.num_q_heads, attn.head_dim, z) && attn.head_dim < 0x8000_0000
                && prod2_le(m, ffn.intermediate, z),
        LayerWeights::QwenHybridSsm { num_q_heads, head_dim, num_v_heads, ssm_head_dim, ffn, .. } =>
            ffn.hidden < 0x8000_0000 && prod2_le(*num_q_heads, *head_dim, u)
                && prod3_le(m, *num_q_heads, *head_dim, z) && *head_dim < 0x8000_0000
                && prod2_le(*num_v_heads, *ssm_head_dim, u) && prod3_le(m, *num_v_heads, *ssm_head_dim, z)
                && *ssm_head_dim < 0x8000_0000 && prod2_le(m, ffn.intermediate, z),
    }
}

/// Whether a model is within the machine limits mining needs
/// (`mining_fits`).
pub fn mining_fits_exec(model: &Model, ctx: &LayerContext) -> (r: bool)
    ensures
        r == mining_fits(*model, *ctx),
{
    let n = model.layers.len();
    if n as u64 > u32::MAX as u64 || model.dims.hidden >= 0x8000_0000 {
        return false;
    }
    let s = model.dims.seq_len;
    let z = usize::MAX as u128;
    if !prod3_le(2, s, model.dims.hidden, z) {
        proof {
            assert(2 * s * model.dims.hidden == 2 * (s * model.dims.hidden)) by (nonlinear_arith);
        }
        return false;
    }
    proof {
        assert(2 * s * model.dims.hidden == 2 * (s * model.dims.hidden)) by (nonlinear_arith);
    }
    let mut i: usize = 0;
    while i < n
        invariant
            n == model.layers@.len(),
            s == model.dims.seq_len,
            z == usize::MAX,
            i <= n,
            model.layers@.len() <= u32::MAX,
            model.dims.hidden < 0x8000_0000,
            2 * (model.dims.seq_len * model.dims.hidden) <= usize::MAX,
            forall|k: int| 0 <= k < i ==> layer_fits(#[trigger] model.layers@[k], *ctx, s as int),
            forall|k: int| 0 <= k < i ==> 2 * (s * layer_ffn(#[trigger] model.layers@[k]).intermediate) <= usize::MAX,
        decreases n - i,
    {
        let layer = &model.layers[i];
        if !layer_fits_exec(layer, ctx, s) {
            return false;
        }
        let ffn = layer_ffn_exec(layer);
        proof {
            assert(2 * s * ffn.intermediate == 2 * (s * ffn.intermediate)) by (nonlinear_arith);
        }
        if !prod3_le(2, s, ffn.intermediate, z) {
            return false;
        }
        i = i + 1;
    }
    true
}

/// What `commit_ffn_gate` returns once the prompt and the log exist: the
/// forward pass's checks and result, then the commitment to the FFN gate projection of the target
/// block (`NoFfn` where there is no block at the target index).
pub open spec fn commit_outcome_ok(c: GateCommitment, model: Model, p: Seq<Token>, ctx: LayerContext, target: u32,
    ls: Seq<Seq<u8>>, nc: u32) -> bool {
    &&& views32(c.leaves@) == ls
    &&& c.comm_m@ == merkle_root_spec(ls)
    &&& c.num_col_tiles == nc
    &&& c.comm_activations@.len() == target + 1
    &&& forall|k: int| 0 <= k <= target ==> (#[trigger] c.comm_activations@[k])@ == recorded_root(model, p, ctx, k)
}

/// Steps one to three of mining: synthesize the prompt for
/// `block_commitment` and `model_id`, run the model up to the target block
/// recording every block input, and commit to the target block's FFN gate
/// product tile by tile.
pub fn commit_ffn_gate(
    model: &Model,
    model_id: &[u8; 32],
    ctx: &LayerContext,
    block_commitment: &[u8],
    opts: ProverOptions,
) -> (r: Result<GateCommitment, ProverError>)
    requires
        opts.tile > 0,
        mining_fits(*model, *ctx),
    ensures
        match prompt_spec(block_commitment@ + model_id@, model.dims.seq_len, model.dims.vocab, Seq::<Token>::empty()) {
            Err(e) => r == Err::<GateCommitment, ProverError>(ProverError::Prompt(e)),
            Ok(p) => if model_layout(*model).check() is Err {
                r == Err::<GateCommitment, ProverError>(ProverError::Forward(ForwardError::Activation(model_layout(*model).check()->Err_0)))
            } else if prefix_check(*model, p, opts.target_layer) is Err {
                r == Err::<GateCommitment, ProverError>(ProverError::Forward(prefix_check(*model, p, opts.target_layer)->Err_0))
            } else {
                match forward_spec(*model, p, opts.target_layer, *ctx) {
                    Err(e) => r == Err::<GateCommitment, ProverError>(ProverError::Forward(e)),
                    Ok(y) => if opts.target_layer >= model.layers@.len() {
                        r == Err::<GateCommitment, ProverError>(ProverError::NoFfn)
                    } else {
                        match gate_outcome(y, layer_ffn(model.layers@[opts.target_layer as int]), model.dims.seq_len, opts.tile) {
                            Err(e) => r == Err::<GateCommitment, ProverError>(e),
                            Ok((ls, nc)) => r matches Ok(c) && commit_outcome_ok(c, *model, p, *ctx, opts.target_layer, ls, nc),
                        }
                    },
                }
            },
        },
{
    let empty: Vec<Token> = Vec::new();
    let prompt = match synth_prompt(block_commitment, model_id, model.dims.seq_len, model.dims.vocab, empty.as_slice()) {
        Ok(p) => p,
        Err(e) => {
            return Err(ProverError::Prompt(e));
        },
    };
    proof {
        assert(empty@ =~= Seq::<Token>::empty());
    }
    let layout = ActivationLayout {
        seq_len: model.dims.seq_len,
        hidden: model.dims.hidden,
        tile: model.dims.activation_tile,
    };
    let mut log = match ActivationLog::new(layout) {
        Ok(l) => l,
        Err(e) => {
            return Err(ProverError::Forward(ForwardError::Activation(e)));
        },
    };
    let layer_input = match forward_prefix(model, prompt.as_slice(), opts.target_layer, ctx, &mut log) {
        Ok(x) => x,
        Err(e) => {
            return Err(ProverError::Forward(e));
        },
    };
    if opts.target_layer as usize >= model.layers.len() {
        return Err(ProverError::NoFfn);
    }
    let ffn = layer_ffn_exec(&model.layers[opts.target_layer as usize]);
    let m = prompt.len() as u32;
    let (leaves, comm_m, nc) = match commit_gate(layer_input.as_slice(), ffn, m, opts.tile) {
        Ok(v) => v,
        Err(e) => {
            return Err(e);
        },
    };
    let comm_activations = copy_roots(&log.layer_roots);
    Ok(GateCommitment { leaves, comm_m, num_col_tiles: nc, comm_activations })
}

/// Hardness value of tile `(i, j)` with leaf `m_ij` under `seed`.
pub open spec fn hardness_of(seed: Seq<u8>, i: u32, j: u32, m_ij: Seq<u8>) -> Seq<u8> {
    blake3_derive_key("ai-pow-vi tile-hardness"@, seed + le_bytes(i as nat, 4) + le_bytes(j as nat, 4) + m_ij)
}

/// Step five of mining, up to the target comparison: the hardness value of
/// every tile, in the canonical (row-major) order in which the first tile
/// meeting the target is the hit.
pub fn tile_hardness_all(c: &GateCommitment, seed: &[u8; 32]) -> (r: Vec<[u8; 32]>)
    requires
        c.num_col_tiles > 0,
    ensures
        r@.len() == c.leaves@.len(),
        forall|idx: int| 0 <= idx < r@.len() ==> (#[trigger] r@[idx])@ == hardness_of(seed@,
            (idx / c.num_col_tiles as int) as u32, (idx % c.num_col_tiles as int) as u32, c.leaves@[idx]@),
{
    let nc = c.num_col_tiles as usize;
    let mut out: Vec<[u8; 32]> = Vec::new();
    let mut idx: usize = 0;
    while idx < c.leaves.len()
        invariant
            nc == c.num_col_tiles,
            nc > 0,
            idx <= c.leaves@.len(),
            out@.len() == idx,
            forall|q: int| 0 <= q < idx ==> (#[trigger] out@[q])@ == hardness_of(seed@,
                (q / c.num_col_tiles as int) as u32, (q % c.num_col_tiles as int) as u32, c.leaves@[q]@),
        decreases c.leaves@.len() - idx,
    {
        let r = (idx / nc) as u32;
        let col = (idx % nc) as u32;
        let h = tile_hardness_hash(seed, r, col, &c.leaves[idx]);
        out.push(h);
        idx = idx + 1;
    }
    out
}

// ----- the proof -----

/// The sampled indices other than `found`, in order (the first `n`).
pub open spec fn spot_indices(indices: Seq<u32>, found: u32, n: int) -> Seq<u32>
    decreases n,
{
    if n <= 0 {
        Seq::<u32>::empty()
    } else if indices[n - 1] == found {
        spot_indices(indices, found, n - 1)
    } else {
        spot_indices(indices, found, n - 1).push(indices[n - 1])
    }
}

/// `o` opens tile `idx` of the leaves with `nc` tile columns: its
/// coordinates, its leaf and its authentication path.
pub open spec fn opens(o: TileOpening, leaves: Seq<[u8; 32]>, nc: u32, idx: u32) -> bool {
    &&& o.i == idx / nc && o.j == idx % nc
    &&& o.m_ij == leaves[idx as int]
    &&& views32(o.path@) == merkle_path_spec(views32(leaves), idx as int)
}

fn open_tile(leaves: &Vec<[u8; 32]>, nc: u32, idx: u32) -> (r: Result<TileOpening, MerkleError>)
    requires
        nc > 0,
        2 * leaves@.len() <= usize::MAX,
    ensures
        idx < leaves@.len() ==> (r matches Ok(o) && opens(o, leaves@, nc, idx)),
        idx >= leaves@.len() && leaves@.len() > 0 ==> r == Err::<TileOpening, MerkleError>(MerkleError::IndexOutOfRange),
{
    let path = match merkle_path(leaves.as_slice(), idx as usize) {
        Ok(p) => p,
        Err(e) => {
            return Err(e);
        },
    };
    Ok(TileOpening { i: idx / nc, j: idx % nc, m_ij: leaves[idx as usize], path })
}

/// Steps five to seven of mining, once the found tile and the sampled
/// spot-check indices are known: open the found tile, open every sampled
/// tile other than it, in order, and bundle the proof.
pub fn assemble_vi_proof(
    model_id: &[u8; 32],
    layer_index: u32,
    c: &GateCommitment,
    found_idx: u32,
    indices: &[u32],
) -> (r: Result<ViProof, ProverError>)
    requires
        c.num_col_tiles > 0,
        found_idx < c.leaves@.len(),
        2 * c.leaves@.len() <= usize::MAX,
    ensures
        ({
            let spots = spot_indices(indices@, found_idx, indices@.len() as int);
            if forall|k: int| 0 <= k < spots.len() ==> (#[trigger] spots[k]) < c.leaves@.len() {
                r matches Ok(p) && p.model_id == *model_id && p.layer_index == layer_index
                    && p.comm_activations@ == c.comm_activations@ && p.comm_m == c.comm_m
                    && opens(p.found, c.leaves@, c.num_col_tiles, found_idx)
                    && p.spot_checks@.len() == spots.len()
                    && forall|k: int| 0 <= k < spots.len() ==> opens(#[trigger] p.spot_checks@[k], c.leaves@, c.num_col_tiles, spots[k])
            } else {
                r == Err::<ViProof, ProverError>(ProverError::Merkle(MerkleError::IndexOutOfRange))
            }
        }),
{
    let nc = c.num_col_tiles;
    let found = match open_tile(&c.leaves, nc, found_idx) {
        Ok(o) => o,
        Err(e) => {
            return Err(ProverError::Merkle(e));
        },
    };
    let ghost spots_all = spot_indices(indices@, found_idx, indices@.len() as int);
    let mut spot_checks: Vec<TileOpening> = Vec::new();
    let mut k: usize = 0;
    while k < indices.len()
        invariant
            nc == c.num_col_tiles,
            nc > 0,
            2 * c.leaves@.len() <= usize::MAX,
            found_idx < c.leaves@.len(),
            k <= indices@.len(),
            spots_all == spot_indices(indices@, found_idx, indices@.len() as int),
            spot_checks@.len() == spot_indices(indices@, found_idx, k as int).len(),
            forall|q: int| 0 <= q < spot_checks@.len() ==>
                opens(#[trigger] spot_checks@[q], c.leaves@, nc, spot_indices(indices@, found_idx, k as int)[q]),
            forall|q: int| 0 <= q < spot_indices(indices@, found_idx, k as int).len() ==>
                #[trigger] spot_indices(indices@, found_idx, k as int)[q] < c.leaves@.len(),
        decreases indices@.len() - k,
    {
        let idx = indices[k];
        proof {
            assert(indices@[k as int] == idx);
            if idx == found_idx {
                assert(spot_indices(indices@, found_idx, k as int + 1) == spot_indices(indices@, found_idx, k as int));
            } else {
                assert(spot_indices(indices@, found_idx, k as int + 1)
                    == spot_indices(indices@, found_idx, k as int).push(idx));
            }
        }
        if idx != found_idx {
            match open_tile(&c.leaves, nc, idx) {
                Ok(o) => {
                    spot_checks.push(o);
                },
                Err(e) => {
                    proof {
                        lemma_spot_prefix(indices@, found_idx, k as int + 1, indices@.len() as int);
                        let s1 = spot_indices(indices@, found_idx, k as int + 1);
                        assert(s1[s1.len() - 1] == idx);
                        assert(spots_all[s1.len() - 1] == idx);
                    }
                    return Err(ProverError::Merkle(e));
                },
            }
        }
        k = k + 1;
    }
    proof {
        assert(spots_all == spot_indices(indices@, found_idx, k as int));
    }
    let model_id_copy: [u8; 32] = *model_id;
    let comm_activations = copy_roots(&c.comm_activations);
    Ok(ViProof {
        model_id: model_id_copy,
        layer_index,
        comm_activations,
        comm_m: c.comm_m,
        found,
        spot_checks,
    })
}

proof fn lemma_spot_prefix(indices: Seq<u32>, found: u32, a: int, b: int)
    requires
        0 <= a <= b <= indices.len(),
    ensures
        spot_indices(indices, found, a).len() <= spot_indices(indices, found, b).len(),
        forall|q: int| 0 <= q < spot_indices(indices, found, a).len() ==>
            #[trigger] spot_indices(indices, found, b)[q] == spot_indices(indices, found, a)[q],
    decreases b - a,
{
    if a < b {
        lemma_spot_prefix(indices, found, a, b - 1);
    }
}

// ----- verification -----

/// The first two checks of verification: the proof names the model's
/// `comm_W` and the target block. Returns the model's `comm_W`.
pub fn check_proof_header(model: &Model, proof: &ViProof, opts: ProverOptions) -> (r: Result<[u8; 32], VerifyError>)
    requires
        canonical_bytes_spec(*model).len() + 128 <= usize::MAX,
    ensures
        proof.model_id@ != comm_w_spec(*model) ==> r == Err::<[u8; 32], VerifyError>(VerifyError::ModelIdMismatch),
        proof.model_id@ == comm_w_spec(*model) && proof.layer_index != opts.target_layer
            ==> r == Err::<[u8; 32], VerifyError>(VerifyError::LayerIndexMismatch),
        proof.model_id@ == comm_w_spec(*model) && proof.layer_index == opts.target_layer
            ==> (r matches Ok(id) && id@ == comm_w_spec(*model)),
{
    let computed = compute_comm_w(model);
    if !bytes32_eq(&proof.model_id, &computed) {
        return Err(VerifyError::ModelIdMismatch);
    }
    if proof.layer_index != opts.target_layer {
        return Err(VerifyError::LayerIndexMismatch);
    }
    Ok(computed)
}

/// The first index below `n` at which two root lists differ.
pub open spec fn first_root_diff(a: Seq<[u8; 32]>, b: Seq<[u8; 32]>, n: int) -> Option<int>
    decreases n,
{
    if n <= 0 {
        None
    } else {
        match first_root_diff(a, b, n - 1) {
            Some(i) => Some(i),
            None => if a[n - 1]@ != b[n - 1]@ { Some(n - 1) } else { None },
        }
    }
}

proof fn lemma_first_diff_stable(a: Seq<[u8; 32]>, b: Seq<[u8; 32]>, j: int, n: int)
    requires
        j <= n,
        first_root_diff(a, b, j) is Some,
    ensures
        first_root_diff(a, b, n) == first_root_diff(a, b, j),
    decreases n - j,
{
    if j < n {
        lemma_first_diff_stable(a, b, j, n - 1);
    }
}

/// How a proof compares with the proof recomputed from the same inputs:
/// the activation root count, then each root, then `comm_M`.
pub open spec fn replica_outcome(proof: ViProof, rec: ViProof) -> Result<(), VerifyError> {
    let got = proof.comm_activations@.len();
    let want = rec.comm_activations@.len();
    if want != got {
        Err(VerifyError::ActivationCountMismatch { got: got as u32, want: want as u32 })
    } else {
        match first_root_diff(proof.comm_activations@, rec.comm_activations@, got as int) {
            Some(i) => Err(VerifyError::ActivationRootMismatch { idx: i as u32 }),
            None => if proof.comm_m@ != rec.comm_m@ { Err(VerifyError::CommMMismatch) } else { Ok(()) },
        }
    }
}

/// Compare a proof with the one recomputed by re-running the prover.
pub fn compare_recomputed(proof: &ViProof, recomputed: &ViProof) -> (r: Result<(), VerifyError>)
    requires
        proof.comm_activations@.len() <= u32::MAX,
        recomputed.comm_activations@.len() <= u32::MAX,
    ensures
        r == replica_outcome(*proof, *recomputed),
{
    let want = recomputed.comm_activations.len() as u32;
    let got = proof.comm_activations.len() as u32;
    if want != got {
        return Err(VerifyError::ActivationCountMismatch { got, want });
    }
    let mut i: usize = 0;
    while i < proof.comm_activations.len()
        invariant
            proof.comm_activations@.len() == recomputed.comm_activations@.len(),
            proof.comm_activations@.len() <= u32::MAX,
            i <= proof.comm_activations@.len(),
            first_root_diff(proof.comm_activations@, recomputed.comm_activations@, i as int) is None,
        decreases proof.comm_activations@.len() - i,
    {
        if !bytes32_eq(&proof.comm_activations[i], &recomputed.comm_activations[i]) {
            proof {
                lemma_first_diff_stable(proof.comm_activations@, recomputed.comm_activations@, i as int + 1,
                    proof.comm_activations@.len() as int);
            }
            return Err(VerifyError::ActivationRootMismatch { idx: i as u32 });
        }
        i = i + 1;
    }
    if !bytes32_eq(&proof.comm_m, &recomputed.comm_m) {
        return Err(VerifyError::CommMMismatch);
    }
    Ok(())
}

/// Rows and columns of tiles of the target block's gate matrix.
pub fn tile_grid(model: &Model, opts: ProverOptions) -> (r: Result<(u32, u32), VerifyError>)
    requires
        opts.tile > 0,
    ensures
        opts.target_layer >= model.layers@.len() ==> r == Err::<(u32, u32), VerifyError>(VerifyError::Prover(ProverError::NoFfn)),
        opts.target_layer < model.layers@.len() ==> r == Ok::<(u32, u32), VerifyError>(
            ((model.dims.seq_len / opts.tile) as u32,
                (layer_ffn(model.layers@[opts.target_layer as int]).intermediate / opts.tile) as u32)),
{
    if opts.target_layer as usize >= model.layers.len() {
        return Err(VerifyError::Prover(ProverError::NoFfn));
    }
    let ffn = layer_ffn_exec(&model.layers[opts.target_layer as usize]);
    Ok((model.dims.seq_len / opts.tile, ffn.intermediate / opts.tile))
}

/// Flat index of an opened tile in a grid with `nc` columns.
pub open spec fn flat(o: TileOpening, nc: u32) -> int {
    o.i * nc + o.j
}

/// What recomputing a root from a leaf, its index and its path gives in a
/// tree of `total` leaves.
pub open spec fn recover_outcome(leaf: Seq<u8>, idx: int, path: Seq<Seq<u8>>, total: int) -> Result<Seq<u8>, MerkleError> {
    if total == 0 {
        Err(MerkleError::Empty)
    } else if idx >= total {
        Err(MerkleError::IndexOutOfRange)
    } else if path.len() != depth(pow2_from(1, total as nat)) {
        Err(MerkleError::PathLengthMismatch)
    } else {
        Ok(recover(leaf_node(leaf), idx, path))
    }
}

/// Whether an opening at flat index `idx` recovers `root`.
pub open spec fn path_outcome(o: TileOpening, total: int, root: Seq<u8>, idx: int) -> Result<(), VerifyError> {
    match recover_outcome(o.m_ij@, idx, views32(o.path@), total) {
        Err(e) => Err(VerifyError::Merkle(e)),
        Ok(rt) => if rt != root { Err(VerifyError::PathMismatch { i: o.i, j: o.j }) } else { Ok(()) },
    }
}

fn verify_path(o: &TileOpening, total: u32, root: &[u8; 32], idx: u32) -> (r: Result<(), VerifyError>)
    requires
        2 * total <= usize::MAX,
    ensures
        r == path_outcome(*o, total as int, root@, idx as int),
{
    let recovered = match merkle_recover_root(&o.m_ij, idx as usize, o.path.as_slice(), total as usize) {
        Ok(x) => x,
        Err(e) => {
            return Err(VerifyError::Merkle(e));
        },
    };
    if !bytes32_eq(&recovered, root) {
        return Err(VerifyError::PathMismatch { i: o.i, j: o.j });
    }
    Ok(())
}

/// The spot-check openings checked in order against the expected indices:
/// the first that sits at another index, or whose path does not recover
/// the root (the first `n`).
pub open spec fn spots_outcome(sc: Seq<TileOpening>, want: Seq<u32>, nc: u32, total: int, root: Seq<u8>, n: int) -> Result<(), VerifyError>
    decreases n,
{
    if n <= 0 {
        Ok(())
    } else {
        match spots_outcome(sc, want, nc, total, root, n - 1) {
            Err(e) => Err(e),
            Ok(_) => if flat(sc[n - 1], nc) != want[n - 1] {
                Err(VerifyError::UnexpectedSpotCheck { idx: flat(sc[n - 1], nc) as u32 })
            } else {
                path_outcome(sc[n - 1], total, root, want[n - 1] as int)
            },
        }
    }
}

proof fn lemma_spots_stable(sc: Seq<TileOpening>, want: Seq<u32>, nc: u32, total: int, root: Seq<u8>, j: int, n: int)
    requires
        0 <= j <= n,
        spots_outcome(sc, want, nc, total, root, j) is Err,
    ensures
        spots_outcome(sc, want, nc, total, root, n) == spots_outcome(sc, want, nc, total, root, j),
    decreases n - j,
{
    if j < n {
        lemma_spots_stable(sc, want, nc, total, root, j, n - 1);
    }
}

/// What checking a proof's openings gives: the found tile's path, then the
/// spot-checks against the sampled indices other than the found tile.
pub open spec fn openings_outcome(proof: ViProof, nc: u32, total: u32, want_indices: Seq<u32>) -> Result<(), VerifyError> {
    let found = flat(proof.found, nc);
    match path_outcome(proof.found, total as int, proof.comm_m@, found) {
        Err(e) => Err(e),
        Ok(_) => {
            let spots = spot_indices(want_indices, found as u32, want_indices.len() as int);
            if proof.spot_checks@.len() != spots.len() {
                Err(VerifyError::UnexpectedSpotCheck { idx: proof.spot_checks@.len() as u32 })
            } else {
                spots_outcome(proof.spot_checks@, spots, nc, total as int, proof.comm_m@, spots.len() as int)
            }
        },
    }
}

/// Steps four and five of verification, once the sampled indices are
/// known: the found tile's path recovers `comm_M`, and the spot-checks are
/// exactly the sampled tiles other than the found one, in order, each with
/// a path that recovers `comm_M`.
pub fn verify_openings(proof: &ViProof, nc: u32, total: u32, want_indices: &[u32]) -> (r: Result<(), VerifyError>)
    requires
        2 * total <= usize::MAX,
        proof.spot_checks@.len() <= u32::MAX,
        flat(proof.found, nc) <= u32::MAX,
        forall|k: int| 0 <= k < proof.spot_checks@.len() ==> flat(#[trigger] proof.spot_checks@[k], nc) <= u32::MAX,
    ensures
        r == openings_outcome(*proof, nc, total, want_indices@),
{
    let found_idx = proof.found.i * nc + proof.found.j;
    match verify_path(&proof.found, total, &proof.comm_m, found_idx) {
        Err(e) => {
            return Err(e);
        },
        Ok(()) => {},
    }
    let mut spots: Vec<u32> = Vec::new();
    let mut k: usize = 0;
    while k < want_indices.len()
        invariant
            k <= want_indices@.len(),
            spots@ == spot_indices(want_indices@, found_idx, k as int),
        decreases want_indices@.len() - k,
    {
        let idx = want_indices[k];
        if idx != found_idx {
            spots.push(idx);
        }
        k = k + 1;
    }
    if proof.spot_checks.len() != spots.len() {
        return Err(VerifyError::UnexpectedSpotCheck { idx: proof.spot_checks.len() as u32 });
    }
    let mut q: usize = 0;
    while q < spots.len()
        invariant
            2 * total <= usize::MAX,
            found_idx == flat(proof.found, nc),
            path_outcome(proof.found, total as int, proof.comm_m@, found_idx as int) is Ok,
            spots@ == spot_indices(want_indices@, found_idx, want_indices@.len() as int),
            spots@.len() == proof.spot_checks@.len(),
            forall|k: int| 0 <= k < proof.spot_checks@.len() ==> flat(#[trigger] proof.spot_checks@[k], nc) <= u32::MAX,
            q <= spots@.len(),
            spots_outcome(proof.spot_checks@, spots@, nc, total as int, proof.comm_m@, q as int) is Ok,
        decreases spots@.len() - q,
    {
        let o = &proof.spot_checks[q];
        proof {
            assert(flat(proof.spot_checks@[q as int], nc) <= u32::MAX);
        }
        let got = o.i * nc + o.j;
        if got != spots[q] {
            proof {
                lemma_spots_stable(proof.spot_checks@, spots@, nc, total as int, proof.comm_m@, q as int + 1, spots@.len() as int);
            }
            return Err(VerifyError::UnexpectedSpotCheck { idx: got });
        }
        match verify_path(o, total, &proof.comm_m, got) {
            Err(e) => {
                proof {
                    lemma_spots_stable(proof.spot_checks@, spots@, nc, total as int, proof.comm_m@, q as int + 1, spots@.len() as int);
                }
                return Err(e);
            },
            Ok(()) => {},
        }
        q = q + 1;
    }
    Ok(())
}

// ----- completeness -----

proof fn lemma_flat_of_opening(o: TileOpening, leaves: Seq<[u8; 32]>, nc: u32, idx: u32)
    requires
        nc > 0,
        opens(o, leaves, nc, idx),
    ensures
        flat(o, nc) == idx,
{
    vstd::arithmetic::div_mod::lemma_fundamental_div_mod(idx as int, nc as int);
    assert((idx / nc) * nc == nc * (idx / nc)) by (nonlinear_arith);
}

proof fn lemma_opening_accepted(o: TileOpening, leaves: Seq<[u8; 32]>, nc: u32, idx: u32)
    requires
        nc > 0,
        idx < leaves.len(),
        opens(o, leaves, nc, idx),
    ensures
        flat(o, nc) == idx,
        path_outcome(o, leaves.len() as int, merkle_root_spec(views32(leaves)), idx as int) == Ok::<(), VerifyError>(()),
{
    lemma_flat_of_opening(o, leaves, nc, idx);
    lemma_merkle_path_recovers_root(views32(leaves), idx as int);
}

/// An honest proof's openings are accepted: a proof whose found tile and
/// spot-checks open tiles of a commitment as `assemble_vi_proof` builds them
/// from the sampled `indices`, checked against the same indices and the
/// commitment's grid, passes every opening check.
pub proof fn lemma_honest_openings_accepted(c: GateCommitment, p: ViProof, found_idx: u32, indices: Seq<u32>)
    requires
        c.num_col_tiles > 0,
        found_idx < c.leaves@.len(),
        c.leaves@.len() <= u32::MAX,
        c.comm_m@ == merkle_root_spec(views32(c.leaves@)),
        p.comm_m == c.comm_m,
        opens(p.found, c.leaves@, c.num_col_tiles, found_idx),
        forall|k: int| 0 <= k < spot_indices(indices, found_idx, indices.len() as int).len() ==>
            (#[trigger] spot_indices(indices, found_idx, indices.len() as int)[k]) < c.leaves@.len(),
        p.spot_checks@.len() == spot_indices(indices, found_idx, indices.len() as int).len(),
        forall|k: int| 0 <= k < spot_indices(indices, found_idx, indices.len() as int).len() ==>
            opens(#[trigger] p.spot_checks@[k], c.leaves@, c.num_col_tiles, spot_indices(indices, found_idx, indices.len() as int)[k]),
    ensures
        openings_outcome(p, c.num_col_tiles, c.leaves@.len() as u32, indices) == Ok::<(), VerifyError>(()),
{
    let nc = c.num_col_tiles;
    let total = c.leaves@.len() as u32;
    lemma_opening_accepted(p.found, c.leaves@, nc, found_idx);
    let spots = spot_indices(indices, found_idx, indices.len() as int);
    assert forall|k: int| 0 <= k < p.spot_checks@.len() implies #[trigger] spot_opens(c, p, spots, k) by {
        assert(spots[k] < c.leaves@.len());
        assert(opens(p.spot_checks@[k], c.leaves@, nc, spots[k]));
    }
    assert forall|n: int| 0 <= n <= spots.len() implies
        #[trigger] spots_outcome(p.spot_checks@, spots, nc, total as int, p.comm_m@, n) == Ok::<(), VerifyError>(()) by {
        lemma_spots_accepted(c, p, spots, n);
    }
}

proof fn lemma_no_root_diff(a: Seq<[u8; 32]>, n: int)
    ensures
        first_root_diff(a, a, n) is None,
    decreases n,
{
    if n > 0 {
        lemma_no_root_diff(a, n - 1);
    }
}

/// A proof compared with a recomputation that carries the same activation
/// roots and the same `comm_M` passes the replica comparison.
pub proof fn lemma_replica_accepts_identical(p: ViProof, recomputed: ViProof)
    requires
        recomputed.comm_activations@ == p.comm_activations@,
        recomputed.comm_m == p.comm_m,
    ensures
        replica_outcome(p, recomputed) == Ok::<(), VerifyError>(()),
{
    lemma_no_root_diff(p.comm_activations@, p.comm_activations@.len() as int);
}

/// Spot-check `k` of `p` opens tile `spots[k]` of the commitment.
pub open spec fn spot_opens(c: GateCommitment, p: ViProof, spots: Seq<u32>, k: int) -> bool {
    spots[k] < c.leaves@.len() && opens(p.spot_checks@[k], c.leaves@, c.num_col_tiles, spots[k])
}

proof fn lemma_spots_accepted(c: GateCommitment, p: ViProof, spots: Seq<u32>, n: int)
    requires
        c.num_col_tiles > 0,
        c.leaves@.len() <= u32::MAX,
        c.comm_m@ == merkle_root_spec(views32(c.leaves@)),
        p.comm_m == c.comm_m,
        0 <= n <= spots.len(),
        p.spot_checks@.len() == spots.len(),
        forall|k: int| 0 <= k < p.spot_checks@.len() ==> #[trigger] spot_opens(c, p, spots, k),
    ensures
        spots_outcome(p.spot_checks@, spots, c.num_col_tiles, c.leaves@.len() as int, p.comm_m@, n) == Ok::<(), VerifyError>(()),
    decreases n,
{
    if n > 0 {
        lemma_spots_accepted(c, p, spots, n - 1);
        let o = p.spot_checks@[n - 1];
        assert(spot_opens(c, p, spots, n - 1));
        lemma_opening_accepted(o, c.leaves@, c.num_col_tiles, spots[n - 1]);
    }
}

} // verus!
