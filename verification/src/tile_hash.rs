//! Tile leaf and hardness hashing of the puzzle.
//!
//! An `i32` block is folded into a 16-word state: chunk `s` (16 entries)
//! is XOR-reduced to one word `x`, and `M[s mod 16] = rotl13(M[s mod 16])
//! ^ x`. The leaf is the keyed BLAKE3 (all-zero key) of the 16 words in
//! little-endian order.
use vstd::prelude::*;
use crate::bytes::{le_bytes, push_u32};
use crate::hashing::{derive_key, keyed_hash, blake3_derive_key, blake3_keyed_hash};
use crate::merkle::concat32;

verus! {

/// The 16-word fold state.
#[derive(Debug, Clone, Copy, PartialEq, Eq)]
pub struct TileState(pub [i32; 16]);

/// `v` rotated left by 13 bits.
pub open spec fn rotl13(v: u32) -> u32 {
    (v << 13u32) | (v >> 19u32)
}

/// XOR of `block[start .. start + n]`, each entry as `u32`.
pub open spec fn chunk_xor(block: Seq<i32>, start: int, n: int) -> u32
    decreases n,
{
    if n <= 0 {
        0
    } else {
        chunk_xor(block, start, n - 1) ^ (block[start + n - 1] as u32)
    }
}

/// Entries of chunk `s` of a block of length `len`.
pub open spec fn chunk_len(len: int, s: int) -> int {
    if len - 16 * s >= 16 { 16 } else { len - 16 * s }
}

/// One fold step into slot `step mod 16`.
pub open spec fn fold_spec(m: Seq<i32>, step: int, x: u32) -> Seq<i32> {
    let slot = step % 16;
    m.update(slot, (rotl13(m[slot] as u32) ^ x) as i32)
}

/// State after the first `s` chunks of `block`.
pub open spec fn state_after(block: Seq<i32>, s: int) -> Seq<i32>
    decreases s,
{
    if s <= 0 {
        Seq::new(16, |i: int| 0i32)
    } else {
        fold_spec(state_after(block, s - 1), s - 1, chunk_xor(block, 16 * (s - 1), chunk_len(block.len() as int, s - 1)))
    }
}

/// Number of chunks of a block.
pub open spec fn num_chunks(len: int) -> int {
    (len + 15) / 16
}

/// State of a whole block.
pub open spec fn tile_state_spec(block: Seq<i32>) -> Seq<i32> {
    state_after(block, num_chunks(block.len() as int))
}

/// The 16 words as little-endian bytes.
pub open spec fn state_bytes(m: Seq<i32>) -> Seq<u8> {
    Seq::new(64, |k: int| le_bytes((m[k / 4] as u32) as nat, 4)[k % 4])
}

impl TileState {
    /// The all-zero state.
    pub fn zero() -> (r: TileState)
        ensures
            r.0@ == Seq::new(16, |i: int| 0i32),
    {
        let r = TileState([0i32; 16]);
        assert(r.0@ =~= Seq::new(16, |i: int| 0i32));
        r
    }

    /// `M[step mod 16] = rotl13(M[step mod 16]) ^ x`.
    pub fn fold(&mut self, step: u32, x: i32)
        ensures
            final(self).0@ == fold_spec(old(self).0@, step as int, x as u32),
    {
        let slot = (step % 16) as usize;
        let v = self.0[slot] as u32;
        let rot = (v << 13u32) | (v >> 19u32);
        self.0[slot] = (rot ^ (x as u32)) as i32;
        assert(self.0@ =~= fold_spec(old(self).0@, step as int, x as u32));
    }

    /// The 16 words as 64 little-endian bytes.
    pub fn to_bytes(&self) -> (r: Vec<u8>)
        ensures
            r@ == state_bytes(self.0@),
    {
        let mut out: Vec<u8> = Vec::new();
        let mut i: usize = 0;
        while i < 16
            invariant
                i <= 16,
                out@.len() == 4 * i,
                forall|k: int| 0 <= k < 4 * i ==> out@[k] == le_bytes((self.0@[k / 4] as u32) as nat, 4)[k % 4],
            decreases 16 - i,
        {
            push_u32(&mut out, self.0[i] as u32);
            proof {
                assert forall|k: int| 0 <= k < 4 * (i + 1) implies out@[k] == le_bytes((self.0@[k / 4] as u32) as nat, 4)[k % 4] by {
                    if k >= 4 * i {
                        assert(k / 4 == i) by (nonlinear_arith) requires 4 * i <= k < 4 * i + 4 {}
                        assert(k % 4 == k - 4 * i) by (nonlinear_arith) requires 4 * i <= k < 4 * i + 4 {}
                    }
                }
            }
            i = i + 1;
        }
        assert(out@ =~= state_bytes(self.0@));
        out
    }

    /// Keyed BLAKE3 of the state bytes.
    pub fn keyed_hash(&self, key: &[u8; 32]) -> (r: [u8; 32])
        ensures
            r@ == blake3_keyed_hash(key@, state_bytes(self.0@)),
    {
        let b = self.to_bytes();
        keyed_hash(key, b.as_slice())
    }
}

/// Fold an `i32` block into a tile state, 16 entries per step.
pub fn tile_state_from_block(block: &[i32]) -> (r: TileState)
    ensures
        r.0@ == tile_state_spec(block@),
{
    let mut state = TileState::zero();
    let n = block.len();
    let chunks = n / 16 + if n % 16 != 0 { 1 } else { 0 };
    proof {
        assert(chunks == num_chunks(n as int));
    }
    let mut s: usize = 0;
    while s < chunks
        invariant
            s <= chunks,
            chunks == num_chunks(n as int),
            n == block@.len(),
            state.0@ == state_after(block@, s as int),
        decreases chunks - s,
    {
        let start = 16 * s;
        let len = if n - start >= 16 { 16 } else { n - start };
        let mut x: u32 = 0;
        let mut k: usize = 0;
        while k < len
            invariant
                k <= len,
                start + len <= n,
                n == block@.len(),
                x == chunk_xor(block@, start as int, k as int),
            decreases len - k,
        {
            x = x ^ (block[start + k] as u32);
            k = k + 1;
        }
        let ghost before = state.0@;
        state.fold(s as u32, x as i32);
        proof {
            assert(((x as i32) as u32) == x) by (bit_vector);
            let su = s as u64;
            assert(((su as u32) as u64) % 16 == su % 16) by (bit_vector);
            assert(((s as u32) as int) % 16 == (s as int) % 16);
            assert(state.0@ == fold_spec(before, s as int, x));
        }
        s = s + 1;
    }
    state
}

/// Tile-Merkle leaf of an `i32` block: keyed hash of its fold state under
/// the all-zero key.
pub fn tile_leaf(block: &[i32]) -> (r: [u8; 32])
    ensures
        r@ == blake3_keyed_hash(Seq::new(32, |i: int| 0u8), state_bytes(tile_state_spec(block@))),
{
    let key = [0u8; 32];
    assert(key@ =~= Seq::new(32, |i: int| 0u8));
    tile_state_from_block(block).keyed_hash(&key)
}

/// Hardness value of tile `(i, j)` with leaf `m_ij` under `seed`.
pub fn tile_hardness_hash(seed: &[u8; 32], i: u32, j: u32, m_ij: &[u8; 32]) -> (r: [u8; 32])
    ensures
        r@ == blake3_derive_key("ai-pow-vi tile-hardness"@, seed@ + le_bytes(i as nat, 4) + le_bytes(j as nat, 4) + m_ij@),
{
    let mut buf: Vec<u8> = Vec::new();
    let mut k: usize = 0;
    while k < 32
        invariant
            k <= 32,
            buf@ == seed@.subrange(0, k as int),
        decreases 32 - k,
    {
        buf.push(seed[k]);
        k = k + 1;
    }
    push_u32(&mut buf, i);
    push_u32(&mut buf, j);
    let ghost mid = buf@;
    let mut k: usize = 0;
    while k < 32
        invariant
            k <= 32,
            buf@ == mid + m_ij@.subrange(0, k as int),
        decreases 32 - k,
    {
        buf.push(m_ij[k]);
        k = k + 1;
    }
    assert(buf@ =~= seed@ + le_bytes(i as nat, 4) + le_bytes(j as nat, 4) + m_ij@);
    derive_key("ai-pow-vi tile-hardness", buf.as_slice())
}

} // verus!
