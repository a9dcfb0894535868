//! Per-layer activation Merkle log.
//!
//! Each recorded `(seq_len, hidden)` activation tensor is cut into
//! `tile x tile` blocks (row-major inside a tile, tiles row-major over the
//! tensor); every block is hashed into a leaf and the leaves are reduced to
//! the layer's Merkle root. A tile can later be opened against that root.
use vstd::prelude::*;
use crate::bytes::{le_bytes, push_u64};
use crate::comm_w::{i8s_bytes, append_i8s};
use crate::matmul_int8::mul_u32;
use crate::hashing::{derive_key, blake3_derive_key};
use crate::merkle::{
    merkle_path, merkle_path_spec, merkle_recover_root, merkle_root, merkle_root_spec, recover, leaf_node,
    depth, pow2_from, views32, MerkleError, lemma_merkle_path_recovers_root,
};

verus! {

/// Tile grid of an activation tensor.
#[derive(Debug, Clone, Copy, PartialEq, Eq)]
pub struct ActivationLayout {
    pub seq_len: u32,
    pub hidden: u32,
    /// Tile size along both axes.
    pub tile: u32,
}

#[derive(Debug, Clone, Copy, PartialEq, Eq)]
pub enum ActivationError {
    ZeroDim,
    SeqLenNotMultipleOfTile,
    HiddenNotMultipleOfTile,
    BadTensorLen,
    NonSequentialLayer { expected: u32, got: u32 },
    LayerOutOfRange { have: u32, asked: u32 },
    TileOutOfRange { have: u32, asked: u32 },
    Merkle(MerkleError),
}

impl ActivationLayout {
    /// Which check of `validate` fails first, if any.
    pub open spec fn check(self) -> Result<(), ActivationError> {
        if self.seq_len == 0 || self.hidden == 0 || self.tile == 0 {
            Err(ActivationError::ZeroDim)
        } else if self.seq_len % self.tile != 0 {
            Err(ActivationError::SeqLenNotMultipleOfTile)
        } else if self.hidden % self.tile != 0 {
            Err(ActivationError::HiddenNotMultipleOfTile)
        } else {
            Ok(())
        }
    }

    pub open spec fn valid(self) -> bool {
        self.check() is Ok
    }

    pub open spec fn row_tiles(self) -> int {
        self.seq_len as int / self.tile as int
    }

    pub open spec fn col_tiles(self) -> int {
        self.hidden as int / self.tile as int
    }

    /// All dimensions non-zero and both divisible by the tile size.
    pub fn validate(&self) -> (r: Result<(), ActivationError>)
        ensures
            r == self.check(),
    {
        if self.seq_len == 0 || self.hidden == 0 || self.tile == 0 {
            return Err(ActivationError::ZeroDim);
        }
        if self.seq_len % self.tile != 0 {
            return Err(ActivationError::SeqLenNotMultipleOfTile);
        }
        if self.hidden % self.tile != 0 {
            return Err(ActivationError::HiddenNotMultipleOfTile);
        }
        Ok(())
    }

    pub fn num_row_tiles(&self) -> (r: u32)
        requires
            self.tile > 0,
        ensures
            r == self.row_tiles(),
    {
        self.seq_len / self.tile
    }

    pub fn num_col_tiles(&self) -> (r: u32)
        requires
            self.tile > 0,
        ensures
            r == self.col_tiles(),
    {
        self.hidden / self.tile
    }

    pub fn num_tiles(&self) -> (r: u32)
        requires
            self.tile > 0,
            self.row_tiles() * self.col_tiles() <= u32::MAX,
        ensures
            r == self.row_tiles() * self.col_tiles(),
    {
        self.num_row_tiles() * self.num_col_tiles()
    }
}

/// Row-major bytes of tile `(r, c)` of a `(seq_len, hidden)` tensor.
pub open spec fn tile_bytes_spec(tensor: Seq<i8>, l: ActivationLayout, r: int, c: int) -> Seq<i8> {
    let t = l.tile as int;
    Seq::new((t * t) as nat, |k: int| tensor[(r * t + k / t) * (l.hidden as int) + c * t + k % t])
}

/// Leaf hash of one tile: `derive_key(ctx, le64(len) || bytes)`.
pub open spec fn tile_leaf_spec(bytes: Seq<i8>) -> Seq<u8> {
    blake3_derive_key("ai-pow-vi v1 activation-tile"@, le_bytes(bytes.len(), 8) + i8s_bytes(bytes))
}

/// Leaf hashes of every tile, in tile order.
pub open spec fn act_leaves(tensor: Seq<i8>, l: ActivationLayout) -> Seq<Seq<u8>> {
    let nc = l.col_tiles();
    Seq::new((l.row_tiles() * nc) as nat, |t: int| tile_leaf_spec(tile_bytes_spec(tensor, l, t / nc, t % nc)))
}

/// Leaf hash of one tile.
pub fn tile_leaf_hash(tile_bytes: &[i8]) -> (r: [u8; 32])
    ensures
        r@ == tile_leaf_spec(tile_bytes@),
{
    let mut buf: Vec<u8> = Vec::new();
    push_u64(&mut buf, tile_bytes.len() as u64);
    append_i8s(&mut buf, tile_bytes);
    derive_key("ai-pow-vi v1 activation-tile", buf.as_slice())
}

proof fn lemma_tile_index(r: int, c: int, t: int, k: int, hidden: int, seq_len: int)
    requires
        t > 0,
        0 <= r,
        0 <= c,
        (r + 1) * t <= seq_len,
        (c + 1) * t <= hidden,
        0 <= k < t * t,
    ensures
        0 <= (r * t + k / t) * hidden + c * t + k % t < seq_len * hidden,
        0 <= r * t <= r * t + k / t < seq_len,
        0 <= c * t <= c * t + k % t < hidden,
        (r * t + k / t) * hidden <= (r * t + k / t) * hidden + c * t + k % t,
{
    assert(0 <= k / t < t) by {
        vstd::arithmetic::div_mod::lemma_div_pos_is_pos(k, t);
        vstd::arithmetic::div_mod::lemma_multiply_divide_lt(k, t, t);
    }
    vstd::arithmetic::div_mod::lemma_mod_pos_bound(k, t);
    let row = r * t + k / t;
    let col = c * t + k % t;
    assert(0 <= row < seq_len) by (nonlinear_arith)
        requires row == r * t + k / t, 0 <= k / t < t, (r + 1) * t <= seq_len, r >= 0, t > 0 {}
    assert(0 <= col < hidden) by (nonlinear_arith)
        requires col == c * t + k % t, 0 <= k % t < t, (c + 1) * t <= hidden, c >= 0, t > 0 {}
    assert(0 <= row * hidden + col < seq_len * hidden) by (nonlinear_arith)
        requires 0 <= row < seq_len, 0 <= col < hidden {}
    assert(0 <= r * t) by (nonlinear_arith) requires r >= 0, t > 0 {}
    assert(0 <= c * t) by (nonlinear_arith) requires c >= 0, t > 0 {}
}

/// Row-major bytes of tile `(r, c)`.
pub fn extract_tile_bytes(tensor: &[i8], layout: &ActivationLayout, r: u32, c: u32) -> (out: Vec<i8>)
    requires
        layout.tile > 0,
        tensor@.len() == layout.seq_len * layout.hidden,
        (r + 1) * layout.tile <= layout.seq_len,
        (c + 1) * layout.tile <= layout.hidden,
    ensures
        out@ == tile_bytes_spec(tensor@, *layout, r as int, c as int),
{
    let t = layout.tile as usize;
    let hidden = layout.hidden as usize;
    let ghost spec = tile_bytes_spec(tensor@, *layout, r as int, c as int);
    let tlen = tensor.len();
    proof {
        assert(t <= layout.seq_len) by (nonlinear_arith)
            requires (r + 1) * layout.tile <= layout.seq_len, t == layout.tile, r >= 0 {}
        assert(t <= layout.hidden) by (nonlinear_arith)
            requires (c + 1) * layout.tile <= layout.hidden, t == layout.tile, c >= 0 {}
        assert(t * t <= layout.seq_len * layout.hidden) by (nonlinear_arith)
            requires t <= layout.seq_len, t <= layout.hidden, t > 0 {}
    }
    let n = t * t;
    let mut out: Vec<i8> = Vec::new();
    let mut k: usize = 0;
    while k < n
        invariant
            k <= n,
            t > 0,
            n == t * t,
            t == layout.tile,
            hidden == layout.hidden,
            tlen == tensor@.len(),
            tensor@.len() == layout.seq_len * layout.hidden,
            (r + 1) * layout.tile <= layout.seq_len,
            (c + 1) * layout.tile <= layout.hidden,
            spec == tile_bytes_spec(tensor@, *layout, r as int, c as int),
            out@.len() == k,
            forall|e: int| 0 <= e < k ==> out@[e] == spec[e],
        decreases n - k,
    {
        proof {
            lemma_tile_index(r as int, c as int, t as int, k as int, hidden as int, layout.seq_len as int);
            assert((r as int) * (t as int) <= (r as int) * (t as int) + (k / t) as int);
        }
        let row = (r as usize) * t + k / t;
        let off = row * hidden + (c as usize) * t + k % t;
        out.push(tensor[off]);
        k = k + 1;
    }
    assert(out@ =~= spec);
    out
}

/// Merkle opening of one activation tile.
#[derive(Debug, Clone, PartialEq, Eq)]
pub struct ActivationOpening {
    pub layer_idx: u32,
    pub tile_idx: u32,
    /// `tile * tile` bytes, row-major within the tile.
    pub tile_bytes: Vec<i8>,
    pub path: Vec<[u8; 32]>,
}

/// Per-layer activation roots and retained leaf hashes.
#[derive(Debug, Clone)]
pub struct ActivationLog {
    pub layout: ActivationLayout,
    /// Per-layer Merkle roots in layer order.
    pub layer_roots: Vec<[u8; 32]>,
    /// `tiles[layer][tile]` is the leaf hash of that tile.
    pub tiles: Vec<Vec<[u8; 32]>>,
}

impl ActivationLog {
    /// Empty log for a valid layout.
    pub fn new(layout: ActivationLayout) -> (r: Result<ActivationLog, ActivationError>)
        ensures
            layout.check() is Err ==> r == Err::<ActivationLog, ActivationError>(layout.check()->Err_0),
            layout.check() is Ok ==> r is Ok && r->Ok_0.layout == layout && r->Ok_0.layer_roots@.len() == 0
                && r->Ok_0.tiles@.len() == 0,
    {
        match layout.validate() {
            Err(e) => Err(e),
            Ok(()) => Ok(ActivationLog { layout, layer_roots: Vec::new(), tiles: Vec::new() }),
        }
    }

    /// Number of recorded layers.
    pub fn num_layers(&self) -> (r: u32)
        ensures
            r == self.layer_roots@.len() as u32,
    {
        self.layer_roots.len() as u32
    }

    /// Record the next layer's tensor: its tile leaves and their root.
    pub fn record_layer(&mut self, layer_idx: u32, tensor: &[i8]) -> (r: Result<(), ActivationError>)
        requires
            old(self).layout.valid(),
            2 * (old(self).layout.seq_len * old(self).layout.hidden) <= usize::MAX,
        ensures
            final(self).layout == old(self).layout,
            layer_idx != old(self).layer_roots@.len() as u32 ==> r == Err::<(), ActivationError>(ActivationError::NonSequentialLayer {
                expected: old(self).layer_roots@.len() as u32, got: layer_idx }) && *final(self) == *old(self),
            layer_idx == old(self).layer_roots@.len() as u32 && tensor@.len() != old(self).layout.seq_len * old(self).layout.hidden
                ==> r == Err::<(), ActivationError>(ActivationError::BadTensorLen) && *final(self) == *old(self),
            layer_idx == old(self).layer_roots@.len() as u32 && tensor@.len() == old(self).layout.seq_len * old(self).layout.hidden
                ==> {
                &&& r is Ok
                &&& final(self).layer_roots@.len() == old(self).layer_roots@.len() + 1
                &&& final(self).layer_roots@.drop_last() == old(self).layer_roots@
                &&& final(self).layer_roots@.last()@ == merkle_root_spec(act_leaves(tensor@, old(self).layout))
                &&& final(self).tiles@.len() == old(self).tiles@.len() + 1
                &&& final(self).tiles@.drop_last() == old(self).tiles@
                &&& views32(final(self).tiles@.last()@) == act_leaves(tensor@, old(self).layout)
            },
    {
        let expected = self.layer_roots.len() as u32;
        if layer_idx != expected {
            return Err(ActivationError::NonSequentialLayer { expected, got: layer_idx });
        }
        let l = self.layout;
        let need: u64 = (l.seq_len as u64) * (l.hidden as u64);
        assert((l.seq_len as u64) * (l.hidden as u64) == l.seq_len * l.hidden) by (nonlinear_arith)
            requires l.seq_len * l.hidden <= usize::MAX {}
        if tensor.len() as u64 != need {
            return Err(ActivationError::BadTensorLen);
        }
        let nr = l.num_row_tiles();
        let nc = l.num_col_tiles();
        let ghost spec = act_leaves(tensor@, l);
        proof {
            vstd::arithmetic::div_mod::lemma_fundamental_div_mod(l.seq_len as int, l.tile as int);
            vstd::arithmetic::div_mod::lemma_fundamental_div_mod(l.hidden as int, l.tile as int);
            assert(nr * l.tile == l.seq_len) by (nonlinear_arith)
                requires l.seq_len == l.tile * nr, {}
            assert(nc * l.tile == l.hidden) by (nonlinear_arith)
                requires l.hidden == l.tile * nc, {}
            assert(nr >= 1 && nc >= 1) by (nonlinear_arith)
                requires nr * l.tile == l.seq_len, nc * l.tile == l.hidden, l.seq_len > 0, l.hidden > 0, l.tile > 0 {}
            assert(nr * nc <= l.seq_len * l.hidden) by (nonlinear_arith)
                requires nr * l.tile == l.seq_len, nc * l.tile == l.hidden, l.tile >= 1, nr >= 0, nc >= 0 {}
        }
        let total: usize = (nr as usize) * (nc as usize);
        assert(total >= 1) by (nonlinear_arith) requires total == nr * nc, nr >= 1, nc >= 1 {}
        let mut leaves: Vec<[u8; 32]> = Vec::new();
        let mut t: usize = 0;
        while t < total
            invariant
                t <= total,
                total == nr * nc,
                total >= 1,
                nr >= 1,
                nc >= 1,
                nr == l.row_tiles(),
                nc == l.col_tiles(),
                nr * l.tile == l.seq_len,
                nc * l.tile == l.hidden,
                l.tile > 0,
                tensor@.len() == l.seq_len * l.hidden,
                spec == act_leaves(tensor@, l),
                nr * nc <= l.seq_len * l.hidden,
                2 * (l.seq_len * l.hidden) <= usize::MAX,
                leaves@.len() == t,
                forall|e: int| 0 <= e < t ==> leaves@[e]@ == spec[e],
            decreases total - t,
        {
            let r = (t / (nc as usize)) as u32;
            let c = (t % (nc as usize)) as u32;
            proof {
                vstd::arithmetic::div_mod::lemma_multiply_divide_lt(t as int, nc as int, nr as int);
                vstd::arithmetic::div_mod::lemma_mod_pos_bound(t as int, nc as int);
                vstd::arithmetic::div_mod::lemma_div_pos_is_pos(t as int, nc as int);
                assert((r + 1) * l.tile <= l.seq_len) by (nonlinear_arith)
                    requires r + 1 <= nr, nr * l.tile == l.seq_len, l.tile > 0 {}
                assert((c + 1) * l.tile <= l.hidden) by (nonlinear_arith)
                    requires c + 1 <= nc, nc * l.tile == l.hidden, l.tile > 0 {}
            }
            let bytes = extract_tile_bytes(tensor, &l, r, c);
            leaves.push(tile_leaf_hash(bytes.as_slice()));
            t = t + 1;
        }
        assert(views32(leaves@) =~= spec);
        let root = merkle_root(leaves.as_slice());
        self.layer_roots.push(root);
        self.tiles.push(leaves);
        Ok(())
    }

    /// Root of a recorded layer.
    pub fn root(&self, layer_idx: u32) -> (r: Result<[u8; 32], ActivationError>)
        ensures
            layer_idx < self.layer_roots@.len() ==> r == Ok::<[u8; 32], ActivationError>(self.layer_roots@[layer_idx as int]),
            layer_idx >= self.layer_roots@.len() ==> r == Err::<[u8; 32], ActivationError>(ActivationError::LayerOutOfRange {
                have: self.layer_roots@.len() as u32, asked: layer_idx }),
    {
        let i = layer_idx as usize;
        if i >= self.layer_roots.len() {
            return Err(ActivationError::LayerOutOfRange { have: self.num_layers(), asked: layer_idx });
        }
        Ok(self.layer_roots[i])
    }

    /// Opening of tile `tile_idx` of layer `layer_idx`, from the recorded
    /// leaves and the tensor the prover kept.
    pub fn open(&self, layer_idx: u32, tile_idx: u32, tensor: &[i8]) -> (r: Result<ActivationOpening, ActivationError>)
        requires
            self.layout.valid(),
            2 * (self.layout.row_tiles() * self.layout.col_tiles()) <= usize::MAX,
            self.layout.row_tiles() * self.layout.col_tiles() <= u32::MAX,
            forall|i: int| 0 <= i < self.tiles@.len()
                ==> (#[trigger] self.tiles@[i])@.len() == self.layout.row_tiles() * self.layout.col_tiles(),
        ensures
            layer_idx >= self.tiles@.len() ==> r == Err::<ActivationOpening, ActivationError>(
                ActivationError::LayerOutOfRange { have: self.layer_roots@.len() as u32, asked: layer_idx }),
            layer_idx < self.tiles@.len() && tile_idx >= self.tiles@[layer_idx as int]@.len() as u32
                ==> r == Err::<ActivationOpening, ActivationError>(ActivationError::TileOutOfRange {
                    have: self.tiles@[layer_idx as int]@.len() as u32, asked: tile_idx }),
            layer_idx < self.tiles@.len() && tile_idx < self.tiles@[layer_idx as int]@.len() as u32
                && tensor@.len() != self.layout.seq_len * self.layout.hidden
                ==> r == Err::<ActivationOpening, ActivationError>(ActivationError::BadTensorLen),
            layer_idx < self.tiles@.len() && tile_idx < self.tiles@[layer_idx as int]@.len() as u32
                && tensor@.len() == self.layout.seq_len * self.layout.hidden ==> {
                &&& r is Ok
                &&& r->Ok_0.layer_idx == layer_idx
                &&& r->Ok_0.tile_idx == tile_idx
                &&& r->Ok_0.tile_bytes@ == tile_bytes_spec(tensor@, self.layout,
                        tile_idx as int / self.layout.col_tiles(), tile_idx as int % self.layout.col_tiles())
                &&& views32(r->Ok_0.path@) == merkle_path_spec(views32(self.tiles@[layer_idx as int]@), tile_idx as int)
            },
    {
        let li = layer_idx as usize;
        if li >= self.tiles.len() {
            return Err(ActivationError::LayerOutOfRange { have: self.num_layers(), asked: layer_idx });
        }
        let leaves = &self.tiles[li];
        let total = leaves.len() as u32;
        if tile_idx >= total {
            return Err(ActivationError::TileOutOfRange { have: total, asked: tile_idx });
        }
        let l = self.layout;
        let need: u64 = mul_u32(l.seq_len, l.hidden);
        if tensor.len() as u64 != need {
            return Err(ActivationError::BadTensorLen);
        }
        let nr = l.num_row_tiles();
        let nc = l.num_col_tiles();
        proof {
            vstd::arithmetic::div_mod::lemma_fundamental_div_mod(l.seq_len as int, l.tile as int);
            vstd::arithmetic::div_mod::lemma_fundamental_div_mod(l.hidden as int, l.tile as int);
            assert(nr * l.tile == l.seq_len) by (nonlinear_arith)
                requires l.seq_len == l.tile * nr, {}
            assert(nc * l.tile == l.hidden) by (nonlinear_arith)
                requires l.hidden == l.tile * nc, {}
            assert(nc >= 1) by (nonlinear_arith)
                requires nc * l.tile == l.hidden, l.hidden > 0, l.tile > 0 {}
        }
        let r = tile_idx / nc;
        let c = tile_idx % nc;
        proof {
            assert(tile_idx < nc * nr) by (nonlinear_arith) requires tile_idx < nr * nc {}
            vstd::arithmetic::div_mod::lemma_multiply_divide_lt(tile_idx as int, nc as int, nr as int);
            vstd::arithmetic::div_mod::lemma_mod_pos_bound(tile_idx as int, nc as int);
            assert((r + 1) * l.tile <= l.seq_len) by (nonlinear_arith)
                requires r + 1 <= nr, nr * l.tile == l.seq_len, l.tile > 0 {}
            assert((c + 1) * l.tile <= l.hidden) by (nonlinear_arith)
                requires c + 1 <= nc, nc * l.tile == l.hidden, l.tile > 0 {}
        }
        let tile_bytes = extract_tile_bytes(tensor, &l, r, c);
        let path = match merkle_path(leaves.as_slice(), tile_idx as usize) {
            Ok(p) => p,
            Err(e) => {
                return Err(ActivationError::Merkle(e));
            },
        };
        Ok(ActivationOpening { layer_idx, tile_idx, tile_bytes, path })
    }
}

/// Verifier side: recompute the layer root from an opening and compare.
pub fn verify_opening(layout: &ActivationLayout, expected_root: &[u8; 32], opening: &ActivationOpening) -> (r: Result<(), ActivationError>)
    requires
        layout.row_tiles() * layout.col_tiles() <= u32::MAX,
        2 * (layout.row_tiles() * layout.col_tiles()) <= usize::MAX,
    ensures
        layout.check() is Err ==> r == Err::<(), ActivationError>(layout.check()->Err_0),
        layout.check() is Ok && opening.tile_bytes@.len() != layout.tile * layout.tile
            ==> r == Err::<(), ActivationError>(ActivationError::BadTensorLen),
        layout.check() is Ok && opening.tile_bytes@.len() == layout.tile * layout.tile
            && opening.tile_idx >= layout.row_tiles() * layout.col_tiles()
            ==> r == Err::<(), ActivationError>(ActivationError::TileOutOfRange {
                have: (layout.row_tiles() * layout.col_tiles()) as u32, asked: opening.tile_idx }),
        layout.check() is Ok && opening.tile_bytes@.len() == layout.tile * layout.tile
            && opening.tile_idx < layout.row_tiles() * layout.col_tiles() ==> {
            let total = (layout.row_tiles() * layout.col_tiles()) as nat;
            &&& opening.path@.len() != depth(pow2_from(1, total))
                ==> r == Err::<(), ActivationError>(ActivationError::Merkle(MerkleError::PathLengthMismatch))
            &&& opening.path@.len() == depth(pow2_from(1, total)) ==> (r is Ok <==>
                recover(leaf_node(tile_leaf_spec(opening.tile_bytes@)), opening.tile_idx as int, views32(opening.path@))
                    == expected_root@)
            &&& r is Err ==> r == Err::<(), ActivationError>(ActivationError::Merkle(MerkleError::PathLengthMismatch))
        },
{
    match layout.validate() {
        Err(e) => {
            return Err(e);
        },
        Ok(()) => {},
    }
    if opening.tile_bytes.len() as u64 != mul_u32(layout.tile, layout.tile) {
        return Err(ActivationError::BadTensorLen);
    }
    let total = layout.num_tiles();
    if opening.tile_idx >= total {
        return Err(ActivationError::TileOutOfRange { have: total, asked: opening.tile_idx });
    }
    let leaf = tile_leaf_hash(opening.tile_bytes.as_slice());
    let recovered = match merkle_recover_root(&leaf, opening.tile_idx as usize, opening.path.as_slice(), total as usize) {
        Ok(x) => x,
        Err(e) => {
            return Err(ActivationError::Merkle(e));
        },
    };
    if bytes32_eq(&recovered, expected_root) {
        Ok(())
    } else {
        Err(ActivationError::Merkle(MerkleError::PathLengthMismatch))
    }
}

/// Whether two 32-byte values are equal.
pub fn bytes32_eq(a: &[u8; 32], b: &[u8; 32]) -> (r: bool)
    ensures
        r == (a@ == b@),
{
    let mut i: usize = 0;
    while i < 32
        invariant
            i <= 32,
            forall|e: int| 0 <= e < i ==> a@[e] == b@[e],
        decreases 32 - i,
    {
        if a[i] != b[i] {
            return false;
        }
        i = i + 1;
    }
    assert(a@ =~= b@);
    true
}

/// An opening built from the leaves of a tensor verifies against the root
/// recorded for that tensor.
pub proof fn lemma_opening_recovers_root(tensor: Seq<i8>, l: ActivationLayout, t: int)
    requires
        0 <= t < l.row_tiles() * l.col_tiles(),
    ensures
        recover(
            leaf_node(tile_leaf_spec(tile_bytes_spec(tensor, l, t / l.col_tiles(), t % l.col_tiles()))),
            t,
            merkle_path_spec(act_leaves(tensor, l), t),
        ) == merkle_root_spec(act_leaves(tensor, l)),
        merkle_path_spec(act_leaves(tensor, l), t).len() == depth(pow2_from(1, (l.row_tiles() * l.col_tiles()) as nat)),
{
    lemma_merkle_path_recovers_root(act_leaves(tensor, l), t);
}

} // verus!
