//! Binary Merkle tree over 32-byte leaves: each leaf is hashed under the
//! leaf context, the level is padded with a sentinel node up to the next
//! power of two, and adjacent pairs are hashed under the node context until
//! one node is left.
use vstd::prelude::*;
use crate::hashing::{derive_key, blake3_derive_key};

verus! {

broadcast use vstd::array::group_array_axioms;

/// Leaf node of a 32-byte leaf.
pub open spec fn leaf_node(h: Seq<u8>) -> Seq<u8> {
    blake3_derive_key("ai-pow v1 merkle-leaf"@, h)
}

/// Inner node of two children.
pub open spec fn node_hash(l: Seq<u8>, r: Seq<u8>) -> Seq<u8> {
    blake3_derive_key("ai-pow v1 merkle-node"@, l + r)
}

/// The padding node.
pub open spec fn sentinel_node() -> Seq<u8> {
    blake3_derive_key("ai-pow v1 merkle-sentinel"@, Seq::<u8>::empty())
}

/// Smallest `t * 2^k >= n` (for `t >= 1`).
pub open spec fn pow2_from(t: nat, n: nat) -> nat
    decreases (if t >= n { 0int } else { n - t }),
{
    if t == 0 {
        1
    } else if t >= n {
        t
    } else {
        pow2_from(2 * t, n)
    }
}

/// One level up: adjacent pairs hashed together.
pub open spec fn pair_up(level: Seq<Seq<u8>>) -> Seq<Seq<u8>> {
    Seq::new(level.len() / 2, |i: int| node_hash(level[2 * i], level[2 * i + 1]))
}

/// Root of a level whose length is a power of two.
pub open spec fn tree_root(level: Seq<Seq<u8>>) -> Seq<u8>
    decreases level.len(),
{
    if level.len() <= 1 {
        level[0]
    } else {
        tree_root(pair_up(level))
    }
}

/// Leaf nodes padded with sentinels to `p` entries.
pub open spec fn padded_level(leaves: Seq<Seq<u8>>, p: nat) -> Seq<Seq<u8>> {
    Seq::new(p, |i: int| if i < leaves.len() { leaf_node(leaves[i]) } else { sentinel_node() })
}

/// Merkle root of a non-empty leaf list.
pub open spec fn merkle_root_spec(leaves: Seq<Seq<u8>>) -> Seq<u8> {
    tree_root(padded_level(leaves, pow2_from(1, leaves.len())))
}

/// Views of a list of 32-byte values.
pub open spec fn views32(v: Seq<[u8; 32]>) -> Seq<Seq<u8>> {
    Seq::new(v.len(), |i: int| v[i]@)
}

/// Concatenate two 32-byte values.
pub fn concat32(a: &[u8; 32], b: &[u8; 32]) -> (r: Vec<u8>)
    ensures
        r@ == a@ + b@,
{
    let mut v: Vec<u8> = Vec::new();
    let mut i: usize = 0;
    while i < 32
        invariant
            i <= 32,
            v@ == a@.subrange(0, i as int),
        decreases 32 - i,
    {
        v.push(a[i]);
        i = i + 1;
    }
    let mut j: usize = 0;
    while j < 32
        invariant
            j <= 32,
            v@ == a@ + b@.subrange(0, j as int),
        decreases 32 - j,
    {
        v.push(b[j]);
        j = j + 1;
    }
    assert(v@ =~= a@ + b@);
    v
}

/// Leaf node of one leaf.
pub fn leaf_node_exec(h: &[u8; 32]) -> (r: [u8; 32])
    ensures
        r@ == leaf_node(h@),
{
    derive_key("ai-pow v1 merkle-leaf", h.as_slice())
}

/// Inner node of two children.
pub fn node_hash_exec(l: &[u8; 32], r: &[u8; 32]) -> (o: [u8; 32])
    ensures
        o@ == node_hash(l@, r@),
{
    let buf = concat32(l, r);
    derive_key("ai-pow v1 merkle-node", buf.as_slice())
}

/// The padding node.
pub fn sentinel_exec() -> (r: [u8; 32])
    ensures
        r@ == sentinel_node(),
{
    let empty: Vec<u8> = Vec::new();
    assert(empty@ =~= Seq::<u8>::empty());
    derive_key("ai-pow v1 merkle-sentinel", empty.as_slice())
}

/// Smallest power of two that is at least `n`.
pub fn next_pow2(n: usize) -> (r: usize)
    requires
        2 * n <= usize::MAX,
    ensures
        r == pow2_from(1, n as nat),
        n <= r,
        r >= 1,
        r <= 2 * n || n == 0,
{
    let mut t: usize = 1;
    while t < n
        invariant
            t >= 1,
            2 * n <= usize::MAX,
            t <= 2 * n || n == 0,
            pow2_from(t as nat, n as nat) == pow2_from(1, n as nat),
        decreases 2 * n - t,
    {
        t = t * 2;
    }
    t
}

/// Merkle root of a non-empty list of 32-byte leaves.
pub fn merkle_root(leaves: &[[u8; 32]]) -> (r: [u8; 32])
    requires
        leaves@.len() >= 1,
        2 * leaves@.len() <= usize::MAX,
    ensures
        r@ == merkle_root_spec(views32(leaves@)),
{
    let n = leaves.len();
    let p = next_pow2(n);
    let ghost lv = views32(leaves@);
    let sent = sentinel_exec();
    let mut level: Vec<[u8; 32]> = Vec::new();
    let mut i: usize = 0;
    while i < p
        invariant
            i <= p,
            n == leaves@.len(),
            lv == views32(leaves@),
            sent@ == sentinel_node(),
            level@.len() == i,
            forall|e: int| 0 <= e < i ==> level@[e]@ == padded_level(lv, p as nat)[e],
        decreases p - i,
    {
        if i < n {
            level.push(leaf_node_exec(&leaves[i]));
        } else {
            level.push(sent);
        }
        i = i + 1;
    }
    let ghost target = tree_root(padded_level(lv, p as nat));
    assert(views32(level@) =~= padded_level(lv, p as nat));
    while level.len() > 1
        invariant
            level@.len() >= 1,
            tree_root(views32(level@)) == target,
        decreases level@.len(),
    {
        let ghost cur = views32(level@);
        let llen = level.len();
        let half = llen / 2;
        let mut next: Vec<[u8; 32]> = Vec::new();
        let mut j: usize = 0;
        while j < half
            invariant
                llen == level@.len(),
                j <= half,
                half == level@.len() / 2,
                cur == views32(level@),
                next@.len() == j,
                forall|e: int| 0 <= e < j ==> next@[e]@ == pair_up(cur)[e],
            decreases half - j,
        {
            let h = node_hash_exec(&level[2 * j], &level[2 * j + 1]);
            next.push(h);
            j = j + 1;
        }
        assert(views32(next@) =~= pair_up(cur));
        level = next;
    }
    level[0]
}

#[derive(Debug, Clone, Copy, PartialEq, Eq)]
pub enum MerkleError {
    Empty,
    IndexOutOfRange,
    PathLengthMismatch,
}

/// `n` is a power of two.
pub open spec fn is_pow2(n: nat) -> bool
    decreases n,
{
    if n == 1 {
        true
    } else if n == 0 || n % 2 != 0 {
        false
    } else {
        is_pow2(n / 2)
    }
}

/// Number of halvings from `p` down to one.
pub open spec fn depth(p: nat) -> nat
    decreases p,
{
    if p <= 1 { 0 } else { 1 + depth(p / 2) }
}

/// Index of the sibling of node `i`.
pub open spec fn sibling(i: int) -> int {
    if i % 2 == 0 { i + 1 } else { i - 1 }
}

/// Sibling nodes from `level` up to the root for the node at `idx`.
pub open spec fn path_from(level: Seq<Seq<u8>>, idx: int) -> Seq<Seq<u8>>
    decreases level.len(),
{
    if level.len() <= 1 {
        Seq::empty()
    } else {
        seq![level[sibling(idx)]] + path_from(pair_up(level), idx / 2)
    }
}

/// Fold a sibling path onto a node at index `idx`.
pub open spec fn recover(node: Seq<u8>, idx: int, path: Seq<Seq<u8>>) -> Seq<u8>
    decreases path.len(),
{
    if path.len() == 0 {
        node
    } else {
        let parent = if idx % 2 == 0 { node_hash(node, path[0]) } else { node_hash(path[0], node) };
        recover(parent, idx / 2, path.drop_first())
    }
}

/// The authentication path of leaf `idx`.
pub open spec fn merkle_path_spec(leaves: Seq<Seq<u8>>, idx: int) -> Seq<Seq<u8>> {
    path_from(padded_level(leaves, pow2_from(1, leaves.len())), idx)
}

pub proof fn lemma_pow2_from(t: nat, n: nat)
    requires
        is_pow2(t),
    ensures
        is_pow2(pow2_from(t, n)),
        pow2_from(t, n) >= n,
        pow2_from(t, n) >= t,
    decreases (if t >= n { 0int } else { n - t }),
{
    if t > 0 && t < n {
        assert(is_pow2(2 * t)) by {
            assert((2 * t) / 2 == t);
        }
        lemma_pow2_from(2 * t, n);
    }
}

/// Walking a node's path up a power-of-two level gives the level's root.
pub proof fn lemma_recover_path(level: Seq<Seq<u8>>, idx: int)
    requires
        is_pow2(level.len()),
        0 <= idx < level.len(),
    ensures
        recover(level[idx], idx, path_from(level, idx)) == tree_root(level),
        path_from(level, idx).len() == depth(level.len()),
    decreases level.len(),
{
    if level.len() > 1 {
        let up = pair_up(level);
        let p = path_from(level, idx);
        assert(level.len() % 2 == 0);
        assert(up.len() == level.len() / 2);
        assert(is_pow2(up.len()));
        assert(0 <= idx / 2 < up.len());
        lemma_recover_path(up, idx / 2);
        assert(p.drop_first() =~= path_from(up, idx / 2));
        if idx % 2 == 0 {
            assert(sibling(idx) == 2 * (idx / 2) + 1);
            assert(idx == 2 * (idx / 2));
        } else {
            assert(sibling(idx) == 2 * (idx / 2));
            assert(idx == 2 * (idx / 2) + 1);
        }
    }
}

/// The authentication path of any leaf recovers the Merkle root of the
/// leaves, and it has one entry per tree level.
pub proof fn lemma_merkle_path_recovers_root(leaves: Seq<Seq<u8>>, idx: int)
    requires
        0 <= idx < leaves.len(),
    ensures
        recover(leaf_node(leaves[idx]), idx, merkle_path_spec(leaves, idx)) == merkle_root_spec(leaves),
        merkle_path_spec(leaves, idx).len() == depth(pow2_from(1, leaves.len())),
{
    lemma_pow2_from(1, leaves.len());
    let lv = padded_level(leaves, pow2_from(1, leaves.len()));
    lemma_recover_path(lv, idx);
}

/// Leaf nodes padded with sentinels to the next power of two.
fn padded_level_exec(leaves: &[[u8; 32]]) -> (r: Vec<[u8; 32]>)
    requires
        leaves@.len() >= 1,
        2 * leaves@.len() <= usize::MAX,
    ensures
        views32(r@) == padded_level(views32(leaves@), pow2_from(1, leaves@.len())),
{
    let n = leaves.len();
    let p = next_pow2(n);
    let ghost lv = views32(leaves@);
    let sent = sentinel_exec();
    let mut level: Vec<[u8; 32]> = Vec::new();
    let mut i: usize = 0;
    while i < p
        invariant
            i <= p,
            n == leaves@.len(),
            lv == views32(leaves@),
            sent@ == sentinel_node(),
            level@.len() == i,
            forall|e: int| 0 <= e < i ==> level@[e]@ == padded_level(lv, p as nat)[e],
        decreases p - i,
    {
        if i < n {
            level.push(leaf_node_exec(&leaves[i]));
        } else {
            level.push(sent);
        }
        i = i + 1;
    }
    assert(views32(level@) =~= padded_level(lv, p as nat));
    level
}

/// One level up.
fn pair_up_exec(level: &Vec<[u8; 32]>) -> (r: Vec<[u8; 32]>)
    ensures
        views32(r@) == pair_up(views32(level@)),
{
    let ghost cur = views32(level@);
    let llen = level.len();
    let half = llen / 2;
    let mut next: Vec<[u8; 32]> = Vec::new();
    let mut j: usize = 0;
    while j < half
        invariant
            llen == level@.len(),
            j <= half,
            half == level@.len() / 2,
            cur == views32(level@),
            next@.len() == j,
            forall|e: int| 0 <= e < j ==> next@[e]@ == pair_up(cur)[e],
        decreases half - j,
    {
        let h = node_hash_exec(&level[2 * j], &level[2 * j + 1]);
        next.push(h);
        j = j + 1;
    }
    assert(views32(next@) =~= pair_up(cur));
    next
}

/// Authentication path of leaf `index`: the sibling node at every level
/// from the padded leaf level up to (not including) the root.
pub fn merkle_path(leaves: &[[u8; 32]], index: usize) -> (r: Result<Vec<[u8; 32]>, MerkleError>)
    requires
        2 * leaves@.len() <= usize::MAX,
    ensures
        leaves@.len() == 0 ==> r == Err::<Vec<[u8; 32]>, MerkleError>(MerkleError::Empty),
        leaves@.len() > 0 && index >= leaves@.len() ==> r == Err::<Vec<[u8; 32]>, MerkleError>(MerkleError::IndexOutOfRange),
        index < leaves@.len() ==> r is Ok && views32(r->Ok_0@) == merkle_path_spec(views32(leaves@), index as int),
{
    if leaves.len() == 0 {
        return Err(MerkleError::Empty);
    }
    if index >= leaves.len() {
        return Err(MerkleError::IndexOutOfRange);
    }
    let mut level = padded_level_exec(leaves);
    let ghost full = views32(level@);
    proof {
        lemma_pow2_from(1, leaves@.len());
    }
    let mut idx = index;
    let mut path: Vec<[u8; 32]> = Vec::new();
    assert(views32(path@) =~= Seq::<Seq<u8>>::empty());
    assert(views32(path@) + path_from(views32(level@), idx as int) =~= path_from(full, index as int));
    while level.len() > 1
        invariant
            level@.len() >= 1,
            is_pow2(level@.len()),
            idx < level@.len(),
            views32(path@) + path_from(views32(level@), idx as int) == path_from(full, index as int),
        decreases level@.len(),
    {
        let ghost cur = views32(level@);
        let ghost old_path = views32(path@);
        assert(level@.len() % 2 == 0);
        let sib = if idx % 2 == 0 { idx + 1 } else { idx - 1 };
        assert(sib == sibling(idx as int));
        path.push(level[sib]);
        let next = pair_up_exec(&level);
        proof {
            assert(views32(path@) =~= old_path.push(cur[sibling(idx as int)]));
            assert(path_from(cur, idx as int) == seq![cur[sibling(idx as int)]] + path_from(pair_up(cur), (idx / 2) as int));
            assert(views32(path@) + path_from(pair_up(cur), (idx / 2) as int) =~= old_path + path_from(cur, idx as int));
            assert(is_pow2(pair_up(cur).len()));
        }
        level = next;
        idx = idx / 2;
    }
    proof {
        assert(path_from(views32(level@), idx as int) =~= Seq::<Seq<u8>>::empty());
        assert(views32(path@) =~= path_from(full, index as int));
    }
    Ok(path)
}

/// Number of halvings from `p` down to one.
fn depth_exec(p: usize) -> (r: usize)
    ensures
        r == depth(p as nat),
{
    let mut q = p;
    let mut d: usize = 0;
    while q > 1
        invariant
            d + depth(q as nat) == depth(p as nat),
            d <= p - q,
            q <= p,
        decreases q,
    {
        q = q / 2;
        d = d + 1;
    }
    d
}

/// Recompute the root from a leaf, its index, and its authentication path
/// in a tree of `total` leaves.
pub fn merkle_recover_root(leaf: &[u8; 32], index: usize, path: &[[u8; 32]], total: usize) -> (r: Result<[u8; 32], MerkleError>)
    requires
        2 * total <= usize::MAX,
    ensures
        total == 0 ==> r == Err::<[u8; 32], MerkleError>(MerkleError::Empty),
        total > 0 && index >= total ==> r == Err::<[u8; 32], MerkleError>(MerkleError::IndexOutOfRange),
        index < total && path@.len() != depth(pow2_from(1, total as nat))
            ==> r == Err::<[u8; 32], MerkleError>(MerkleError::PathLengthMismatch),
        index < total && path@.len() == depth(pow2_from(1, total as nat))
            ==> r is Ok && r->Ok_0@ == recover(leaf_node(leaf@), index as int, views32(path@)),
{
    if total == 0 {
        return Err(MerkleError::Empty);
    }
    if index >= total {
        return Err(MerkleError::IndexOutOfRange);
    }
    let p = next_pow2(total);
    let d = depth_exec(p);
    if path.len() != d {
        return Err(MerkleError::PathLengthMismatch);
    }
    let ghost pv = views32(path@);
    let ghost goal = recover(leaf_node(leaf@), index as int, pv);
    let mut node = leaf_node_exec(leaf);
    let mut idx = index;
    let n = path.len();
    let mut k: usize = 0;
    assert(pv.subrange(0, n as int) =~= pv);
    while k < n
        invariant
            k <= n,
            n == path@.len(),
            pv == views32(path@),
            recover(node@, idx as int, pv.subrange(k as int, n as int)) == goal,
        decreases n - k,
    {
        let ghost rest = pv.subrange(k as int, n as int);
        let sib = path[k];
        if idx % 2 == 0 {
            node = node_hash_exec(&node, &sib);
        } else {
            node = node_hash_exec(&sib, &node);
        }
        proof {
            assert(rest.drop_first() =~= pv.subrange(k + 1, n as int));
        }
        idx = idx / 2;
        k = k + 1;
    }
    Ok(node)
}

} // verus!
