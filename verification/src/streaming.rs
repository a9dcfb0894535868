//! Streaming weight-tile Merkle root: bytes arrive in chunks of any size,
//! complete 64-byte tiles are hashed as soon as they are full, and the tree
//! is kept as a stack of perfect subtrees. The root it finalizes to is the
//! root that the one-shot computation gives for the concatenated stream.
use vstd::prelude::*;
use crate::comm_w::{tile_hash, tile_hash_spec, padded_tile, num_weight_tiles, weight_leaves, weights_root_spec,
    manifest_hash, manifest_hash_spec, combine_comm_w, comm_w_spec, canonical_bytes_spec};
use crate::hashing::blake3_derive_key;
use crate::model::Model;
use crate::merkle::{leaf_node, node_hash, sentinel_node, tree_root, pair_up, padded_level, pow2_from,
    merkle_root_spec, is_pow2, depth, leaf_node_exec, node_hash_exec, sentinel_exec, lemma_pow2_from};

verus! {

broadcast use vstd::array::group_array_axioms;

/// `2^l`.
pub open spec fn p2(l: nat) -> nat
    decreases l,
{
    if l == 0 { 1 } else { 2 * p2((l - 1) as nat) }
}

proof fn lemma_p2_pos(l: nat)
    ensures
        p2(l) >= 1,
    decreases l,
{
    if l > 0 {
        lemma_p2_pos((l - 1) as nat);
    }
}

proof fn lemma_p2_strict(a: nat, b: nat)
    requires
        a < b,
    ensures
        p2(a) < p2(b),
    decreases b,
{
    lemma_p2_pos(a);
    if a + 1 < b {
        lemma_p2_strict(a, (b - 1) as nat);
    }
}

proof fn lemma_p2_of_pow2(n: nat)
    requires
        is_pow2(n),
    ensures
        n == p2(depth(n)),
    decreases n,
{
    if n != 1 {
        lemma_p2_of_pow2(n / 2);
    }
}

/// Leaf nodes of the complete tiles of `b`.
pub open spec fn full_nodes(b: Seq<u8>) -> Seq<Seq<u8>> {
    Seq::new(b.len() / 64, |t: int| leaf_node(tile_hash_spec(b.subrange(64 * t, 64 * t + 64))))
}

/// Number of leaves covered by a stack of subtrees.
pub open spec fn span(st: Seq<(u32, [u8; 32])>) -> nat
    decreases st.len(),
{
    if st.len() == 0 {
        0
    } else {
        span(st.drop_last()) + p2(st.last().0 as nat)
    }
}

/// The stack holds the roots of consecutive perfect subtrees over `nodes`,
/// bottom first, with strictly decreasing heights (the top may equal the one
/// below when `strict` is false).
pub open spec fn stack_ok(st: Seq<(u32, [u8; 32])>, nodes: Seq<Seq<u8>>, strict: bool) -> bool
    decreases st.len(),
{
    if st.len() == 0 {
        nodes.len() == 0
    } else {
        let d = st.drop_last();
        let n0 = span(d);
        &&& nodes.len() == n0 + p2(st.last().0 as nat)
        &&& stack_ok(d, nodes.take(n0 as int), true)
        &&& st.last().1@ == tree_root(nodes.skip(n0 as int))
        &&& d.len() > 0 ==> (if strict { d.last().0 > st.last().0 } else { d.last().0 >= st.last().0 })
    }
}

proof fn lemma_tree_root_split(a: Seq<Seq<u8>>, b: Seq<Seq<u8>>, l: nat)
    requires
        a.len() == p2(l),
        b.len() == p2(l),
    ensures
        tree_root(a + b) == node_hash(tree_root(a), tree_root(b)),
    decreases l,
{
    if l == 0 {
        let x = node_hash(a[0], b[0]);
        assert(pair_up(a + b) =~= seq![x]);
        assert(tree_root(seq![x]) == x);
        assert(tree_root(a + b) == tree_root(pair_up(a + b)));
    } else {
        lemma_p2_pos((l - 1) as nat);
        assert(pair_up(a + b) =~= pair_up(a) + pair_up(b));
        lemma_tree_root_split(pair_up(a), pair_up(b), (l - 1) as nat);
        assert(tree_root(a + b) == tree_root(pair_up(a + b)));
        assert(tree_root(a) == tree_root(pair_up(a)));
        assert(tree_root(b) == tree_root(pair_up(b)));
    }
}

proof fn lemma_stack_len(st: Seq<(u32, [u8; 32])>, nodes: Seq<Seq<u8>>, strict: bool)
    requires
        stack_ok(st, nodes, strict),
    ensures
        nodes.len() == span(st),
{
}

proof fn lemma_push_leaf(st: Seq<(u32, [u8; 32])>, nodes: Seq<Seq<u8>>, h: [u8; 32])
    requires
        stack_ok(st, nodes, true),
    ensures
        stack_ok(st.push((0u32, h)), nodes.push(h@), false),
{
    lemma_stack_len(st, nodes, true);
    let s2 = st.push((0u32, h));
    assert(s2.drop_last() =~= st);
    assert(nodes.push(h@).take(nodes.len() as int) =~= nodes);
    assert(nodes.push(h@).skip(nodes.len() as int) =~= seq![h@]);
}

proof fn lemma_level_bound(l: nat, n: nat)
    requires
        p2(l) <= n,
        n <= 0x1_0000_0000_0000_0000,
    ensures
        l <= 64,
{
    if l > 64 {
        assert(p2(65) == 0x2_0000_0000_0000_0000) by {
            reveal_with_fuel(p2, 66);
        }
        if l > 65 {
            lemma_p2_strict(65, l);
        }
    }
}

proof fn lemma_merge(st: Seq<(u32, [u8; 32])>, all: Seq<Seq<u8>>, h: [u8; 32])
    requires
        stack_ok(st, all, false),
        st.len() >= 2,
        st[st.len() - 1].0 == st[st.len() - 2].0,
        all.len() <= 0x1_0000_0000_0000_0000,
        h@ == node_hash(st[st.len() - 2].1@, st[st.len() - 1].1@),
    ensures
        st[st.len() - 1].0 < 64,
        stack_ok(st.drop_last().drop_last().push(((st[st.len() - 1].0 + 1) as u32, h)), all, false),
{
    reveal_with_fuel(stack_ok, 2);
    let d = st.drop_last();
    let e = d.drop_last();
    let a = d.last();
    let b = st.last();
    let l = b.0 as nat;
    let ne = span(e);
    let nd = span(d);
    assert(nd == ne + p2(l));
    lemma_level_bound(l + 1, all.len());
    let s2 = e.push(((l + 1) as u32, h));
    assert(s2.drop_last() =~= e);
    assert(all.take(nd as int).take(ne as int) =~= all.take(ne as int));
    let x = all.take(nd as int).skip(ne as int);
    let y = all.skip(nd as int);
    assert(x + y =~= all.skip(ne as int));
    lemma_tree_root_split(x, y, l);
}

/// The bottom subtree covers the first `2^height` nodes.
proof fn lemma_bottom(st: Seq<(u32, [u8; 32])>, nodes: Seq<Seq<u8>>, strict: bool)
    requires
        stack_ok(st, nodes, strict),
        st.len() >= 1,
    ensures
        nodes.len() >= p2(st[0].0 as nat),
        st[0].1@ == tree_root(nodes.take(p2(st[0].0 as nat) as int)),
    decreases st.len(),
{
    let d = st.drop_last();
    if st.len() == 1 {
        assert(nodes.skip(0) =~= nodes.take(p2(st[0].0 as nat) as int));
    } else {
        let n0 = span(d);
        lemma_bottom(d, nodes.take(n0 as int), true);
        assert(d[0] == st[0]);
        assert(nodes.take(n0 as int).take(p2(st[0].0 as nat) as int) =~= nodes.take(p2(st[0].0 as nat) as int));
    }
}

/// Strictly decreasing heights cover less than twice the bottom subtree.
proof fn lemma_span_bound(st: Seq<(u32, [u8; 32])>, nodes: Seq<Seq<u8>>)
    requires
        stack_ok(st, nodes, true),
        st.len() >= 1,
    ensures
        span(st) + p2(st.last().0 as nat) <= p2((st[0].0 + 1) as nat),
    decreases st.len(),
{
    let d = st.drop_last();
    if st.len() > 1 {
        let n0 = span(d);
        lemma_span_bound(d, nodes.take(n0 as int));
        assert(d[0] == st[0]);
        let t = st.last().0 as nat;
        let u = d.last().0 as nat;
        if t + 1 < u {
            lemma_p2_strict(t + 1, u);
        }
    }
}

fn push_node(stack: &mut Vec<(u32, [u8; 32])>, h: [u8; 32], Ghost(nodes): Ghost<Seq<Seq<u8>>>)
    requires
        stack_ok(old(stack)@, nodes, true),
        nodes.len() + 1 <= 0x1_0000_0000_0000_0000,
    ensures
        stack_ok(final(stack)@, nodes.push(h@), true),
{
    proof {
        lemma_push_leaf(stack@, nodes, h);
    }
    stack.push((0u32, h));
    let ghost all = nodes.push(h@);
    while stack.len() >= 2
        invariant
            stack_ok(stack@, all, false),
            all.len() <= 0x1_0000_0000_0000_0000,
        ensures
            stack_ok(stack@, all, true),
        decreases stack.len(),
    {
        let top = stack.len() - 1;
        if stack[top].0 != stack[top - 1].0 {
            break;
        }
        let ghost st = stack@;
        let left = stack[top - 1].1;
        let right = stack[top].1;
        let lv = stack[top].0;
        let nh = node_hash_exec(&left, &right);
        proof {
            lemma_merge(st, all, nh);
        }
        stack.pop();
        stack.pop();
        stack.push((lv + 1, nh));
        proof {
            assert(stack@ =~= st.drop_last().drop_last().push(((lv + 1) as u32, nh)));
        }
    }
}

/// Incremental tile-Merkle root over a byte stream.
pub struct StreamingMerkle {
    stack: Vec<(u32, [u8; 32])>,
    tile_buf: Vec<u8>,
    n_leaves: u64,
    finalized: bool,
    data: Ghost<Seq<u8>>,
}

impl View for StreamingMerkle {
    type V = Seq<u8>;

    /// The bytes fed so far.
    closed spec fn view(&self) -> Seq<u8> {
        self.data@
    }
}

impl StreamingMerkle {
    /// Internal consistency: the buffer holds the incomplete last tile, the
    /// stack the subtrees over the complete ones.
    pub closed spec fn wf(&self) -> bool {
        let b = self.data@;
        &&& b.len() <= u64::MAX
        &&& self.tile_buf@.len() < 64
        &&& self.tile_buf@ == b.skip((64 * (b.len() / 64)) as int)
        &&& self.n_leaves == b.len() / 64
        &&& stack_ok(self.stack@, full_nodes(b), true)
        &&& !self.finalized
    }

    /// An empty stream.
    pub fn new() -> (r: Self)
        ensures
            r.wf(),
            r@ == Seq::<u8>::empty(),
    {
        let r = StreamingMerkle {
            stack: Vec::new(),
            tile_buf: Vec::new(),
            n_leaves: 0,
            finalized: false,
            data: Ghost(Seq::<u8>::empty()),
        };
        proof {
            assert(full_nodes(Seq::<u8>::empty()) =~= Seq::<Seq<u8>>::empty());
            assert(Seq::<u8>::empty().skip(0) =~= Seq::<u8>::empty());
        }
        r
    }

    /// Hash one complete tile `b'[64q .. 64q + 64]` where `b'` is the stream
    /// after the tile's last byte.
    fn add_tile(&mut self, tile: &[u8], Ghost(b2): Ghost<Seq<u8>>)
        requires
            stack_ok(old(self).stack@, full_nodes(old(self).data@), true),
            old(self).data@.len() % 64 == 0,
            b2.len() == old(self).data@.len() + 64,
            b2.len() <= u64::MAX,
            b2.take(old(self).data@.len() as int) == old(self).data@,
            tile@ == b2.skip(old(self).data@.len() as int),
            old(self).n_leaves == old(self).data@.len() / 64,
        ensures
            stack_ok(final(self).stack@, full_nodes(b2), true),
            final(self).data@ == b2,
            final(self).n_leaves == b2.len() / 64,
            final(self).tile_buf == old(self).tile_buf,
            final(self).finalized == old(self).finalized,
    {
        let ghost b = self.data@;
        let th = tile_hash(tile);
        let leaf = leaf_node_exec(&th);
        proof {
            let q = (b.len() / 64) as int;
            assert(b2.subrange(64 * q, 64 * q + 64) =~= tile@);
            assert forall|t: int| 0 <= t < q implies #[trigger] b2.subrange(64 * t, 64 * t + 64) =~= b.subrange(64 * t, 64 * t + 64) by {
                assert(b2.take(b.len() as int)[64 * t] == b2[64 * t]);
            }
            assert(full_nodes(b2) =~= full_nodes(b).push(leaf@));
        }
        push_node(&mut self.stack, leaf, Ghost(full_nodes(b)));
        self.n_leaves = self.n_leaves + 1;
        self.data = Ghost(b2);
    }

    /// Feed more bytes.
    pub fn update(&mut self, data: &[u8])
        requires
            old(self).wf(),
            old(self)@.len() + data@.len() <= u64::MAX,
        ensures
            final(self).wf(),
            final(self)@ == old(self)@ + data@,
    {
        let ghost b0 = self.data@;
        let dlen = data.len();
        let mut offset: usize = 0;
        if self.tile_buf.len() > 0 {
            let need = 64 - self.tile_buf.len();
            let take = if need < dlen { need } else { dlen };
            let ghost bq = b0.take((64 * (b0.len() / 64)) as int);
            let mut k: usize = 0;
            while k < take
                invariant
                    k <= take,
                    take <= dlen,
                    dlen == data@.len(),
                    take + old(self).tile_buf@.len() <= 64,
                    self.tile_buf@ == old(self).tile_buf@ + data@.take(k as int),
                    self.stack == old(self).stack,
                    self.n_leaves == old(self).n_leaves,
                    self.data == old(self).data,
                    self.finalized == old(self).finalized,
                decreases take - k,
            {
                self.tile_buf.push(data[k]);
                proof {
                    assert(data@.take(k + 1) =~= data@.take(k as int).push(data@[k as int]));
                }
                k = k + 1;
            }
            offset = take;
            let ghost b1 = b0 + data@.take(take as int);
            proof {
                assert(self.tile_buf@ =~= b1.skip((64 * (b0.len() / 64)) as int));
            }
            if self.tile_buf.len() == 64 {
                let ghost q = (b0.len() / 64) as int;
                proof {
                    assert(b1.take(64 * q) =~= bq);
                    assert(bq.len() % 64 == 0);
                    assert(bq.skip((64 * (bq.len() / 64)) as int) =~= Seq::<u8>::empty());
                    assert(full_nodes(bq) =~= full_nodes(b0)) by {
                        assert forall|t: int| 0 <= t < q implies #[trigger] bq.subrange(64 * t, 64 * t + 64) =~= b0.subrange(64 * t, 64 * t + 64) by {
                            assert(bq[64 * t] == b0[64 * t]);
                        }
                    }
                    assert(b1.take(bq.len() as int) =~= bq);
                    assert(self.tile_buf@ =~= b1.skip(bq.len() as int));
                }
                let mut buf: Vec<u8> = Vec::new();
                std::mem::swap(&mut buf, &mut self.tile_buf);
                self.data = Ghost(bq);
                self.add_tile(buf.as_slice(), Ghost(b1));
                proof {
                    assert(b1.skip((64 * (b1.len() / 64)) as int) =~= Seq::<u8>::empty());
                }
            } else {
                self.data = Ghost(b1);
                proof {
                    assert(full_nodes(b1) =~= full_nodes(b0)) by {
                        assert forall|t: int| 0 <= t < b0.len() / 64 implies #[trigger] b1.subrange(64 * t, 64 * t + 64) =~= b0.subrange(64 * t, 64 * t + 64) by {
                            assert(b1[64 * t] == b0[64 * t]);
                        }
                    }
                }
            }
        }
        while dlen - offset >= 64
            invariant
                offset <= dlen,
                dlen == data@.len(),
                b0.len() + dlen <= u64::MAX,
                self.data@ == b0 + data@.take(offset as int),
                self.tile_buf@.len() < 64,
                self.tile_buf@ == self.data@.skip((64 * (self.data@.len() / 64)) as int),
                self.n_leaves == self.data@.len() / 64,
                stack_ok(self.stack@, full_nodes(self.data@), true),
                !self.finalized,
                self.tile_buf@.len() == 0 || offset == dlen,
            decreases dlen - offset,
        {
            let ghost bk = self.data@;
            let chunk = vstd::slice::slice_subrange(data, offset, offset + 64);
            let ghost b2 = b0 + data@.take(offset + 64);
            proof {
                assert(b2.take(bk.len() as int) =~= bk);
                assert(chunk@ =~= b2.skip(bk.len() as int));
            }
            self.add_tile(chunk, Ghost(b2));
            offset = offset + 64;
            proof {
                assert(b2.skip((64 * (b2.len() / 64)) as int) =~= Seq::<u8>::empty());
            }
        }
        if offset < dlen {
            let ghost bk = self.data@;
            proof {
                assert(data@.subrange(offset as int, offset as int) =~= self.tile_buf@);
            }
            let mut k: usize = offset;
            while k < dlen
                invariant
                    offset <= k <= dlen,
                    dlen == data@.len(),
                    dlen - offset < 64,
                    self.tile_buf@ == data@.subrange(offset as int, k as int),
                    self.data@ == bk,
                    bk == b0 + data@.take(offset as int),
                    bk.len() % 64 == 0,
                    b0.len() + dlen <= u64::MAX,
                    self.n_leaves == bk.len() / 64,
                    stack_ok(self.stack@, full_nodes(bk), true),
                    !self.finalized,
                decreases dlen - k,
            {
                self.tile_buf.push(data[k]);
                proof {
                    assert(data@.subrange(offset as int, k + 1) =~= data@.subrange(offset as int, k as int).push(data@[k as int]));
                }
                k = k + 1;
            }
            let ghost b3 = b0 + data@;
            proof {
                assert(b3.skip((64 * (b3.len() / 64)) as int) =~= data@.subrange(offset as int, dlen as int));
                assert(full_nodes(b3) =~= full_nodes(bk)) by {
                    assert forall|t: int| 0 <= t < bk.len() / 64 implies #[trigger] b3.subrange(64 * t, 64 * t + 64) =~= bk.subrange(64 * t, 64 * t + 64) by {
                        assert(b3[64 * t] == bk[64 * t]);
                    }
                }
            }
            self.data = Ghost(b3);
        } else {
            proof {
                assert(data@.take(offset as int) =~= data@);
            }
        }
    }
}

impl StreamingMerkle {
    /// Finish the stream: the weight-tile Merkle root of every byte fed, the
    /// same root the one-shot computation gives for the concatenation (the
    /// last partial tile zero-padded, an empty stream taken as one all-zero
    /// tile, the leaves padded with sentinels to a power of two).
    pub fn finalize(self) -> (r: [u8; 32])
        requires
            self.wf(),
        ensures
            r@ == weights_root_spec(self@),
    {
        let StreamingMerkle { mut stack, tile_buf, mut n_leaves, finalized, data } = self;
        let ghost b = data@;
        let ghost w = weight_leaves(b);
        let ghost mut nodes = full_nodes(b);
        let ghost q = (b.len() / 64) as int;
        proof {
            assert forall|t: int| 0 <= t < q implies #[trigger] padded_tile(b, t) =~= b.subrange(64 * t, 64 * t + 64) by {}
        }
        if tile_buf.len() > 0 {
            let mut tail = [0u8; 64];
            let tl = tile_buf.len();
            let mut k: usize = 0;
            while k < tl
                invariant
                    k <= tl,
                    tl == tile_buf@.len(),
                    tl < 64,
                    forall|t: int| 0 <= t < k ==> tail@[t] == tile_buf@[t],
                    forall|t: int| k <= t < 64 ==> tail@[t] == 0u8,
                decreases tl - k,
            {
                tail[k] = tile_buf[k];
                k = k + 1;
            }
            proof {
                assert(tail@ =~= padded_tile(b, q));
            }
            let th = tile_hash(tail.as_slice());
            let leaf = leaf_node_exec(&th);
            push_node(&mut stack, leaf, Ghost(nodes));
            proof {
                nodes = nodes.push(leaf@);
            }
            n_leaves = n_leaves + 1;
        }
        if n_leaves == 0 {
            let zero = [0u8; 64];
            proof {
                assert(zero@ =~= padded_tile(b, 0));
            }
            let th = tile_hash(zero.as_slice());
            let leaf = leaf_node_exec(&th);
            push_node(&mut stack, leaf, Ghost(nodes));
            proof {
                nodes = nodes.push(leaf@);
            }
            n_leaves = n_leaves + 1;
        }
        let ghost nt = nodes.len();
        proof {
            assert(nt == num_weight_tiles(b.len() as int));
            assert(nodes =~= padded_level(w, nt));
        }
        let mut target: u64 = 1;
        while target < n_leaves
            invariant
                1 <= target,
                target <= 2 * n_leaves,
                n_leaves == nt,
                nt <= 0x400_0000_0000_0000,
                is_pow2(target as nat),
                pow2_from(target as nat, nt) == pow2_from(1, nt),
            decreases 2 * n_leaves - target,
        {
            proof {
                assert(is_pow2(2 * target as nat)) by {
                    assert((2 * target as nat) / 2 == target as nat);
                }
            }
            target = target * 2;
        }
        proof {
            assert(padded_level(w, target as nat).take(nt as int) =~= padded_level(w, nt));
        }
        let sent = sentinel_exec();
        while n_leaves < target
            invariant
                nt <= n_leaves <= target,
                target <= 0x800_0000_0000_0000,
                nodes.len() == n_leaves,
                w.len() == nt,
                stack_ok(stack@, nodes, true),
                nodes == padded_level(w, target as nat).take(n_leaves as int),
                sent@ == sentinel_node(),
            decreases target - n_leaves,
        {
            push_node(&mut stack, sent, Ghost(nodes));
            proof {
                assert(padded_level(w, target as nat).take(n_leaves + 1) =~= nodes.push(sent@));
                nodes = nodes.push(sent@);
            }
            n_leaves = n_leaves + 1;
        }
        proof {
            assert(nodes =~= padded_level(w, target as nat));
            lemma_p2_of_pow2(target as nat);
            let k = depth(target as nat);
            lemma_stack_len(stack@, nodes, true);
            assert(stack@.len() >= 1);
            lemma_bottom(stack@, nodes, true);
            lemma_span_bound(stack@, nodes);
            lemma_p2_pos(stack@.last().0 as nat);
            let l0 = stack@[0].0 as nat;
            if l0 > k {
                lemma_p2_strict(k, l0);
            }
            if k > l0 {
                if k > l0 + 1 {
                    lemma_p2_strict(l0 + 1, k);
                }
            }
            assert(nodes.take(target as int) =~= nodes);
        }
        stack[0].1
    }
}

impl Default for StreamingMerkle {
    fn default() -> (r: Self)
        ensures
            r.wf(),
            r@ == Seq::<u8>::empty(),
    {
        StreamingMerkle::new()
    }
}

/// The bytes a stream that has seen `start` has seen after `update` with
/// each of `chunks` in turn (each `update` appends its chunk).
pub open spec fn after_updates(start: Seq<u8>, chunks: Seq<Seq<u8>>) -> Seq<u8>
    decreases chunks.len(),
{
    if chunks.len() == 0 {
        start
    } else {
        after_updates(start + chunks[0], chunks.drop_first())
    }
}

proof fn lemma_after_updates(start: Seq<u8>, chunks: Seq<Seq<u8>>)
    ensures
        after_updates(start, chunks) == start + chunks.flatten(),
    decreases chunks.len(),
{
    if chunks.len() == 0 {
        assert(start + chunks.flatten() =~= start);
    } else {
        lemma_after_updates(start + chunks[0], chunks.drop_first());
        assert(start + chunks[0] + chunks.drop_first().flatten() =~= start + chunks.flatten());
    }
}

/// The root of a stream does not depend on how its input was chunked: a
/// new stream fed `chunks` one `update` at a time has seen their
/// concatenation, exactly what one `update` with the concatenation feeds
/// it, so both finalize to `weights_root_spec` of the concatenation, the
/// root `weights_merkle_root` computes in one shot.
pub proof fn lemma_root_ignores_chunking(chunks: Seq<Seq<u8>>)
    ensures
        after_updates(Seq::empty(), chunks) == chunks.flatten(),
        after_updates(Seq::empty(), seq![chunks.flatten()]) == chunks.flatten(),
        weights_root_spec(after_updates(Seq::empty(), chunks))
            == weights_root_spec(after_updates(Seq::empty(), seq![chunks.flatten()])),
{
    lemma_after_updates(Seq::empty(), chunks);
    assert(Seq::<u8>::empty() + chunks.flatten() =~= chunks.flatten());
    let one = seq![chunks.flatten()];
    lemma_after_updates(Seq::empty(), one);
    assert(one.drop_first() =~= Seq::<Seq<u8>>::empty());
    assert(one.drop_first().flatten() == Seq::<u8>::empty());
    assert(one.flatten() == one.first() + one.drop_first().flatten());
    assert(one.flatten() =~= chunks.flatten());
}

/// The computing half of deriving `comm_W` from a weight file streamed
/// through `sm`: finalize the weight root and bind it to the model's
/// manifest hash. When the stream is the model's canonical weight bytes the
/// result is the model's `comm_W`.
pub fn comm_w_from_stream(sm: StreamingMerkle, model: &Model) -> (r: [u8; 32])
    requires
        sm.wf(),
    ensures
        r@ == blake3_derive_key("ai-pow-vi v1 comm-w"@, weights_root_spec(sm@) + manifest_hash_spec(*model)),
        sm@ == canonical_bytes_spec(*model) ==> r@ == comm_w_spec(*model),
{
    let weights_root = sm.finalize();
    let manifest_root = manifest_hash(model);
    combine_comm_w(&weights_root, &manifest_root)
}

} // verus!
