//! The Merkleization engine: hashing of 32-byte chunks into a binary tree
//! padded with zero subtrees, and the length mix-in.
use vstd::arithmetic::power2::{lemma_pow2_unfold, pow2};
use vstd::prelude::*;

verus! {

/// A 32-byte digest or chunk.
pub type Hash256 = [u8; 32];

/// The SHA-256 digest of a byte string.
pub uninterp spec fn sha256_of(data: Seq<u8>) -> Seq<u8>;

/// Relies on `ethereum_hashing::hash32_concat`: the SHA-256 digest of `a`
/// followed by `b`.
#[verifier::external_body]
pub(crate) fn hash_concat(a: &Hash256, b: &Hash256) -> (r: Hash256)
    ensures
        r@ == sha256_of(a@ + b@),
{
    ethereum_hashing::hash32_concat(a, b)
}

/// The largest depth that the precomputed zero-subtree table holds.
pub const ZERO_TABLE_MAX_DEPTH: usize = 48;

/// Relies on `ethereum_hashing::ZERO_HASHES`: entry `d` is the root of a
/// tree of `2^d` zero chunks, each level hashed with `hash32_concat`.
#[verifier::external_body]
fn zero_table_entry(depth: usize) -> (r: Hash256)
    requires
        depth <= ZERO_TABLE_MAX_DEPTH,
    ensures
        r@ == zero_root(depth as nat),
{
    ethereum_hashing::ZERO_HASHES[depth]
}

/// The all-zero 32-byte chunk.
pub open spec fn zero_chunk() -> Seq<u8> {
    Seq::new(32, |i: int| 0u8)
}

/// The parent of two nodes.
pub open spec fn hash_pair(left: Seq<u8>, right: Seq<u8>) -> Seq<u8> {
    sha256_of(left + right)
}

/// The root of a tree of height `depth` whose leaves are all zero chunks.
pub open spec fn zero_root(depth: nat) -> Seq<u8>
    decreases depth,
{
    if depth == 0 {
        zero_chunk()
    } else {
        hash_pair(zero_root((depth - 1) as nat), zero_root((depth - 1) as nat))
    }
}

/// The root of the subtree of height `depth` whose leftmost leaf is leaf
/// number `index * 2^depth`; leaves past the end of `leaves` are zero chunks.
pub open spec fn node_root(leaves: Seq<Seq<u8>>, depth: nat, index: nat) -> Seq<u8>
    decreases depth,
{
    if depth == 0 {
        if index < leaves.len() {
            leaves[index as int]
        } else {
            zero_chunk()
        }
    } else {
        hash_pair(
            node_root(leaves, (depth - 1) as nat, 2 * index),
            node_root(leaves, (depth - 1) as nat, 2 * index + 1),
        )
    }
}

/// The root of a tree of height `depth` over `leaves`, padded with zero chunks.
pub open spec fn merkle_root(leaves: Seq<Seq<u8>>, depth: nat) -> Seq<u8> {
    node_root(leaves, depth, 0)
}

/// The height of the smallest tree with at least `n` leaves (0 for `n <= 1`).
pub open spec fn depth_for(n: nat) -> nat
    decreases n,
{
    if n <= 1 {
        0
    } else {
        1 + depth_for((n / 2 + n % 2) as nat)
    }
}

/// The views of a sequence of chunks.
pub open spec fn chunks_view(chunks: Seq<Hash256>) -> Seq<Seq<u8>> {
    chunks.map_values(|c: Hash256| c@)
}

/// The `count` low bytes of `value`, least significant first.
pub open spec fn le_bytes(value: nat, count: nat) -> Seq<u8>
    decreases count,
{
    if count == 0 {
        Seq::empty()
    } else {
        seq![(value % 256) as u8] + le_bytes(value / 256, (count - 1) as nat)
    }
}

/// The root of `root` with a length mixed in.
pub open spec fn mixed_in_length(root: Seq<u8>, length: nat) -> Seq<u8> {
    hash_pair(root, le_bytes(length, 32))
}

pub proof fn lemma_le_bytes_len(value: nat, count: nat)
    ensures
        le_bytes(value, count).len() == count,
    decreases count,
{
    if count > 0 {
        lemma_le_bytes_len(value / 256, (count - 1) as nat);
    }
}

/// A tree of the height `depth_for(n)` has room for `n` leaves.
pub proof fn lemma_depth_for_fits(n: nat)
    ensures
        n <= pow2(depth_for(n)),
    decreases n,
{
    if n <= 1 {
        vstd::arithmetic::power2::lemma2_to64();
    } else {
        let m = (n / 2 + n % 2) as nat;
        lemma_depth_for_fits(m);
        lemma_pow2_unfold(depth_for(n));
    }
}

/// A tree of height `k` with room for `n` leaves is at least `depth_for(n)` high.
pub proof fn lemma_depth_for_bound(n: nat, k: nat)
    requires
        n <= pow2(k),
    ensures
        depth_for(n) <= k,
    decreases n,
{
    if n > 1 {
        if k == 0 {
            vstd::arithmetic::power2::lemma2_to64();
        } else {
            lemma_pow2_unfold(k);
            lemma_depth_for_bound((n / 2 + n % 2) as nat, (k - 1) as nat);
        }
    }
}

/// Returns the root of a tree of `2^depth` zero chunks.
pub fn zero_hash(depth: usize) -> (r: Hash256)
    ensures
        r@ == zero_root(depth as nat),
{
    if depth <= ZERO_TABLE_MAX_DEPTH {
        zero_table_entry(depth)
    } else {
        let mut d: usize = ZERO_TABLE_MAX_DEPTH;
        let mut z = zero_table_entry(d);
        while d < depth
            invariant
                d <= depth,
                z@ == zero_root(d as nat),
            decreases depth - d,
        {
            z = hash_concat(&z, &z);
            d = d + 1;
        }
        z
    }
}

/// Returns the height of the smallest tree with at least `n` leaves.
pub fn tree_depth(n: u64) -> (r: usize)
    ensures
        r == depth_for(n as nat),
        r <= 64,
{
    proof {
        vstd::arithmetic::power2::lemma2_to64();
        lemma_depth_for_bound(n as nat, 64);
    }
    let mut m: u64 = n;
    let mut d: usize = 0;
    while m > 1
        invariant
            depth_for(n as nat) == d + depth_for(m as nat),
            d + depth_for(m as nat) <= 64,
            m <= n,
        decreases m,
    {
        m = m / 2 + m % 2;
        d = d + 1;
    }
    d
}

/// The nodes of every level of a tree, from the leaves up; past the end of
/// a level every node is a zero subtree.
pub open spec fn layers_match(layers: Seq<Seq<Hash256>>, leaves: Seq<Seq<u8>>, count: nat) -> bool {
    &&& layers.len() == count
    &&& forall|h: nat, i: nat|
        h < count && i < layers[h as int].len() ==> (#[trigger] layers[h as int][i as int])@
            == node_root(leaves, h, i)
    &&& forall|h: nat, j: nat|
        h < count && j >= layers[h as int].len() ==> #[trigger] node_root(leaves, h, j) == zero_root(
            h,
        )
}

/// Returns the levels of the tree of height `depth` over `leaves`, from the
/// leaves up to, not including, the root.
pub fn tree_levels(leaves: &Vec<Hash256>, depth: usize) -> (r: Vec<Vec<Hash256>>)
    ensures
        layers_match(r@.map_values(|l: Vec<Hash256>| l@), chunks_view(leaves@), depth as nat),
{
    let ghost l = chunks_view(leaves@);
    let mut levels: Vec<Vec<Hash256>> = Vec::new();
    let mut layer: Vec<Hash256> = Vec::new();
    let mut k: usize = 0;
    while k < leaves.len()
        invariant
            k <= leaves@.len(),
            layer@.len() == k,
            forall|i: int| 0 <= i < k ==> #[trigger] layer@[i] == leaves@[i],
        decreases leaves@.len() - k,
    {
        layer.push(leaves[k]);
        k = k + 1;
    }
    proof {
        assert forall|j: nat| j >= layer@.len() implies #[trigger] node_root(l, 0, j) == zero_root(
            0,
        ) by {}
    }
    let mut d: usize = 0;
    while d < depth
        invariant
            d <= depth,
            levels@.len() == d,
            layers_match(levels@.map_values(|v: Vec<Hash256>| v@), l, d as nat),
            forall|i: int|
                0 <= i < layer@.len() ==> (#[trigger] layer@[i])@ == node_root(l, d as nat, i as nat),
            forall|j: nat| j >= layer@.len() ==> #[trigger] node_root(l, d as nat, j) == zero_root(d as nat),
        decreases depth - d,
    {
        let z = zero_hash(d);
        let mut next: Vec<Hash256> = Vec::new();
        let mut j: usize = 0;
        while j < layer.len()
            invariant
                j <= layer@.len(),
                j % 2 == 0 || j == layer@.len(),
                next@.len() == (j + 1) / 2,
                z@ == zero_root(d as nat),
                forall|i: int|
                    0 <= i < layer@.len() ==> (#[trigger] layer@[i])@ == node_root(l, d as nat, i as nat),
                forall|q: nat| q >= layer@.len() ==> #[trigger] node_root(l, d as nat, q) == zero_root(d as nat),
                forall|i: int|
                    0 <= i < next@.len() ==> (#[trigger] next@[i])@ == node_root(
                        l,
                        (d + 1) as nat,
                        i as nat,
                    ),
            decreases layer@.len() - j,
        {
            let ghost slot = next@.len();
            if layer.len() - j >= 2 {
                let h = hash_concat(&layer[j], &layer[j + 1]);
                next.push(h);
                j = j + 2;
            } else {
                assert(node_root(l, d as nat, (j + 1) as nat) == zero_root(d as nat));
                let h = hash_concat(&layer[j], &z);
                next.push(h);
                j = j + 1;
            }
            assert(next@[slot as int]@ == node_root(l, (d + 1) as nat, slot));
        }
        let ghost prev_len = layer@.len();
        let ghost prev_d = d as nat;
        let ghost prev_levels = levels@.map_values(|v: Vec<Hash256>| v@);
        let ghost prev_layer = layer@;
        assert(forall|q: nat| q >= prev_len ==> #[trigger] node_root(l, prev_d, q) == zero_root(prev_d));
        let old_layer = layer;
        layer = next;
        levels.push(old_layer);
        d = d + 1;
        proof {
            let views = levels@.map_values(|v: Vec<Hash256>| v@);
            assert(views =~= prev_levels.push(prev_layer));
            assert forall|q: nat| q >= layer@.len() implies #[trigger] node_root(l, d as nat, q)
                == zero_root(d as nat) by {
                assert(node_root(l, prev_d, 2 * q) == zero_root(prev_d));
                assert(node_root(l, prev_d, 2 * q + 1) == zero_root(prev_d));
            }
        }
    }
    levels
}

/// Returns the root of the tree of height `depth` over `leaves`, padded with
/// zero chunks.
pub fn merkleize(leaves: &Vec<Hash256>, depth: usize) -> (r: Hash256)
    ensures
        r@ == merkle_root(chunks_view(leaves@), depth as nat),
{
    let ghost l = chunks_view(leaves@);
    if depth == 0 {
        if leaves.len() == 0 {
            zero_hash(0)
        } else {
            assert(l[0] == leaves@[0]@);
            leaves[0]
        }
    } else {
        let levels = tree_levels(leaves, depth);
        let ghost views = levels@.map_values(|v: Vec<Hash256>| v@);
        let top = &levels[depth - 1];
        assert(top@ == views[depth - 1]);
        let left = if top.len() > 0 {
            assert(views[depth - 1][0] == top@[0]);
            top[0]
        } else {
            zero_hash(depth - 1)
        };
        let right = if top.len() > 1 {
            assert(views[depth - 1][1] == top@[1]);
            top[1]
        } else {
            zero_hash(depth - 1)
        };
        assert(left@ == node_root(l, (depth - 1) as nat, 0));
        assert(right@ == node_root(l, (depth - 1) as nat, 1));
        hash_concat(&left, &right)
    }
}

/// Returns `hash(root || length as 32 little-endian bytes)`.
pub fn mix_in_length(root: &Hash256, length: u64) -> (r: Hash256)
    ensures
        r@ == mixed_in_length(root@, length as nat),
{
    let mut buf: Hash256 = [0u8; 32];
    let mut v: u64 = length;
    let mut i: usize = 0;
    while i < 32
        invariant
            i <= 32,
            buf@.len() == 32,
            le_bytes(length as nat, 32) == buf@.subrange(0, i as int) + le_bytes(
                v as nat,
                (32 - i) as nat,
            ),
        decreases 32 - i,
    {
        let ghost before = buf@;
        buf[i] = (v % 256) as u8;
        proof {
            assert(buf@.subrange(0, i + 1) == before.subrange(0, i as int) + seq![(v % 256) as u8]);
        }
        v = v / 256;
        i = i + 1;
    }
    assert(buf@.subrange(0, 32) == buf@);
    hash_concat(root, &buf)
}

} // verus!
