//! Generalized indices and Merkle proofs: the sibling roots that lead from a
//! node of a tree up to its root.
use crate::merkle::{
    chunks_view, hash_concat, hash_pair, layers_match, merkle_root, node_root, tree_levels,
    zero_hash, Hash256,
};
use crate::element::SszElement;
use crate::tree_hash::{leaf_limit, packed_position, packed_position_of, tree_hash_leaf_limit};
use vstd::arithmetic::power2::{lemma_pow2_unfold, pow2};
use vstd::prelude::*;

verus! {

/// Returned when a proof is asked for a node that is not in the tree.
#[derive(PartialEq, Eq, Structural, Debug, Clone, Copy)]
pub enum ProofError {
    /// The generalized index is 0 or lies below the tree's leaves.
    InvalidIndex(u64),
}

/// The depth of generalized index `g`: `floor(log2(g))`.
pub open spec fn gindex_level(g: nat) -> nat
    decreases g,
{
    if g <= 1 {
        0
    } else {
        1 + gindex_level(g / 2)
    }
}

/// The sibling roots from the node `index` of height `height` up to the
/// root of a tree of height `depth`.
pub open spec fn proof_path(leaves: Seq<Seq<u8>>, depth: nat, height: nat, index: nat) -> Seq<
    Seq<u8>,
>
    decreases depth - height,
{
    if height >= depth {
        Seq::empty()
    } else {
        let sibling = if index % 2 == 0 {
            index + 1
        } else {
            (index - 1) as nat
        };
        seq![node_root(leaves, height, sibling)] + proof_path(
            leaves,
            depth,
            height + 1,
            index / 2,
        )
    }
}

/// The root that `node`, at position `index` of its level, and the sibling
/// roots of `proof` hash up to.
pub open spec fn recombine(node: Seq<u8>, index: nat, proof: Seq<Seq<u8>>) -> Seq<u8>
    decreases proof.len(),
{
    if proof.len() == 0 {
        node
    } else {
        let parent = if index % 2 == 0 {
            hash_pair(node, proof[0])
        } else {
            hash_pair(proof[0], node)
        };
        recombine(parent, index / 2, proof.drop_first())
    }
}

/// A proof hashes the node it was made for back up to the root of its tree.
pub proof fn lemma_proof_recombines(leaves: Seq<Seq<u8>>, depth: nat, height: nat, index: nat)
    requires
        height <= depth,
        index < pow2((depth - height) as nat),
    ensures
        recombine(node_root(leaves, height, index), index, proof_path(leaves, depth, height, index))
            == merkle_root(leaves, depth),
    decreases depth - height,
{
    if height == depth {
        vstd::arithmetic::power2::lemma2_to64();
        assert(index == 0);
    } else {
        let proof = proof_path(leaves, depth, height, index);
        let parent = index / 2;
        lemma_pow2_unfold((depth - height) as nat);
        assert(parent < pow2((depth - height - 1) as nat));
        lemma_proof_recombines(leaves, depth, height + 1, parent);
        assert(proof.drop_first() =~= proof_path(leaves, depth, height + 1, parent));
        assert(node_root(leaves, height + 1, parent) == hash_pair(
            node_root(leaves, height, 2 * parent),
            node_root(leaves, height, 2 * parent + 1),
        ));
    }
}

/// A generalized index lies between `2^level` and `2^(level + 1)`.
pub proof fn lemma_gindex_bounds(g: nat)
    requires
        g >= 1,
    ensures
        pow2(gindex_level(g)) <= g < pow2(gindex_level(g) + 1),
    decreases g,
{
    if g <= 1 {
        vstd::arithmetic::power2::lemma2_to64();
    } else {
        lemma_gindex_bounds(g / 2);
        lemma_pow2_unfold(gindex_level(g));
        lemma_pow2_unfold(gindex_level(g) + 1);
    }
}

/// The height, above the leaves, of the node at generalized index `g` in a
/// tree of height `depth`.
pub open spec fn gindex_height(depth: nat, g: nat) -> nat {
    (depth - gindex_level(g)) as nat
}

/// The position of the node at generalized index `g` within its level.
pub open spec fn gindex_position(g: nat) -> nat {
    (g - pow2(gindex_level(g))) as nat
}

/// The proof of a generalized index hashes its node up to the root of the
/// tree.
pub proof fn lemma_gindex_proof_recombines(leaves: Seq<Seq<u8>>, depth: nat, g: nat)
    requires
        g >= 1,
        gindex_level(g) <= depth,
    ensures
        recombine(
            node_root(leaves, gindex_height(depth, g), gindex_position(g)),
            gindex_position(g),
            proof_path(leaves, depth, gindex_height(depth, g), gindex_position(g)),
        ) == merkle_root(leaves, depth),
{
    lemma_gindex_bounds(g);
    lemma_pow2_unfold(gindex_level(g) + 1);
    lemma_proof_recombines(leaves, depth, gindex_height(depth, g), gindex_position(g));
}

/// Returns the level of generalized index `g` and `2^level`.
fn gindex_level_of(g: u64) -> (r: (usize, u64))
    requires
        g >= 1,
    ensures
        r.0 == gindex_level(g as nat),
        r.1 == pow2(gindex_level(g as nat)),
        r.0 < 64,
{
    proof {
        lemma_gindex_bounds(g as nat);
        vstd::arithmetic::power2::lemma2_to64();
        if gindex_level(g as nat) >= 64 {
            vstd::arithmetic::power2::lemma_pow2_strictly_increases(64, gindex_level(g as nat));
        }
    }
    let mut t: u64 = g;
    let mut level: usize = 0;
    while t > 1
        invariant
            t >= 1,
            gindex_level(g as nat) == level + gindex_level(t as nat),
            gindex_level(g as nat) < 64,
        decreases t,
    {
        t = t / 2;
        level = level + 1;
    }
    let mut p: u64 = 1;
    let mut k: usize = 0;
    while k < level
        invariant
            k <= level,
            level == gindex_level(g as nat),
            p == pow2(k as nat),
            pow2(level as nat) <= g,
        decreases level - k,
    {
        proof {
            lemma_pow2_unfold((k + 1) as nat);
            if k + 1 < level {
                vstd::arithmetic::power2::lemma_pow2_strictly_increases((k + 1) as nat, level as nat);
            }
        }
        p = p * 2;
        k = k + 1;
    }
    (level, p)
}

/// Returns the sibling roots from the node at generalized index `gindex`
/// up to the root of the tree of height `depth` over `leaves`.
pub fn generate_proof(leaves: &Vec<Hash256>, depth: usize, gindex: u64) -> (r: Result<
    Vec<Hash256>,
    ProofError,
>)
    ensures
        gindex == 0 || gindex_level(gindex as nat) > depth ==> r == Err::<
            Vec<Hash256>,
            ProofError,
        >(ProofError::InvalidIndex(gindex)),
        gindex >= 1 && gindex_level(gindex as nat) <= depth ==> r is Ok && chunks_view(r->Ok_0@)
            == proof_path(
            chunks_view(leaves@),
            depth as nat,
            gindex_height(depth as nat, gindex as nat),
            gindex_position(gindex as nat),
        ),
{
    if gindex == 0 {
        return Err(ProofError::InvalidIndex(gindex));
    }
    let (level, p) = gindex_level_of(gindex);
    if level > depth {
        return Err(ProofError::InvalidIndex(gindex));
    }
    let ghost l = chunks_view(leaves@);
    let levels = tree_levels(leaves, depth);
    let ghost views = levels@.map_values(|v: Vec<Hash256>| v@);
    proof {
        lemma_gindex_bounds(gindex as nat);
    }
    let h0: usize = depth - level;
    let mut index: u64 = gindex - p;
    let ghost index0 = index as nat;
    let mut h: usize = h0;
    let mut out: Vec<Hash256> = Vec::new();
    proof {
        lemma_gindex_bounds(gindex as nat);
        lemma_pow2_unfold((level + 1) as nat);
        assert(chunks_view(out@) + proof_path(l, depth as nat, h as nat, index as nat) =~= proof_path(
            l,
            depth as nat,
            h0 as nat,
            index0,
        ));
    }
    while h < depth
        invariant
            h0 <= h <= depth,
            layers_match(views, l, depth as nat),
            views == levels@.map_values(|v: Vec<Hash256>| v@),
            index < pow2((depth - h) as nat),
            chunks_view(out@) + proof_path(l, depth as nat, h as nat, index as nat) == proof_path(
                l,
                depth as nat,
                h0 as nat,
                index0,
            ),
        decreases depth - h,
    {
        proof {
            lemma_pow2_unfold((depth - h) as nat);
        }
        let sibling: u64 = if index % 2 == 0 {
            index + 1
        } else {
            index - 1
        };
        let level_nodes = &levels[h];
        assert(level_nodes@ == views[h as int]);
        let node: Hash256 = if (sibling as u128) < (level_nodes.len() as u128) {
            assert(views[h as int][sibling as int] == level_nodes@[sibling as int]);
            level_nodes[sibling as usize]
        } else {
            zero_hash(h)
        };
        assert(node@ == node_root(l, h as nat, sibling as nat));
        let ghost before = out@;
        out.push(node);
        proof {
            let rest = proof_path(l, depth as nat, (h + 1) as nat, (index / 2) as nat);
            assert(proof_path(l, depth as nat, h as nat, index as nat) == seq![node@] + rest);
            assert(chunks_view(out@) =~= chunks_view(before) + seq![node@]);
            assert(chunks_view(out@) + rest =~= chunks_view(before) + (seq![node@] + rest));
        }
        index = index / 2;
        h = h + 1;
    }
    assert(chunks_view(out@) =~= chunks_view(out@) + proof_path(l, depth as nat, h as nat, index as nat));
    Ok(out)
}

/// Returns the root that `node`, at position `index` of its level, and the
/// sibling roots of `proof` hash up to.
pub fn compute_root(node: &Hash256, index: u64, proof: &Vec<Hash256>) -> (r: Hash256)
    ensures
        r@ == recombine(node@, index as nat, chunks_view(proof@)),
{
    let mut current: Hash256 = *node;
    let mut idx: u64 = index;
    let mut k: usize = 0;
    assert(chunks_view(proof@).subrange(0, proof@.len() as int) =~= chunks_view(proof@));
    while k < proof.len()
        invariant
            k <= proof@.len(),
            recombine(current@, idx as nat, chunks_view(proof@).subrange(k as int, proof@.len() as int))
                == recombine(node@, index as nat, chunks_view(proof@)),
        decreases proof@.len() - k,
    {
        let ghost rest = chunks_view(proof@).subrange(k as int, proof@.len() as int);
        assert(rest.drop_first() =~= chunks_view(proof@).subrange(k + 1, proof@.len() as int));
        assert(rest[0] == proof@[k as int]@);
        if idx % 2 == 0 {
            current = hash_concat(&current, &proof[k]);
        } else {
            current = hash_concat(&proof[k], &current);
        }
        idx = idx / 2;
        k = k + 1;
    }
    assert(chunks_view(proof@).subrange(proof@.len() as int, proof@.len() as int) =~= Seq::<
        Seq<u8>,
    >::empty());
    current
}

/// The generalized index of leaf `position` of a container at generalized
/// index `parent` whose tree has room for `leaf_limit` leaves; a list's
/// leaves sit one level deeper, under its length mix-in.
pub open spec fn item_gindex_spec(parent: nat, leaf_limit: nat, position: nat, mixes_length: bool) -> nat {
    parent * pow2(crate::merkle::depth_for(leaf_limit)) * (if mixes_length {
        2nat
    } else {
        1nat
    }) + position
}

/// Returns the generalized index of leaf `position` of a container at
/// generalized index `parent` whose tree has room for `leaf_limit` leaves,
/// or `None` when it exceeds `u64`.
pub fn item_gindex(parent: u64, leaf_limit: u64, position: u64, mixes_length: bool) -> (r: Option<u64>)
    ensures
        r is Some ==> r->0 == item_gindex_spec(parent as nat, leaf_limit as nat, position as nat, mixes_length),
        r is None ==> item_gindex_spec(parent as nat, leaf_limit as nat, position as nat, mixes_length) > u64::MAX,
{
    let depth = crate::merkle::tree_depth(leaf_limit);
    let mut g: u128 = parent as u128;
    let mut k: usize = 0;
    proof {
        vstd::arithmetic::power2::lemma2_to64();
    }
    while k < depth
        invariant
            k <= depth,
            depth == crate::merkle::depth_for(leaf_limit as nat),
            g == parent * pow2(k as nat),
            g <= u64::MAX,
        decreases depth - k,
    {
        proof {
            lemma_pow2_unfold((k + 1) as nat);
            assert(g * 2 == parent * pow2((k + 1) as nat)) by (nonlinear_arith)
                requires
                    g == parent * pow2(k as nat),
                    pow2((k + 1) as nat) == 2 * pow2(k as nat),
            ;
        }
        if g * 2 > u64::MAX as u128 {
            proof {
                lemma_gindex_grows(parent as nat, (k + 1) as nat, depth as nat, leaf_limit as nat, position as nat, mixes_length);
            }
            return None;
        }
        g = g * 2;
        k = k + 1;
    }
    let ghost base = parent * pow2(depth as nat);
    assert(g == base);
    if mixes_length {
        if g * 2 > u64::MAX as u128 {
            return None;
        }
        g = g * 2;
    }
    assert(g == base * (if mixes_length {
        2nat
    } else {
        1nat
    }));
    if g + position as u128 > u64::MAX as u128 {
        return None;
    }
    Some((g + position as u128) as u64)
}

/// Returns the generalized index of the leaf that holds item `index` of a
/// container of `T` with capacity `max_len` at generalized index `parent`,
/// or `None` when it exceeds `u64`.
pub fn element_gindex<T: SszElement>(parent: u64, max_len: usize, index: usize, mixes_length: bool) -> (r: Option<u64>)
    ensures
        r is Some ==> r->0 == item_gindex_spec(
            parent as nat,
            leaf_limit::<T>(max_len as nat),
            packed_position::<T>(index as nat),
            mixes_length,
        ),
        r is None ==> item_gindex_spec(
            parent as nat,
            leaf_limit::<T>(max_len as nat),
            packed_position::<T>(index as nat),
            mixes_length,
        ) > u64::MAX,
{
    let limit = tree_hash_leaf_limit::<T>(max_len);
    let position = packed_position_of::<T>(index);
    item_gindex(parent, limit as u64, position as u64, mixes_length)
}

proof fn lemma_gindex_grows(parent: nat, k: nat, depth: nat, leaf_limit: nat, position: nat, mixes_length: bool)
    requires
        k <= depth,
        depth == crate::merkle::depth_for(leaf_limit),
    ensures
        item_gindex_spec(parent, leaf_limit, position, mixes_length) >= parent * pow2(k),
{
    if k < depth {
        vstd::arithmetic::power2::lemma_pow2_strictly_increases(k, depth);
    }
    assert(parent * pow2(k) <= parent * pow2(depth)) by (nonlinear_arith)
        requires
            pow2(k) <= pow2(depth),
    ;
    assert(parent * pow2(depth) <= parent * pow2(depth) * (if mixes_length {
        2nat
    } else {
        1nat
    })) by (nonlinear_arith);
}

} // verus!
