//! The Merkle root of a sequence of elements inside a container of a given
//! capacity: basic elements are packed into 32-byte leaves, composite
//! elements give one leaf each; the tree is sized by the capacity.
use crate::codec::{concat_encodings, lemma_concat_fixed};
use crate::element::{pad_to_chunk, SszElement, TreeHashKind};
use crate::merkle::{
    chunks_view, depth_for, merkle_root, merkleize, tree_depth, Hash256,
};
use vstd::arithmetic::div_mod::lemma_div_is_ordered;
use vstd::prelude::*;

verus! {

/// The number of chunks that hold `len` bytes.
pub open spec fn chunk_count(len: nat) -> nat {
    len / 32 + if len % 32 == 0 {
        0nat
    } else {
        1nat
    }
}

/// `bytes` cut into 32-byte leaves, the last padded with zeros.
pub open spec fn pack_chunks(bytes: Seq<u8>) -> Seq<Seq<u8>> {
    Seq::new(
        chunk_count(bytes.len()),
        |k: int|
            pad_to_chunk(
                bytes.subrange(
                    32 * k,
                    if 32 * k + 32 <= bytes.len() {
                        32 * k + 32
                    } else {
                        bytes.len() as int
                    },
                ),
            ),
    )
}

/// How many elements share one leaf.
pub open spec fn packing_factor<T: SszElement>() -> nat {
    match T::spec_kind() {
        TreeHashKind::Basic => 32nat / T::spec_fixed_len(),
        TreeHashKind::Composite => 1,
    }
}

/// The number of leaves of a container of capacity `max_len`.
pub open spec fn leaf_limit<T: SszElement>(max_len: nat) -> nat {
    match T::spec_kind() {
        TreeHashKind::Basic => max_len / packing_factor::<T>() + if max_len % packing_factor::<T>()
            == 0 {
            0nat
        } else {
            1nat
        },
        TreeHashKind::Composite => max_len,
    }
}

/// The leaf that item `index` falls in.
pub open spec fn packed_position<T: SszElement>(index: nat) -> nat {
    index / packing_factor::<T>()
}

/// The leaves that `items` fill.
pub open spec fn leaves_of<T: SszElement>(items: Seq<T>) -> Seq<Seq<u8>> {
    match T::spec_kind() {
        TreeHashKind::Basic => pack_chunks(concat_encodings(items)),
        TreeHashKind::Composite => items.map_values(|v: T| T::spec_root(v)),
    }
}

/// The root of `items` in a container of capacity `max_len`, before any
/// length mix-in.
pub open spec fn items_root<T: SszElement>(items: Seq<T>, max_len: nat) -> Seq<u8> {
    merkle_root(leaves_of(items), depth_for(leaf_limit::<T>(max_len)))
}

/// Returns `bytes` cut into 32-byte leaves, the last padded with zeros.
pub fn pack(bytes: &Vec<u8>) -> (r: Vec<Hash256>)
    ensures
        chunks_view(r@) == pack_chunks(bytes@),
{
    let len = bytes.len();
    let mut out: Vec<Hash256> = Vec::new();
    let mut pos: usize = 0;
    while pos < len
        invariant
            len == bytes@.len(),
            pos <= len,
            pos % 32 == 0 || pos == len,
            out@.len() == chunk_count(pos as nat),
            forall|k: int|
                0 <= k < out@.len() ==> #[trigger] chunks_view(out@)[k] == pack_chunks(bytes@)[k],
            out@.len() <= chunk_count(len as nat),
            pos < len ==> out@.len() < chunk_count(len as nat),
        decreases len - pos,
    {
        let end: usize = if len - pos >= 32 {
            pos + 32
        } else {
            len
        };
        let mut chunk: Hash256 = [0u8; 32];
        let mut j: usize = 0;
        while j < end - pos
            invariant
                pos <= end <= len,
                end - pos <= 32,
                len == bytes@.len(),
                j <= end - pos,
                chunk@.len() == 32,
                forall|q: int| 0 <= q < j ==> chunk@[q] == bytes@[pos + q],
                forall|q: int| j <= q < 32 ==> chunk@[q] == 0u8,
            decreases end - pos - j,
        {
            chunk[j] = bytes[pos + j];
            j = j + 1;
        }
        let ghost k = out@.len() as int;
        let ghost before = out@;
        assert(pos == 32 * k);
        assert(chunk@ =~= pad_to_chunk(bytes@.subrange(pos as int, end as int)));
        assert(chunk@ == pack_chunks(bytes@)[k]);
        out.push(chunk);
        proof {
            assert(chunks_view(out@)[k] == chunk@);
            assert forall|q: int| 0 <= q < out@.len() implies #[trigger] chunks_view(out@)[q]
                == pack_chunks(bytes@)[q] by {
                if q < k {
                    assert(chunks_view(out@)[q] == out@[q]@);
                    assert(out@[q] == before[q]);
                    assert(chunks_view(before)[q] == before[q]@);
                }
            }
        }
        pos = end;
    }
    assert(chunks_view(out@) =~= pack_chunks(bytes@));
    out
}

/// A container's leaves fit the tree that its capacity gives.
pub proof fn lemma_leaves_fit<T: SszElement>(items: Seq<T>, max_len: nat)
    requires
        items.len() <= max_len,
    ensures
        leaves_of(items).len() <= leaf_limit::<T>(max_len),
{
    T::lemma_layout();
    if T::spec_kind() == TreeHashKind::Basic {
        lemma_concat_fixed(items);
        let size = T::spec_fixed_len();
        let pf = packing_factor::<T>();
        let n = items.len();
        assert(pf * size == 32) by (nonlinear_arith)
            requires
                pf == 32nat / size,
                32nat % size == 0,
                size >= 1,
        ;
        let c = n / pf + if n % pf == 0 {
            0nat
        } else {
            1nat
        };
        assert(n * size <= 32 * c) by (nonlinear_arith)
            requires
                pf * size == 32,
                pf >= 1,
                c == n / pf + if n % pf == 0 {
                    0nat
                } else {
                    1nat
                },
        ;
        assert(chunk_count(n * size) <= c) by (nonlinear_arith)
            requires
                n * size <= 32 * c,
        ;
        lemma_div_is_ordered(n as int, max_len as int, pf as int);
        assert(c <= leaf_limit::<T>(max_len)) by (nonlinear_arith)
            requires
                n <= max_len,
                pf >= 1,
                n / pf <= max_len / pf,
                c == n / pf + if n % pf == 0 {
                    0nat
                } else {
                    1nat
                },
                leaf_limit::<T>(max_len) == max_len / pf + if max_len % pf == 0 {
                    0nat
                } else {
                    1nat
                },
        ;
    }
}

/// Returns the packed leaves of basic `items`.
fn packed_leaves<T: SszElement>(items: &[T]) -> (r: Vec<Hash256>)
    ensures
        chunks_view(r@) == pack_chunks(concat_encodings(items@)),
{
    let mut bytes: Vec<u8> = Vec::new();
    let mut i: usize = 0;
    while i < items.len()
        invariant
            i <= items@.len(),
            bytes@ == concat_encodings(items@.subrange(0, i as int)),
        decreases items@.len() - i,
    {
        proof {
            crate::codec::lemma_concat_push(items@.subrange(0, i as int), items@[i as int]);
            assert(items@.subrange(0, i as int).push(items@[i as int]) =~= items@.subrange(
                0,
                i + 1,
            ));
        }
        items[i].ssz_append(&mut bytes);
        i = i + 1;
    }
    assert(items@.subrange(0, items@.len() as int) =~= items@);
    pack(&bytes)
}

/// Returns the roots of composite `items`, one leaf each.
fn root_leaves<T: SszElement>(items: &[T]) -> (r: Vec<Hash256>)
    ensures
        chunks_view(r@) == items@.map_values(|v: T| T::spec_root(v)),
{
    let mut roots: Vec<Hash256> = Vec::new();
    let mut i: usize = 0;
    while i < items.len()
        invariant
            i <= items@.len(),
            roots@.len() == i,
            forall|k: int| 0 <= k < i ==> #[trigger] roots@[k]@ == T::spec_root(items@[k]),
        decreases items@.len() - i,
    {
        let h = items[i].tree_hash_root();
        roots.push(h);
        i = i + 1;
    }
    assert(chunks_view(roots@) =~= items@.map_values(|v: T| T::spec_root(v)));
    roots
}

/// Returns the leaves that `items` fill: packed chunks for basic items,
/// one root per composite item.
pub fn tree_leaves<T: SszElement>(items: &[T]) -> (r: Vec<Hash256>)
    ensures
        chunks_view(r@) == leaves_of(items@),
{
    match T::tree_hash_kind() {
        TreeHashKind::Basic => packed_leaves(items),
        TreeHashKind::Composite => root_leaves(items),
    }
}

/// Returns the number of leaves of a container of capacity `max_len`.
pub fn tree_hash_leaf_limit<T: SszElement>(max_len: usize) -> (r: usize)
    ensures
        r == leaf_limit::<T>(max_len as nat),
{
    proof {
        T::lemma_layout();
    }
    match T::tree_hash_kind() {
        TreeHashKind::Basic => {
            let size = T::ssz_fixed_len();
            let pf = 32 / size;
            assert(pf >= 1) by (nonlinear_arith)
                requires
                    1 <= size <= 32,
                    pf == 32usize / size,
            ;
            if max_len % pf == 0 {
                max_len / pf
            } else {
                assert(max_len / pf < max_len) by (nonlinear_arith)
                    requires
                        pf >= 1,
                        max_len % pf != 0,
                ;
                max_len / pf + 1
            }
        },
        TreeHashKind::Composite => max_len,
    }
}

/// Returns the leaf that item `index` falls in: several basic items share
/// a leaf, a composite item has its own.
pub fn packed_position_of<T: SszElement>(index: usize) -> (r: usize)
    ensures
        r == packed_position::<T>(index as nat),
{
    proof {
        T::lemma_layout();
    }
    match T::tree_hash_kind() {
        TreeHashKind::Basic => {
            let size = T::ssz_fixed_len();
            let pf = 32 / size;
            assert(pf >= 1) by (nonlinear_arith)
                requires
                    1 <= size <= 32,
                    pf == 32usize / size,
            ;
            index / pf
        },
        TreeHashKind::Composite => index,
    }
}

/// Returns the root of `items` in a container of capacity `max_leaves`,
/// before any length mix-in.
pub fn vec_tree_hash_root<T: SszElement>(items: &[T], max_leaves: usize) -> (r: Hash256)
    requires
        items@.len() <= max_leaves,
    ensures
        r@ == items_root(items@, max_leaves as nat),
{
    let leaves = tree_leaves(items);
    let limit = tree_hash_leaf_limit::<T>(max_leaves);
    let depth = tree_depth(limit as u64);
    merkleize(&leaves, depth)
}

/// Returns the root of the single item `v` in a container of capacity
/// `max_leaves`, before any length mix-in.
pub fn single_item_root<T: SszElement>(v: &T, max_leaves: usize) -> (r: Hash256)
    requires
        1 <= max_leaves,
    ensures
        r@ == items_root(seq![*v], max_leaves as nat),
{
    let ghost items = seq![*v];
    proof {
        T::lemma_layout();
        assert(items.drop_last() =~= Seq::<T>::empty());
        assert(concat_encodings(Seq::<T>::empty()) =~= Seq::<u8>::empty());
        assert(items.last() == *v);
        assert(concat_encodings(items) =~= T::spec_encode(*v));
    }
    let leaves: Vec<Hash256> = match T::tree_hash_kind() {
        TreeHashKind::Basic => {
            let mut bytes: Vec<u8> = Vec::new();
            v.ssz_append(&mut bytes);
            assert(bytes@ =~= concat_encodings(items));
            pack(&bytes)
        },
        TreeHashKind::Composite => {
            let mut roots: Vec<Hash256> = Vec::new();
            roots.push(v.tree_hash_root());
            assert(chunks_view(roots@) =~= items.map_values(|x: T| T::spec_root(x)));
            roots
        },
    };
    let limit = tree_hash_leaf_limit::<T>(max_leaves);
    let depth = tree_depth(limit as u64);
    merkleize(&leaves, depth)
}

} // verus!
