//! Properties that relate several operations of the library.
use crate::codec::{
    concat_encodings, decode_list, decode_vector, encode_items, lemma_concat_fixed,
    lemma_decode_chunks_round_trip, lemma_variable_items_round_trip, offsets_fit,
};
use crate::element::{lemma_le_round_trip, lemma_pow256_mono, pow256, SszElement};
use crate::merkle::{le_bytes, mixed_in_length};
use crate::optional::{decode_optional, encode_optional};
use crate::merkle::{depth_for, lemma_depth_for_fits, node_root};
use crate::merkle_proof::{lemma_proof_recombines, proof_path, recombine};
use crate::tree_hash::{items_root, leaf_limit, leaves_of, lemma_leaves_fit};
use vstd::arithmetic::power2::pow2;
use crate::DecodeError;
use vstd::prelude::*;

verus! {

/// Decoding the encoding of a list gives back the list; fixed-length items
/// take `size` bytes each.
pub proof fn lemma_list_round_trip<T: SszElement>(items: Seq<T>, max: nat)
    requires
        T::spec_is_fixed_len() ==> T::spec_fixed_len() > 0,
        items.len() <= max,
        offsets_fit(items),
    ensures
        decode_list::<T>(encode_items(items), max) == Ok::<Seq<T>, DecodeError>(items),
        T::spec_is_fixed_len() ==> encode_items(items).len() == items.len() * T::spec_fixed_len(),
{
    if T::spec_is_fixed_len() {
        fixed_list_round_trip(items, max);
    } else if items.len() == 0 {
        assert(items =~= Seq::<T>::empty());
        assert(encode_items(items) =~= Seq::<u8>::empty());
    } else {
        lemma_variable_items_round_trip(items, max);
    }
}

proof fn fixed_list_round_trip<T: SszElement>(items: Seq<T>, max: nat)
    requires
        T::spec_is_fixed_len(),
        T::spec_fixed_len() > 0,
        items.len() <= max,
    ensures
        decode_list::<T>(encode_items(items), max) == Ok::<Seq<T>, DecodeError>(items),
        encode_items(items).len() == items.len() * T::spec_fixed_len(),
{
    let size = T::spec_fixed_len();
    let n = items.len();
    lemma_concat_fixed(items);
    lemma_decode_chunks_round_trip(items, n);
    assert(items.subrange(0, n as int) =~= items);
    let bytes = concat_encodings(items);
    if n == 0 {
        assert(bytes.len() == 0);
        assert(items =~= Seq::<T>::empty());
    } else {
        assert(bytes.len() / size == n && bytes.len() % size == 0) by (nonlinear_arith)
            requires
                bytes.len() == n * size,
                size > 0,
        ;
    }
}

/// Decoding the encoding of a vector of exactly `n > 0` items gives back
/// the vector; fixed-length items take `size * n` bytes.
pub proof fn lemma_vector_round_trip<T: SszElement>(items: Seq<T>, n: nat)
    requires
        T::spec_is_fixed_len() ==> T::spec_fixed_len() > 0,
        items.len() == n,
        n > 0,
        offsets_fit(items),
    ensures
        decode_vector::<T>(encode_items(items), n) == Ok::<Seq<T>, DecodeError>(items),
        T::spec_is_fixed_len() ==> encode_items(items).len() == T::spec_fixed_len() * n,
{
    if T::spec_is_fixed_len() {
        let size = T::spec_fixed_len();
        lemma_concat_fixed(items);
        lemma_decode_chunks_round_trip(items, n);
        assert(items.subrange(0, n as int) =~= items);
        let bytes = concat_encodings(items);
        assert(bytes.len() / size == n && bytes.len() % size == 0 && bytes.len() > 0)
            by (nonlinear_arith)
            requires
                bytes.len() == n * size,
                size > 0,
                n > 0,
        ;
        assert(n * size == size * n) by (nonlinear_arith);
    } else {
        lemma_variable_items_round_trip(items, n);
    }
}

/// Decoding the encoding of an optional value gives back the value.
pub proof fn lemma_optional_round_trip<T: SszElement>(o: Option<T>)
    ensures
        decode_optional::<T>(encode_optional(o)) == Ok::<Option<T>, DecodeError>(o),
{
    if let Some(v) = o {
        T::lemma_round_trip(v);
        assert(encode_optional(o).drop_first() =~= T::spec_encode(v));
    }
}

/// The root of a list depends on its items and bound alone: equal items
/// give equal roots, however the lists were built (directly, or by
/// truncating a longer list).
pub proof fn lemma_list_root_deterministic<T: SszElement>(a: Seq<T>, b: Seq<T>, max: nat)
    requires
        a == b,
    ensures
        mixed_in_length(items_root(a, max), a.len()) == mixed_in_length(items_root(b, max), b.len()),
{
}

/// The 32-byte length fields of two different lengths differ.
pub proof fn lemma_length_fields_differ(a: nat, b: nat)
    requires
        a != b,
        a < pow256(8),
        b < pow256(8),
    ensures
        le_bytes(a, 32) != le_bytes(b, 32),
{
    lemma_pow256_mono(8, 32);
    lemma_le_round_trip(a, 32);
    lemma_le_round_trip(b, 32);
}

/// Lists of different lengths feed different inputs to the hash that mixes
/// in the length, whatever their item roots: the length field alone tells
/// them apart.
pub proof fn lemma_length_mixin_inputs_differ(root_a: Seq<u8>, len_a: nat, root_b: Seq<u8>, len_b: nat)
    requires
        root_a.len() == 32,
        root_b.len() == 32,
        len_a != len_b,
        len_a < pow256(8),
        len_b < pow256(8),
    ensures
        root_a + le_bytes(len_a, 32) != root_b + le_bytes(len_b, 32),
{
    lemma_length_fields_differ(len_a, len_b);
    if root_a + le_bytes(len_a, 32) == root_b + le_bytes(len_b, 32) {
        crate::merkle::lemma_le_bytes_len(len_a, 32);
        crate::merkle::lemma_le_bytes_len(len_b, 32);
        assert((root_a + le_bytes(len_a, 32)).subrange(32, 64) =~= le_bytes(len_a, 32));
        assert((root_b + le_bytes(len_b, 32)).subrange(32, 64) =~= le_bytes(len_b, 32));
    }
}

/// For any leaf of a container's tree, the leaf and its proof hash up to
/// the root of the container's items.
pub proof fn lemma_item_proof_recombines<T: SszElement>(items: Seq<T>, max_len: nat, position: nat)
    requires
        position < pow2(depth_for(leaf_limit::<T>(max_len))),
    ensures
        recombine(
            node_root(leaves_of(items), 0, position),
            position,
            proof_path(leaves_of(items), depth_for(leaf_limit::<T>(max_len)), 0, position),
        ) == items_root(items, max_len),
{
    lemma_proof_recombines(leaves_of(items), depth_for(leaf_limit::<T>(max_len)), 0, position);
}

/// The tree that a container's capacity gives has room for every leaf of
/// its items, so no item is left out of the root.
pub proof fn lemma_capacity_tree_holds_all_leaves<T: SszElement>(items: Seq<T>, max_len: nat)
    requires
        items.len() <= max_len,
    ensures
        leaves_of(items).len() <= pow2(depth_for(leaf_limit::<T>(max_len))),
{
    lemma_leaves_fit(items, max_len);
    lemma_depth_for_fits(leaf_limit::<T>(max_len));
}

} // verus!
