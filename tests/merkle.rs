use ssz_types::length::{to_usize, to_usize_with_policy, CapacityOverflow, OverflowPolicy};
use ssz_types::merkle::{merkleize, mix_in_length, tree_depth, zero_hash};
use ssz_types::merkle_proof::{compute_root, element_gindex, generate_proof, item_gindex, ProofError};
use ssz_types::tree_hash::tree_leaves;
use ssz_types::{Error, FixedVector, VariableList};

fn chunk_of(bytes: &[u8]) -> [u8; 32] {
    let mut c = [0u8; 32];
    c[..bytes.len()].copy_from_slice(bytes);
    c
}

#[test]
fn packing_boundary_at_32_bytes() {
    let mut leaf_counts = vec![];
    for len in [31usize, 32, 33] {
        let data = vec![0xab; len];
        let list: VariableList<u8, 64> = VariableList::new(data.clone()).unwrap();
        leaf_counts.push(tree_leaves(list.as_slice()).len());
        let reference = tree_hash::mix_in_length(&tree_hash::merkle_root(&data, 2), len).0;
        assert_eq!(list.tree_hash_root(), reference);
    }
    assert_eq!(leaf_counts, vec![1, 1, 2]);
    let r31 = VariableList::<u8, 64>::new(vec![0xab; 31]).unwrap().tree_hash_root();
    let r32 = VariableList::<u8, 64>::new(vec![0xab; 32]).unwrap().tree_hash_root();
    let r33 = VariableList::<u8, 64>::new(vec![0xab; 33]).unwrap().tree_hash_root();
    assert_ne!(r31, r32);
    assert_ne!(r32, r33);
}

#[test]
fn proof_for_index_five_recombines() {
    let values: Vec<u64> = (0..8).collect();
    let fixed: FixedVector<u64, 8> = FixedVector::new(values).unwrap();
    let leaves = tree_leaves(fixed.as_slice());
    assert_eq!(leaves.len(), 2);
    let depth = tree_depth(2);
    assert_eq!(depth, 1);
    // Four 8-byte values share a leaf: value 5 sits in leaf 1.
    let gindex = item_gindex(1, 2, 5 / 4, false).unwrap();
    assert_eq!(gindex, 3);
    let proof = generate_proof(&leaves, depth, gindex).unwrap();
    assert_eq!(proof, vec![leaves[0]]);
    assert_eq!(compute_root(&leaves[1], 1, &proof), fixed.tree_hash_root());
}

#[test]
fn proof_in_a_deeper_tree_recombines() {
    let values: Vec<u64> = (0..20).collect();
    let list: VariableList<u64, 32> = VariableList::new(values).unwrap();
    let leaves = tree_leaves(list.as_slice());
    // 32 values give 8 leaves, a tree of height 3.
    let depth = tree_depth(8);
    assert_eq!(depth, 3);
    let gindex = item_gindex(1, 8, 3, false).unwrap();
    let proof = generate_proof(&leaves, depth, gindex).unwrap();
    assert_eq!(proof.len(), 3);
    let data_root = compute_root(&leaves[3], 3, &proof);
    assert_eq!(mix_in_length(&data_root, 20), list.tree_hash_root());
}

#[test]
fn proof_errors() {
    let leaves = vec![[1u8; 32], [2u8; 32]];
    assert_eq!(generate_proof(&leaves, 1, 0), Err(ProofError::InvalidIndex(0)));
    assert_eq!(generate_proof(&leaves, 1, 4), Err(ProofError::InvalidIndex(4)));
    assert_eq!(generate_proof(&leaves, 1, 1), Ok(vec![]));
}

#[test]
fn gindex_of_list_items_includes_the_length_level() {
    assert_eq!(item_gindex(1, 8, 3, true), Some(19));
    assert_eq!(item_gindex(1, 8, 3, false), Some(11));
    assert_eq!(item_gindex(u64::MAX, 2, 0, false), None);
}

#[test]
fn append_scenario_with_capacity_four() {
    let mut list = VariableList::<u8, 4>::empty();
    for _ in 0..4 {
        assert_eq!(list.push(42), Ok(()));
    }
    assert_eq!(list.push(42), Err(Error::OutOfBounds { i: 5, len: 4 }));
    assert_eq!(list.as_ssz_bytes(), vec![42, 42, 42, 42]);
    let leaf = chunk_of(&[42, 42, 42, 42]);
    assert_eq!(list.tree_hash_root(), mix_in_length(&leaf, 4));
    let reference = tree_hash::mix_in_length(&tree_hash::Hash256::from(leaf), 4).0;
    assert_eq!(list.tree_hash_root(), reference);
}

#[test]
fn zero_hashes_match_repeated_hashing() {
    assert_eq!(zero_hash(0), [0u8; 32]);
    let mut z = [0u8; 32];
    for d in 0..60usize {
        assert_eq!(zero_hash(d), z);
        z = ethereum_hashing::hash32_concat(&z, &z);
    }
}

#[test]
fn merkleize_extends_to_a_deep_tree() {
    let leaves = vec![chunk_of(&[7, 7, 7])];
    let root = merkleize(&leaves, 3);
    assert_eq!(root, tree_hash::merkle_root(&[7, 7, 7], 8).0);
    let deep = merkleize(&leaves, 55);
    let mut expected = leaves[0];
    for d in 0..55usize {
        expected = ethereum_hashing::hash32_concat(&expected, &zero_hash(d));
    }
    assert_eq!(deep, expected);
}

#[test]
fn length_mixin_matches_reference() {
    let root = chunk_of(&[1, 2, 3]);
    for len in [0usize, 1, 255, 256, 70000] {
        let reference = tree_hash::mix_in_length(&tree_hash::Hash256::from(root), len).0;
        assert_eq!(mix_in_length(&root, len as u64), reference);
    }
}

#[test]
fn length_mixin_distinguishes_lengths() {
    let a = VariableList::<u8, 8>::new(vec![1, 2, 3]).unwrap();
    let b = VariableList::<u8, 8>::new(vec![1, 2, 3, 0]).unwrap();
    let mut truncated = VariableList::<u8, 8>::new(vec![1, 2, 3, 0, 9]).unwrap().into_vec();
    truncated.truncate(3);
    let c = VariableList::<u8, 8>::new(truncated).unwrap();
    assert_ne!(a.tree_hash_root(), b.tree_hash_root());
    assert_eq!(a.tree_hash_root(), c.tree_hash_root());
    assert_eq!(a.tree_hash_root(), a.tree_hash_root());
}

#[test]
fn tree_depth_values() {
    assert_eq!(tree_depth(0), 0);
    assert_eq!(tree_depth(1), 0);
    assert_eq!(tree_depth(2), 1);
    assert_eq!(tree_depth(3), 2);
    assert_eq!(tree_depth(1 << 40), 40);
    assert_eq!(tree_depth(u64::MAX), 64);
}

#[test]
fn capacity_guard() {
    assert_eq!(to_usize(16), 16);
    assert_eq!(to_usize(u64::MAX), u64::MAX as usize);
    assert_eq!(to_usize_with_policy(7, OverflowPolicy::Fail), Ok(7));
    assert_eq!(to_usize_with_policy(5, OverflowPolicy::Cap), Ok(5));
    let overflow = CapacityOverflow { requested: 1, max: 0 };
    assert_eq!(overflow.requested, 1);
}

#[test]
fn gindex_of_an_element_index() {
    // Eight u64 values: value 5 sits in leaf 1 of a two-leaf tree.
    assert_eq!(element_gindex::<u64>(1, 8, 5, false), Some(3));
    // 32 u64 values under a length mix-in: value 13 sits in leaf 3 of 8.
    assert_eq!(element_gindex::<u64>(1, 32, 13, true), Some(19));
    // Composite items have a leaf each.
    assert_eq!(element_gindex::<[u8; 32]>(1, 4, 2, false), Some(6));
}
