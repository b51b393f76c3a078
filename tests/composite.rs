use ssz_types::codec::decode_variable_list;
use ssz_types::{DecodeError, FixedVector, Optional, VariableList};

fn repeat(input: &[u8], n: usize) -> Vec<u8> {
    let mut output = vec![];
    for _ in 0..n {
        output.extend_from_slice(input);
    }
    output
}

fn sample_root() -> [u8; 32] {
    let mut a = [0u8; 32];
    for (i, b) in a.iter_mut().enumerate() {
        *b = (i * 7 + 1) as u8;
    }
    a
}

/// The root of a container of two `u32` fields, `a: 0` and `b: 1`: the hash
/// of the two fields' padded encodings.
fn struct_a_root() -> [u8; 32] {
    let field_a = [0u8; 32];
    let mut field_b = [0u8; 32];
    field_b[0] = 1;
    ethereum_hashing::hash32_concat(&field_a, &field_b)
}

#[test]
fn fixed_vector_tree_hash_composite() {
    let a = struct_a_root();

    let fixed: FixedVector<[u8; 32], 0> = FixedVector::new(vec![]).unwrap();
    assert_eq!(fixed.tree_hash_root(), tree_hash::merkle_root(&[0; 32], 0).0);

    let fixed: FixedVector<[u8; 32], 1> = FixedVector::new(vec![a]).unwrap();
    assert_eq!(fixed.tree_hash_root(), tree_hash::merkle_root(&a, 0).0);

    let fixed: FixedVector<[u8; 32], 8> = FixedVector::new(vec![a; 8]).unwrap();
    assert_eq!(fixed.tree_hash_root(), tree_hash::merkle_root(&repeat(&a, 8), 0).0);

    let fixed: FixedVector<[u8; 32], 13> = FixedVector::new(vec![a; 13]).unwrap();
    assert_eq!(fixed.tree_hash_root(), tree_hash::merkle_root(&repeat(&a, 13), 0).0);

    let fixed: FixedVector<[u8; 32], 16> = FixedVector::new(vec![a; 16]).unwrap();
    assert_eq!(fixed.tree_hash_root(), tree_hash::merkle_root(&repeat(&a, 16), 0).0);
}

fn padded_root_with_length(bytes: &[u8], len: usize, min_nodes: usize) -> [u8; 32] {
    let root = tree_hash::merkle_root(bytes, min_nodes);
    tree_hash::mix_in_length(&root, len).0
}

#[test]
fn variable_list_tree_hash_composite() {
    let a = struct_a_root();

    let fixed: VariableList<[u8; 32], 0> = VariableList::new(vec![]).unwrap();
    assert_eq!(fixed.tree_hash_root(), padded_root_with_length(&[0; 32], 0, 0));

    for i in 0..=1 {
        let fixed: VariableList<[u8; 32], 1> = VariableList::new(vec![a; i]).unwrap();
        assert_eq!(
            fixed.tree_hash_root(),
            padded_root_with_length(&repeat(&a, i), i, 1),
            "U1 {}",
            i
        );
    }

    for i in 0..=8 {
        let fixed: VariableList<[u8; 32], 8> = VariableList::new(vec![a; i]).unwrap();
        assert_eq!(
            fixed.tree_hash_root(),
            padded_root_with_length(&repeat(&a, i), i, 8),
            "U8 {}",
            i
        );
    }

    for i in 0..=13 {
        let fixed: VariableList<[u8; 32], 13> = VariableList::new(vec![a; i]).unwrap();
        assert_eq!(
            fixed.tree_hash_root(),
            padded_root_with_length(&repeat(&a, i), i, 13),
            "U13 {}",
            i
        );
    }

    for i in 0..=16 {
        let fixed: VariableList<[u8; 32], 16> = VariableList::new(vec![a; i]).unwrap();
        assert_eq!(
            fixed.tree_hash_root(),
            padded_root_with_length(&repeat(&a, i), i, 16),
            "U16 {}",
            i
        );
    }
}

#[test]
fn composite_roots_of_other_values() {
    let a = sample_root();
    let fixed: FixedVector<[u8; 32], 3> = FixedVector::new(vec![a, [0; 32], a]).unwrap();
    let mut bytes = vec![];
    bytes.extend_from_slice(&a);
    bytes.extend_from_slice(&[0; 32]);
    bytes.extend_from_slice(&a);
    assert_eq!(fixed.tree_hash_root(), tree_hash::merkle_root(&bytes, 0).0);
}

#[test]
fn composite_round_trip() {
    let a = sample_root();
    let list: VariableList<[u8; 32], 4> = VariableList::new(vec![a, [0; 32], a]).unwrap();
    let bytes = list.as_ssz_bytes();
    assert_eq!(bytes.len(), 96);
    assert_eq!(VariableList::<[u8; 32], 4>::from_ssz_bytes(&bytes), Ok(list));
    assert_eq!(
        VariableList::<[u8; 32], 4>::from_ssz_bytes(&bytes[..40]),
        Err(DecodeError::InvalidByteLength { len: 8, expected: 32 })
    );
}

#[test]
fn offset_table_items_are_split_and_decoded() {
    // Two offsets, 8 and 10, then two 2-byte items.
    let bytes = [8, 0, 0, 0, 10, 0, 0, 0, 1, 0, 2, 1];
    assert_eq!(decode_variable_list::<u16>(&bytes, 4), Ok(vec![1, 0x0102]));
    // More items than allowed.
    assert_eq!(decode_variable_list::<u16>(&bytes, 1), Err(DecodeError::InvalidOffsets));
    // An offset past the end of the input.
    let bad = [8, 0, 0, 0, 99, 0, 0, 0, 1, 0];
    assert_eq!(decode_variable_list::<u16>(&bad, 4), Err(DecodeError::InvalidOffsets));
    assert_eq!(decode_variable_list::<u16>(&[], 4), Ok(vec![]));
}

fn some(v: u16) -> Optional<u16> {
    Optional::from_option(Some(v))
}

#[test]
fn variable_length_items_use_an_offset_table() {
    let list: VariableList<Optional<u16>, 4> =
        VariableList::new(vec![some(5), Optional::none(), some(0x0107)]).unwrap();
    let bytes = list.as_ssz_bytes();
    assert_eq!(
        bytes,
        vec![12, 0, 0, 0, 15, 0, 0, 0, 15, 0, 0, 0, 1, 5, 0, 1, 7, 1]
    );
    assert_eq!(list.ssz_bytes_len(), bytes.len());
    assert!(!VariableList::<Optional<u16>, 4>::is_ssz_fixed_len());
    assert_eq!(VariableList::<Optional<u16>, 4>::from_ssz_bytes(&bytes), Ok(list));
    // The list admits at most one item.
    assert_eq!(
        VariableList::<Optional<u16>, 1>::from_ssz_bytes(&bytes),
        Err(DecodeError::InvalidOffsets)
    );
}

#[test]
fn fixed_vector_of_variable_length_items() {
    let fixed: FixedVector<Optional<u16>, 2> =
        FixedVector::new(vec![some(9), Optional::none()]).unwrap();
    let bytes = fixed.as_ssz_bytes();
    assert_eq!(bytes, vec![8, 0, 0, 0, 11, 0, 0, 0, 1, 9, 0]);
    assert_eq!(FixedVector::<Optional<u16>, 2>::ssz_fixed_len(), 4);
    assert_eq!(FixedVector::<Optional<u16>, 2>::from_ssz_bytes(&bytes), Ok(fixed));
    // Two items where three are expected.
    assert_eq!(
        FixedVector::<Optional<u16>, 3>::from_ssz_bytes(&bytes),
        Err(DecodeError::BytesInvalid(ssz_types::Error::OutOfBounds { i: 2, len: 3 }))
    );
}

#[test]
fn optional_items_hash_as_their_own_roots() {
    let list: VariableList<Optional<u16>, 2> =
        VariableList::new(vec![some(3), Optional::none()]).unwrap();
    let leaves = [some(3).tree_hash_root(), Optional::<u16>::none().tree_hash_root()];
    let mut bytes = vec![];
    bytes.extend_from_slice(&leaves[0]);
    bytes.extend_from_slice(&leaves[1]);
    let root = tree_hash::merkle_root(&bytes, 2);
    assert_eq!(list.tree_hash_root(), tree_hash::mix_in_length(&root, 2).0);
}
