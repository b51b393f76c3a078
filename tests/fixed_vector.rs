use ssz_types::{DecodeError, Error, FixedVector};
use std::collections::HashSet;

fn reference_root(bytes: &[u8], minimum_leaf_count: usize) -> [u8; 32] {
    tree_hash::merkle_root(bytes, minimum_leaf_count).0
}

#[test]
fn fixed_vector_new() {
    let vec = vec![42; 5];
    let fixed: Result<FixedVector<u64, 4>, _> = FixedVector::new(vec);
    assert!(fixed.is_err());

    let vec = vec![42; 3];
    let fixed: Result<FixedVector<u64, 4>, _> = FixedVector::new(vec);
    assert!(fixed.is_err());

    let vec = vec![42; 4];
    let fixed: Result<FixedVector<u64, 4>, _> = FixedVector::new(vec);
    assert!(fixed.is_ok());
}

#[test]
fn fixed_vector_indexing() {
    let mut vec = vec![1, 2];
    vec.resize_with(8192, u64::default);

    let mut fixed: FixedVector<u64, 8192> = FixedVector::new(vec.clone()).unwrap();

    assert_eq!(fixed.as_slice()[0], 1);
    assert_eq!(&fixed.as_slice()[0..1], &vec[0..1]);
    assert_eq!((fixed.as_slice()[..]).len(), 8192);

    fixed.set(1, 3);
    assert_eq!(fixed.as_slice()[1], 3);
}

#[test]
fn wrong_length() {
    // Too long.
    let vec = vec![42; 5];
    let err = FixedVector::<u64, 4>::new(vec.clone()).unwrap_err();
    assert_eq!(err, Error::OutOfBounds { i: 5, len: 4 });

    // Too short.
    let vec = vec![42; 3];
    let err = FixedVector::<u64, 4>::new(vec.clone()).unwrap_err();
    assert_eq!(err, Error::OutOfBounds { i: 3, len: 4 });

    // Too short (empty).
    let vec = vec![];
    let err = FixedVector::<u64, 4>::new(vec).unwrap_err();
    assert_eq!(err, Error::OutOfBounds { i: 0, len: 4 });
}

#[test]
fn fixed_vector_deref() {
    let vec = vec![0, 2, 4, 6];
    let fixed: FixedVector<u64, 4> = FixedVector::new(vec).unwrap();

    assert_eq!(fixed.as_slice().first(), Some(&0));
    assert_eq!(fixed.get(3), Some(&6));
    assert_eq!(fixed.get(4), None);
}

#[test]
fn iterator() {
    let vec = vec![0, 2, 4, 6];
    let fixed: FixedVector<u64, 4> = FixedVector::new(vec).unwrap();

    // test the reference version
    assert_eq!(fixed.as_slice().iter().sum::<u64>(), 12);
    // test the owned version
    assert_eq!(fixed.into_vec().into_iter().sum::<u64>(), 12);
}

#[test]
fn ssz_encode() {
    let vec: FixedVector<u16, 2> = FixedVector::new(vec![0; 2]).unwrap();
    assert_eq!(vec.as_ssz_bytes(), vec![0, 0, 0, 0]);
    assert_eq!(FixedVector::<u16, 2>::ssz_fixed_len(), 4);
}

fn ssz_round_trip<const N: usize>(item: FixedVector<u16, N>) {
    let encoded = &item.as_ssz_bytes();
    assert_eq!(item.ssz_bytes_len(), encoded.len());
    assert_eq!(FixedVector::<u16, N>::from_ssz_bytes(encoded), Ok(item));
}

#[test]
fn ssz_round_trip_u16_len_8() {
    ssz_round_trip::<8>(FixedVector::new(vec![42; 8]).unwrap());
    ssz_round_trip::<8>(FixedVector::new(vec![0; 8]).unwrap());
}

#[test]
fn fixed_vector_tree_hash_u8() {
    let fixed: FixedVector<u8, 0> = FixedVector::new(vec![]).unwrap();
    assert_eq!(fixed.tree_hash_root(), reference_root(&[0; 8], 0));

    let fixed: FixedVector<u8, 1> = FixedVector::new(vec![0; 1]).unwrap();
    assert_eq!(fixed.tree_hash_root(), reference_root(&[0; 8], 0));

    let fixed: FixedVector<u8, 8> = FixedVector::new(vec![0; 8]).unwrap();
    assert_eq!(fixed.tree_hash_root(), reference_root(&[0; 8], 0));

    let fixed: FixedVector<u8, 16> = FixedVector::new(vec![42; 16]).unwrap();
    assert_eq!(fixed.tree_hash_root(), reference_root(&[42; 16], 0));

    let source: Vec<u8> = (0..16).collect();
    let fixed: FixedVector<u8, 16> = FixedVector::new(source.clone()).unwrap();
    assert_eq!(fixed.tree_hash_root(), reference_root(&source, 0));
}

#[test]
fn fixed_vector_std_hash() {
    let x: FixedVector<u32, 16> = FixedVector::new(vec![3; 16]).unwrap();
    let y: FixedVector<u32, 16> = FixedVector::new(vec![4; 16]).unwrap();
    let mut hashset = HashSet::new();

    for value in [x.clone(), y.clone()] {
        assert!(hashset.insert(value.clone()));
        assert!(!hashset.insert(value.clone()));
        assert!(hashset.contains(&value));
    }
    assert_eq!(hashset.len(), 2);
}

#[test]
fn fixed_vector_from_elem_fills_capacity() {
    let fixed: FixedVector<u16, 5> = FixedVector::from_elem(7);
    assert_eq!(fixed.as_slice(), &[7, 7, 7, 7, 7]);
    assert_eq!(FixedVector::<u16, 5>::capacity(), 5);
    assert!(!fixed.is_empty());
}

#[test]
fn fixed_vector_decode_errors() {
    // Empty input.
    assert_eq!(
        FixedVector::<u16, 2>::from_ssz_bytes(&[]),
        Err(DecodeError::InvalidByteLength { len: 0, expected: 1 })
    );
    // Three items where two are expected.
    assert_eq!(
        FixedVector::<u16, 2>::from_ssz_bytes(&[0; 6]),
        Err(DecodeError::BytesInvalid(Error::OutOfBounds { i: 3, len: 2 }))
    );
    // A trailing partial item.
    assert_eq!(
        FixedVector::<u16, 2>::from_ssz_bytes(&[0; 5]),
        Err(DecodeError::InvalidByteLength { len: 1, expected: 2 })
    );
}

#[test]
fn fixed_vector_encoding_is_little_endian() {
    let fixed: FixedVector<u32, 2> = FixedVector::new(vec![0x0102_0304, 0xa0b0_c0d0]).unwrap();
    assert_eq!(
        fixed.as_ssz_bytes(),
        vec![0x04, 0x03, 0x02, 0x01, 0xd0, 0xc0, 0xb0, 0xa0]
    );
    assert_eq!(FixedVector::<u32, 2>::ssz_fixed_len(), 8);
    assert!(FixedVector::<u32, 2>::is_ssz_fixed_len());
}

#[test]
fn fixed_vector_of_u64_hashes_packed_chunks() {
    let values: Vec<u64> = (0..8).collect();
    let fixed: FixedVector<u64, 8> = FixedVector::new(values.clone()).unwrap();
    let mut bytes = vec![];
    for v in &values {
        bytes.extend_from_slice(&v.to_le_bytes());
    }
    assert_eq!(fixed.tree_hash_root(), reference_root(&bytes, 0));
}

#[test]
fn fixed_vector_collect_item_stops_at_capacity() {
    let mut items = vec![];
    assert_eq!(FixedVector::<u64, 2>::collect_item(&mut items, 1), Ok(()));
    assert_eq!(FixedVector::<u64, 2>::collect_item(&mut items, 2), Ok(()));
    assert_eq!(
        FixedVector::<u64, 2>::collect_item(&mut items, 3),
        Err(Error::OutOfBounds { i: 2, len: 2 })
    );
    assert_eq!(items, vec![1, 2]);
    assert_eq!(FixedVector::<u64, 2>::new(items).unwrap().as_slice(), &[1, 2]);
}
