use ssz_types::variable_list::{preallocation_len, MAX_ELEMENTS_TO_PRE_ALLOCATE};
use ssz_types::{DecodeError, Error, VariableList};
use std::collections::HashSet;

fn root_with_length(bytes: &[u8], len: usize) -> [u8; 32] {
    let root = tree_hash::merkle_root(bytes, 0);
    tree_hash::mix_in_length(&root, len).0
}

#[test]
fn variable_list_new() {
    let vec = vec![42; 5];
    let fixed: Result<VariableList<u64, 4>, _> = VariableList::new(vec);
    assert!(fixed.is_err());

    let vec = vec![42; 3];
    let fixed: Result<VariableList<u64, 4>, _> = VariableList::new(vec);
    assert!(fixed.is_ok());

    let vec = vec![42; 4];
    let fixed: Result<VariableList<u64, 4>, _> = VariableList::new(vec);
    assert!(fixed.is_ok());
}

#[test]
fn repeat_full() {
    let manual_list = VariableList::<u64, 5>::new(vec![42; 5]).unwrap();
    let repeat_list = VariableList::<u64, 5>::repeat_full(42);
    assert_eq!(manual_list, repeat_list);
}

#[test]
fn variable_list_indexing() {
    let vec = vec![1, 2];

    let mut fixed: VariableList<u64, 8192> = VariableList::new(vec.clone()).unwrap();

    assert_eq!(fixed.as_slice()[0], 1);
    assert_eq!(&fixed.as_slice()[0..1], &vec[0..1]);
    assert_eq!((fixed.as_slice()[..]).len(), 2);

    fixed.set(1, 3);
    assert_eq!(fixed.as_slice()[1], 3);
}

#[test]
fn variable_list_length() {
    // Too long.
    let vec = vec![42; 5];
    let err = VariableList::<u64, 4>::new(vec.clone()).unwrap_err();
    assert_eq!(err, Error::OutOfBounds { i: 5, len: 4 });

    let vec = vec![42; 3];
    let fixed: VariableList<u64, 4> = VariableList::new(vec.clone()).unwrap();
    assert_eq!(&fixed.as_slice()[0..3], &vec[..]);
    assert_eq!(fixed.as_slice(), &vec![42, 42, 42][..]);

    let vec = vec![];
    let fixed: VariableList<u64, 4> = VariableList::new(vec).unwrap();
    assert_eq!(fixed.as_slice(), &[] as &[u64]);
}

#[test]
fn variable_list_deref() {
    let vec = vec![0, 2, 4, 6];
    let fixed: VariableList<u64, 4> = VariableList::new(vec).unwrap();

    assert_eq!(fixed.as_slice().first(), Some(&0));
    assert_eq!(fixed.get(3), Some(&6));
    assert_eq!(fixed.get(4), None);
}

#[test]
fn variable_list_encode() {
    let vec: VariableList<u16, 2> = VariableList::new(vec![0; 2]).unwrap();
    assert_eq!(vec.as_ssz_bytes(), vec![0, 0, 0, 0]);
    assert_eq!(VariableList::<u16, 2>::ssz_fixed_len(), 4);
}

fn round_trip<const N: usize>(item: VariableList<u16, N>) {
    let encoded = &item.as_ssz_bytes();
    assert_eq!(item.ssz_bytes_len(), encoded.len());
    assert_eq!(VariableList::<u16, N>::from_ssz_bytes(encoded), Ok(item));
}

#[test]
fn variable_list_u16_len_8() {
    round_trip::<8>(VariableList::new(vec![42; 8]).unwrap());
    round_trip::<8>(VariableList::new(vec![0; 8]).unwrap());
    round_trip::<8>(VariableList::new(vec![]).unwrap());
}

#[test]
fn ssz_empty_list() {
    let empty_list = VariableList::<u16, 8>::empty();
    let bytes = empty_list.as_ssz_bytes();
    assert!(bytes.is_empty());
    assert_eq!(VariableList::from_ssz_bytes(&[]).unwrap(), empty_list);
}

#[test]
fn variable_list_tree_hash_u8() {
    let fixed: VariableList<u8, 0> = VariableList::new(vec![]).unwrap();
    assert_eq!(fixed.tree_hash_root(), root_with_length(&[0; 8], 0));

    for i in 0..=1 {
        let fixed: VariableList<u8, 1> = VariableList::new(vec![0; i]).unwrap();
        assert_eq!(fixed.tree_hash_root(), root_with_length(&vec![0; i], i));
    }

    for i in 0..=8 {
        let fixed: VariableList<u8, 8> = VariableList::new(vec![0; i]).unwrap();
        assert_eq!(fixed.tree_hash_root(), root_with_length(&vec![0; i], i));
    }

    for i in 0..=13 {
        let fixed: VariableList<u8, 13> = VariableList::new(vec![0; i]).unwrap();
        assert_eq!(fixed.tree_hash_root(), root_with_length(&vec![0; i], i));
    }

    for i in 0..=16 {
        let fixed: VariableList<u8, 16> = VariableList::new(vec![0; i]).unwrap();
        assert_eq!(fixed.tree_hash_root(), root_with_length(&vec![0; i], i));
    }

    let source: Vec<u8> = (0..16).collect();
    let fixed: VariableList<u8, 16> = VariableList::new(source.clone()).unwrap();
    assert_eq!(fixed.tree_hash_root(), root_with_length(&source, 16));
}

#[test]
fn variable_list_large_list_pre_allocation() {
    // A very large list type that would not fit in memory, built from a
    // source that announces half of its capacity.
    const N: usize = 1099511627776;
    let mut announced: VariableList<u64, N> = VariableList::with_size_hint(Some(N / 2));
    let mut plain: VariableList<u64, N> = VariableList::with_size_hint(None);
    for _ in 0..5 {
        announced.push(1).unwrap();
        plain.push(1).unwrap();
    }
    // Don't explode.
    assert_eq!(announced, plain);
}

#[test]
fn variable_list_std_hash() {
    let x: VariableList<u32, 16> = VariableList::new(vec![3; 16]).unwrap();
    let y: VariableList<u32, 16> = VariableList::new(vec![4; 16]).unwrap();
    let mut hashset = HashSet::new();

    for value in [x.clone(), y.clone()] {
        assert!(hashset.insert(value.clone()));
        assert!(!hashset.insert(value.clone()));
        assert!(hashset.contains(&value));
    }
    assert_eq!(hashset.len(), 2);
}

#[test]
fn error_from_infallible() {
    let result: Result<Vec<u64>, Error> = Ok(VariableList::<u64, 5>::repeat_full(6).into_vec());
    assert_eq!(result, Ok(vec![6; 5]));
}

#[test]
fn variable_list_push_reports_attempted_length() {
    let mut list = VariableList::<u64, 2>::empty();
    assert_eq!(list.push(1), Ok(()));
    assert_eq!(list.push(2), Ok(()));
    assert_eq!(list.push(3), Err(Error::OutOfBounds { i: 3, len: 2 }));
    assert_eq!(list.as_slice(), &[1, 2]);
    assert_eq!(VariableList::<u64, 2>::max_len(), 2);
    assert_eq!(list.len(), 2);
}

#[test]
fn variable_list_decode_errors() {
    assert_eq!(
        VariableList::<u16, 2>::from_ssz_bytes(&[0; 6]),
        Err(DecodeError::BytesInvalid(Error::OutOfBounds { i: 3, len: 2 }))
    );
    assert_eq!(
        VariableList::<u16, 2>::from_ssz_bytes(&[0; 3]),
        Err(DecodeError::InvalidByteLength { len: 1, expected: 2 })
    );
}

#[test]
fn preallocation_is_clamped() {
    assert_eq!(preallocation_len(None, 10), 10);
    assert_eq!(preallocation_len(Some(3), 10), 3);
    assert_eq!(preallocation_len(Some(usize::MAX), usize::MAX), MAX_ELEMENTS_TO_PRE_ALLOCATE);
    assert_eq!(preallocation_len(None, 1 << 40), 131072);
}

#[test]
fn variable_list_of_u16_matches_reference_root() {
    let values: Vec<u16> = (1..=20).collect();
    let list: VariableList<u16, 64> = VariableList::new(values.clone()).unwrap();
    let mut bytes = vec![];
    for v in &values {
        bytes.extend_from_slice(&v.to_le_bytes());
    }
    // 64 two-byte items fill four chunks.
    let root = tree_hash::merkle_root(&bytes, 4);
    assert_eq!(
        list.tree_hash_root(),
        tree_hash::mix_in_length(&root, values.len()).0
    );
}
