use ssz_types::{Error, RuntimeFixedVector, RuntimeVariableList, VariableList};

#[test]
fn runtime_variable_list_new() {
    let vec = vec![42; 5];
    let fixed: Result<RuntimeVariableList<u64>, _> = RuntimeVariableList::new(vec, 4);
    assert!(fixed.is_err());

    let vec = vec![42; 3];
    let fixed: Result<RuntimeVariableList<u64>, _> = RuntimeVariableList::new(vec, 4);
    assert!(fixed.is_ok());

    let vec = vec![42; 4];
    let fixed: Result<RuntimeVariableList<u64>, _> = RuntimeVariableList::new(vec, 4);
    assert!(fixed.is_ok());
}

#[test]
fn runtime_variable_list_indexing() {
    let vec = vec![1, 2];

    let mut fixed: RuntimeVariableList<u64> = RuntimeVariableList::new(vec.clone(), 8192).unwrap();

    assert_eq!(fixed.as_slice()[0], 1);
    assert_eq!(&fixed.as_slice()[0..1], &vec[0..1]);
    assert_eq!(fixed.as_slice()[..].len(), 2);

    fixed.as_mut_slice()[1] = 3;
    assert_eq!(fixed.as_slice()[1], 3);
}

#[test]
fn runtime_variable_list_length() {
    // Too long.
    let vec = vec![42; 5];
    let err = RuntimeVariableList::<u64>::new(vec.clone(), 4).unwrap_err();
    assert_eq!(err, Error::OutOfBounds { i: 5, len: 4 });

    let vec = vec![42; 3];
    let fixed: RuntimeVariableList<u64> = RuntimeVariableList::new(vec.clone(), 4).unwrap();
    assert_eq!(&fixed.as_slice()[0..3], &vec[..]);
    assert_eq!(fixed.as_slice(), &vec![42, 42, 42][..]);

    let vec = vec![];
    let fixed: RuntimeVariableList<u64> = RuntimeVariableList::new(vec, 4).unwrap();
    assert_eq!(fixed.as_slice(), &[] as &[u64]);
}

#[test]
fn runtime_variable_list_deref() {
    let vec = vec![0, 2, 4, 6];
    let fixed: RuntimeVariableList<u64> = RuntimeVariableList::new(vec, 4).unwrap();

    assert_eq!(fixed.as_slice().first(), Some(&0));
    assert_eq!(fixed.as_slice().get(3), Some(&6));
    assert_eq!(fixed.as_slice().get(4), None);
}

#[test]
fn runtime_variable_list_encode() {
    let vec: RuntimeVariableList<u16> = RuntimeVariableList::new(vec![0; 2], 2).unwrap();
    assert_eq!(vec.as_ssz_bytes(), vec![0, 0, 0, 0]);
    assert_eq!(RuntimeVariableList::<u16>::ssz_fixed_len(), 4);
}

fn round_trip(item: RuntimeVariableList<u16>) {
    let max_len = item.max_len();
    let encoded = &item.as_ssz_bytes();
    assert_eq!(item.ssz_bytes_len(), encoded.len());
    assert_eq!(
        RuntimeVariableList::from_ssz_bytes(encoded, max_len),
        Ok(item)
    );
}

#[test]
fn runtime_variable_list_u16_len_8() {
    round_trip(RuntimeVariableList::new(vec![42; 8], 8).unwrap());
    round_trip(RuntimeVariableList::new(vec![0; 8], 8).unwrap());
}

#[test]
fn runtime_variable_list_equality_ignores_bound() {
    let a = RuntimeVariableList::new(vec![1u64, 2, 3], 4).unwrap();
    let b = RuntimeVariableList::new(vec![1u64, 2, 3], 100).unwrap();
    let c = RuntimeVariableList::new(vec![1u64, 2], 100).unwrap();
    assert_eq!(a, b);
    assert_ne!(b, c);
}

#[test]
fn runtime_variable_list_push_and_root() {
    let mut list = RuntimeVariableList::<u64>::empty(2);
    assert!(list.is_empty());
    assert_eq!(list.push(7), Ok(()));
    assert_eq!(list.push(8), Ok(()));
    assert_eq!(list.push(9), Err(Error::OutOfBounds { i: 3, len: 2 }));
    assert_eq!(list.len(), 2);
    let same = VariableList::<u64, 2>::new(vec![7, 8]).unwrap();
    assert_eq!(list.tree_hash_root(), same.tree_hash_root());
}

#[test]
fn runtime_fixed_vector_basics() {
    let mut v = RuntimeFixedVector::new(vec![1u32, 2, 3]);
    assert_eq!(v.len(), 3);
    assert_eq!(v.to_vec(), vec![1, 2, 3]);
    let taken = v.take();
    assert_eq!(taken.as_slice(), &[1, 2, 3]);
    assert_eq!(v.as_slice(), &[0, 0, 0]);
    assert_eq!(v.len(), 3);
    let d = RuntimeFixedVector::<u32>::default(4);
    assert_eq!(d.into_vec(), vec![0, 0, 0, 0]);
}
