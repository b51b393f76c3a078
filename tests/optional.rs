use ssz_types::{DecodeError, Optional, VariableList};

#[test]
fn optional_encode() {
    let some: Optional<u8> = Some(42).into();
    let bytes: Vec<u8> = vec![1, 42];
    let mut encoded = vec![];
    some.ssz_append(&mut encoded);
    assert_eq!(encoded, bytes);

    let none: Optional<u8> = None.into();
    let empty: Vec<u8> = vec![];
    let mut encoded = vec![];
    none.ssz_append(&mut encoded);
    assert_eq!(encoded, empty);
}

#[test]
fn decode() {
    let bytes = &[1, 42, 0, 0, 0, 0, 0, 0, 0];
    let some: Optional<u64> = Optional::from_ssz_bytes(bytes).unwrap();
    assert_eq!(Some(42), some.into_option());

    let empty = &[];
    let none: Optional<u64> = Optional::from_ssz_bytes(empty).unwrap();
    assert_eq!(None, none.into_option());
}

#[test]
fn tree_hash_none() {
    // None should merklize the same as an empty VariableList.
    let none: Optional<u8> = Optional::from(None);
    let empty_list: VariableList<u8, 0> = VariableList::new(vec![]).unwrap();
    assert_eq!(none.tree_hash_root(), empty_list.tree_hash_root());
}

#[test]
fn tree_hash_some_int() {
    // Optional should merklize the same as a length 1 VariableList.
    let some_int: Optional<u8> = Optional::from(Some(9));
    let list_int: VariableList<u8, 1> = VariableList::new(vec![9; 1]).unwrap();
    assert_eq!(some_int.tree_hash_root(), list_int.tree_hash_root());
}

#[test]
fn optional_decode_errors_and_length() {
    assert_eq!(
        Optional::<u16>::from_ssz_bytes(&[2, 1, 0]),
        Err(DecodeError::MissingOptionalIdentifier)
    );
    assert_eq!(
        Optional::<u16>::from_ssz_bytes(&[1, 1]),
        Err(DecodeError::InvalidByteLength { len: 1, expected: 2 })
    );
    let some = Optional::from_option(Some(5u32));
    assert_eq!(some.ssz_bytes_len(), 5);
    assert_eq!(Optional::<u32>::none().ssz_bytes_len(), 0);
    assert!(!Optional::<u32>::is_ssz_fixed_len());
}
