//! `VariableListU8`: a `VariableList` of bytes whose encoding is the bytes
//! themselves.
use crate::codec::encode_items;
use crate::fixed_vector_u8::{append_bytes, bytes_to_vec, lemma_bytes_encode_as_themselves};
use crate::merkle::{mixed_in_length, Hash256};
use crate::tree_hash::items_root;
use crate::variable_list::{append_error, VariableList};
use crate::{DecodeError, Error};
use vstd::prelude::*;

verus! {

/// At most `N` bytes, encoded as themselves.
#[derive(Clone, Debug, PartialEq, Eq, Hash)]
pub struct VariableListU8<const N: usize> {
    inner: VariableList<u8, N>,
}

impl<const N: usize> View for VariableListU8<N> {
    type V = Seq<u8>;

    closed spec fn view(&self) -> Seq<u8> {
        self.inner@
    }
}

impl<const N: usize> VariableListU8<N> {
    /// The list holds at most `N` bytes.
    pub open spec fn wf(&self) -> bool {
        self@.len() <= N
    }

    /// Returns a list of the bytes of `vec`, or an error when there are more
    /// than `N` of them.
    pub fn new(vec: Vec<u8>) -> (r: Result<Self, Error>)
        ensures
            match r {
                Ok(l) => vec@.len() <= N && l@ == vec@ && l.wf(),
                Err(e) => vec@.len() > N && e == Error::OutOfBounds { i: vec@.len() as usize, len: N },
            },
    {
        match VariableList::new(vec) {
            Ok(inner) => Ok(Self { inner }),
            Err(e) => Err(e),
        }
    }

    /// Returns an empty list.
    pub fn empty() -> (r: Self)
        ensures
            r@ == Seq::<u8>::empty(),
            r.wf(),
    {
        Self { inner: VariableList::empty() }
    }

    /// Returns the number of bytes.
    pub fn len(&self) -> (r: usize)
        ensures
            r == self@.len(),
    {
        self.inner.len()
    }

    /// Returns whether the list holds no byte.
    pub fn is_empty(&self) -> (r: bool)
        ensures
            r == (self@.len() == 0),
    {
        self.inner.is_empty()
    }

    /// Returns the most bytes the list can hold.
    pub fn max_len() -> (r: usize)
        ensures
            r == N,
    {
        N
    }

    /// Appends `value`, or returns an error and leaves the list as it was
    /// when it already holds `N` bytes.
    pub fn push(&mut self, value: u8) -> (r: Result<(), Error>)
        requires
            old(self).wf(),
        ensures
            final(self).wf(),
            old(self)@.len() < N ==> r is Ok && final(self)@ == old(self)@.push(value),
            old(self)@.len() >= N ==> r == Err::<(), Error>(append_error(old(self)@.len(), N as nat))
                && final(self)@ == old(self)@,
    {
        self.inner.push(value)
    }

    /// Returns the bytes.
    pub fn as_slice(&self) -> (r: &[u8])
        ensures
            r@ == self@,
    {
        self.inner.as_slice()
    }

    /// Replaces byte `index` with `value`.
    pub fn set(&mut self, index: usize, value: u8)
        requires
            old(self).wf(),
            index < old(self)@.len(),
        ensures
            final(self).wf(),
            final(self)@ == old(self)@.update(index as int, value),
    {
        self.inner.set(index, value);
    }

    /// Returns the bytes as a `Vec`.
    pub fn into_vec(self) -> (r: Vec<u8>)
        ensures
            r@ == self@,
    {
        self.inner.into_vec()
    }

    /// A list is never of fixed length in encoded form.
    pub fn is_ssz_fixed_len() -> (r: bool)
        ensures
            r == false,
    {
        false
    }

    /// Returns the size of an offset, which stands for the list in a
    /// surrounding container.
    pub fn ssz_fixed_len() -> (r: usize)
        ensures
            r == 4,
    {
        4
    }

    /// Returns the size of the encoding.
    pub fn ssz_bytes_len(&self) -> (r: usize)
        ensures
            r == self@.len(),
    {
        self.inner.len()
    }

    /// Appends the encoding, the bytes themselves, to `buf`.
    pub fn ssz_append(&self, buf: &mut Vec<u8>)
        ensures
            final(buf)@ == old(buf)@ + self@,
            final(buf)@ == old(buf)@ + encode_items::<u8>(self@),
    {
        proof {
            lemma_bytes_encode_as_themselves(self@);
        }
        append_bytes(self.inner.as_slice(), buf);
    }

    /// Returns the encoding, the bytes themselves.
    pub fn as_ssz_bytes(&self) -> (r: Vec<u8>)
        ensures
            r@ == self@,
    {
        bytes_to_vec(self.inner.as_slice())
    }

    /// Decodes a list from `bytes`, which must be at most `N` bytes.
    pub fn from_ssz_bytes(bytes: &[u8]) -> (r: Result<Self, DecodeError>)
        ensures
            match r {
                Ok(l) => bytes@.len() <= N && l@ == bytes@ && l.wf(),
                Err(e) => bytes@.len() > N && e == DecodeError::BytesInvalid(
                    Error::OutOfBounds { i: bytes@.len() as usize, len: N },
                ),
            },
    {
        match Self::new(bytes_to_vec(bytes)) {
            Ok(l) => Ok(l),
            Err(e) => Err(DecodeError::BytesInvalid(e)),
        }
    }

    /// Returns the tree-hash root, that of a `VariableList` of the same bytes.
    pub fn tree_hash_root(&self) -> (r: Hash256)
        requires
            self.wf(),
        ensures
            r@ == mixed_in_length(items_root::<u8>(self@, N as nat), self@.len()),
    {
        self.inner.tree_hash_root()
    }
}

impl<const N: usize> Default for VariableListU8<N> {
    /// Returns an empty list.
    fn default() -> (r: Self)
        ensures
            r@ == Seq::<u8>::empty(),
            r.wf(),
    {
        Self::empty()
    }
}

} // verus!
