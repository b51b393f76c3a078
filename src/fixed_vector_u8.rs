//! `FixedVectorU8`: a `FixedVector` of bytes whose encoding is the bytes
//! themselves.
use crate::codec::{concat_encodings, encode_items};
use crate::fixed_vector::FixedVector;
use crate::merkle::{le_bytes, Hash256};
use crate::tree_hash::items_root;
use crate::{DecodeError, Error};
use vstd::prelude::*;

verus! {

/// A sequence of bytes encodes as itself.
pub proof fn lemma_bytes_encode_as_themselves(s: Seq<u8>)
    ensures
        concat_encodings::<u8>(s) == s,
        encode_items::<u8>(s) == s,
    decreases s.len(),
{
    if s.len() > 0 {
        lemma_bytes_encode_as_themselves(s.drop_last());
        reveal_with_fuel(le_bytes, 2);
        assert(le_bytes(s.last() as nat, 1) =~= seq![s.last()]);
        assert(s.drop_last() + seq![s.last()] =~= s);
    }
}

/// Appends `bytes` to `buf`.
pub fn append_bytes(bytes: &[u8], buf: &mut Vec<u8>)
    ensures
        final(buf)@ == old(buf)@ + bytes@,
{
    let ghost start = buf@;
    let mut i: usize = 0;
    while i < bytes.len()
        invariant
            i <= bytes@.len(),
            buf@ == start + bytes@.subrange(0, i as int),
        decreases bytes@.len() - i,
    {
        buf.push(bytes[i]);
        i = i + 1;
        assert(buf@ =~= start + bytes@.subrange(0, i as int));
    }
    assert(bytes@.subrange(0, bytes@.len() as int) =~= bytes@);
}

/// Returns a copy of `bytes`.
pub fn bytes_to_vec(bytes: &[u8]) -> (r: Vec<u8>)
    ensures
        r@ == bytes@,
{
    let mut v: Vec<u8> = Vec::new();
    append_bytes(bytes, &mut v);
    assert(v@ =~= bytes@);
    v
}

/// Exactly `N` bytes, encoded as themselves.
#[derive(Clone, Debug, PartialEq, Eq, Hash)]
pub struct FixedVectorU8<const N: usize> {
    inner: FixedVector<u8, N>,
}

impl<const N: usize> View for FixedVectorU8<N> {
    type V = Seq<u8>;

    closed spec fn view(&self) -> Seq<u8> {
        self.inner@
    }
}

impl<const N: usize> FixedVectorU8<N> {
    /// The vector holds exactly `N` bytes.
    pub open spec fn wf(&self) -> bool {
        self@.len() == N
    }

    /// Returns a vector of the bytes of `vec`, or an error when there are
    /// not exactly `N` of them.
    pub fn new(vec: Vec<u8>) -> (r: Result<Self, Error>)
        ensures
            match r {
                Ok(v) => vec@.len() == N && v@ == vec@ && v.wf(),
                Err(e) => vec@.len() != N && e == Error::OutOfBounds { i: vec@.len() as usize, len: N },
            },
    {
        match FixedVector::new(vec) {
            Ok(inner) => Ok(Self { inner }),
            Err(e) => Err(e),
        }
    }

    /// Returns `N` copies of `elem`.
    pub fn from_elem(elem: u8) -> (r: Self)
        ensures
            r@ == Seq::new(N as nat, |i: int| elem),
            r.wf(),
    {
        let inner = FixedVector::from_elem(elem);
        assert(inner@ =~= Seq::new(N as nat, |i: int| elem));
        Self { inner }
    }

    /// Returns the number of bytes.
    pub fn len(&self) -> (r: usize)
        ensures
            r == self@.len(),
    {
        self.inner.len()
    }

    /// Returns whether the vector holds no byte.
    pub fn is_empty(&self) -> (r: bool)
        ensures
            r == (self@.len() == 0),
    {
        self.inner.is_empty()
    }

    /// Returns the number of bytes every vector of this type holds.
    pub fn capacity() -> (r: usize)
        ensures
            r == N,
    {
        N
    }

    /// Returns the bytes.
    pub fn as_slice(&self) -> (r: &[u8])
        ensures
            r@ == self@,
    {
        self.inner.as_slice()
    }

    /// Replaces byte `index` with `value`.
    pub fn set(&mut self, index: usize, value: u8)
        requires
            old(self).wf(),
            index < old(self)@.len(),
        ensures
            final(self).wf(),
            final(self)@ == old(self)@.update(index as int, value),
    {
        self.inner.set(index, value);
    }

    /// Returns the bytes as a `Vec`.
    pub fn into_vec(self) -> (r: Vec<u8>)
        ensures
            r@ == self@,
    {
        self.inner.into_vec()
    }

    /// A byte vector is always of fixed length in encoded form.
    pub fn is_ssz_fixed_len() -> (r: bool)
        ensures
            r == true,
    {
        true
    }

    /// Returns the size of the encoding.
    pub fn ssz_fixed_len() -> (r: usize)
        ensures
            r == N,
    {
        N
    }

    /// Returns the size of the encoding.
    pub fn ssz_bytes_len(&self) -> (r: usize)
        ensures
            r == self@.len(),
    {
        self.inner.len()
    }

    /// Appends the encoding, the bytes themselves, to `buf`.
    pub fn ssz_append(&self, buf: &mut Vec<u8>)
        ensures
            final(buf)@ == old(buf)@ + self@,
            final(buf)@ == old(buf)@ + encode_items::<u8>(self@),
    {
        proof {
            lemma_bytes_encode_as_themselves(self@);
        }
        append_bytes(self.inner.as_slice(), buf);
    }

    /// Returns the encoding, the bytes themselves.
    pub fn as_ssz_bytes(&self) -> (r: Vec<u8>)
        ensures
            r@ == self@,
    {
        bytes_to_vec(self.inner.as_slice())
    }

    /// Decodes a vector from `bytes`, which must be exactly `N` bytes.
    pub fn from_ssz_bytes(bytes: &[u8]) -> (r: Result<Self, DecodeError>)
        ensures
            match r {
                Ok(v) => bytes@.len() == N && v@ == bytes@ && v.wf(),
                Err(e) => bytes@.len() != N && e == DecodeError::BytesInvalid(
                    Error::OutOfBounds { i: bytes@.len() as usize, len: N },
                ),
            },
    {
        match Self::new(bytes_to_vec(bytes)) {
            Ok(v) => Ok(v),
            Err(e) => Err(DecodeError::BytesInvalid(e)),
        }
    }

    /// Returns the tree-hash root, that of a `FixedVector` of the same bytes.
    pub fn tree_hash_root(&self) -> (r: Hash256)
        requires
            self.wf(),
        ensures
            r@ == items_root::<u8>(self@, N as nat),
    {
        self.inner.tree_hash_root()
    }
}

impl<const N: usize> Default for FixedVectorU8<N> {
    /// Returns `N` zero bytes.
    fn default() -> (r: Self)
        ensures
            r@ == Seq::new(N as nat, |i: int| 0u8),
            r.wf(),
    {
        Self::from_elem(0)
    }
}

} // verus!
