//! `FixedVector`: an ordered sequence of exactly `N` items.
use crate::codec::{
    append_items, decode_vector, decode_vector_items, encode_items, encoded_len, offsets_fit,
};
use crate::element::SszElement;
use crate::merkle::Hash256;
use crate::tree_hash::{items_root, vec_tree_hash_root};
use crate::{DecodeError, Error};
use vstd::prelude::*;

verus! {

/// An ordered sequence of `T` with exactly `N` items, the SSZ `Vector`.
///
/// Items may be replaced but never added or removed. Equality compares the
/// items only.
#[derive(Clone, Debug, PartialEq, Eq, Hash)]
pub struct FixedVector<T, const N: usize> {
    vec: Vec<T>,
}

impl<T, const N: usize> View for FixedVector<T, N> {
    type V = Seq<T>;

    closed spec fn view(&self) -> Seq<T> {
        self.vec@
    }
}

impl<T, const N: usize> FixedVector<T, N> {
    /// The vector holds exactly `N` items.
    pub open spec fn wf(&self) -> bool {
        self@.len() == N
    }

    /// Returns a vector of the items of `vec`, or an error when there are
    /// not exactly `N` of them.
    pub fn new(vec: Vec<T>) -> (r: Result<Self, Error>)
        ensures
            match r {
                Ok(v) => vec@.len() == N && v@ == vec@ && v.wf(),
                Err(e) => vec@.len() != N && e == Error::OutOfBounds { i: vec@.len() as usize, len: N },
            },
    {
        if vec.len() == N {
            Ok(Self { vec })
        } else {
            Err(Error::OutOfBounds { i: vec.len(), len: N })
        }
    }

    /// Adds `value` to `items`, which are being collected for a vector, or
    /// returns an error naming the count already reached when `items` holds
    /// `N` of them, leaving `items` as it was.
    pub fn collect_item(items: &mut Vec<T>, value: T) -> (r: Result<(), Error>)
        ensures
            old(items)@.len() < N ==> r is Ok && final(items)@ == old(items)@.push(value),
            old(items)@.len() >= N ==> r == Err::<(), Error>(
                Error::OutOfBounds { i: old(items)@.len() as usize, len: N },
            ) && final(items)@ == old(items)@,
    {
        if items.len() >= N {
            Err(Error::OutOfBounds { i: items.len(), len: N })
        } else {
            items.push(value);
            Ok(())
        }
    }

    /// Returns a vector of `N` clones of `elem`.
    pub fn from_elem(elem: T) -> (r: Self) where T: Clone
        ensures
            r@.len() == N,
            forall|i: int| 0 <= i < N ==> cloned(elem, #[trigger] r@[i]),
            r.wf(),
    {
        Self { vec: vec![elem; N] }
    }

    /// Returns the number of items, which is `N` for a well-formed vector.
    pub fn len(&self) -> (r: usize)
        ensures
            r == self@.len(),
    {
        self.vec.len()
    }

    /// Returns whether the vector holds no item.
    pub fn is_empty(&self) -> (r: bool)
        ensures
            r == (self@.len() == 0),
    {
        self.vec.len() == 0
    }

    /// Returns the number of items every vector of this type holds.
    pub fn capacity() -> (r: usize)
        ensures
            r == N,
    {
        N
    }

    /// Returns the items.
    pub fn as_slice(&self) -> (r: &[T])
        ensures
            r@ == self@,
    {
        self.vec.as_slice()
    }

    /// Returns item `index`.
    pub fn get(&self, index: usize) -> (r: Option<&T>)
        ensures
            index < self@.len() ==> r == Some(&self@[index as int]),
            index >= self@.len() ==> r is None,
    {
        if index < self.vec.len() {
            Some(&self.vec[index])
        } else {
            None
        }
    }

    /// Replaces item `index` with `value`.
    pub fn set(&mut self, index: usize, value: T)
        requires
            old(self).wf(),
            index < old(self)@.len(),
        ensures
            final(self).wf(),
            final(self)@ == old(self)@.update(index as int, value),
    {
        self.vec.set(index, value);
    }

    /// Returns the items as a `Vec`.
    pub fn into_vec(self) -> (r: Vec<T>)
        ensures
            r@ == self@,
    {
        self.vec
    }
}

impl<T: SszElement, const N: usize> FixedVector<T, N> {
    /// A vector is of fixed length in encoded form exactly when its items are.
    pub fn is_ssz_fixed_len() -> (r: bool)
        ensures
            r == T::spec_is_fixed_len(),
    {
        T::is_ssz_fixed_len()
    }

    /// Returns the size of the encoding for fixed-length items, and the size
    /// of an offset otherwise.
    pub fn ssz_fixed_len() -> (r: usize)
        requires
            T::spec_is_fixed_len() ==> T::spec_fixed_len() * N <= usize::MAX,
        ensures
            T::spec_is_fixed_len() ==> r == T::spec_fixed_len() * N,
            !T::spec_is_fixed_len() ==> r == 4,
    {
        if T::is_ssz_fixed_len() {
            T::ssz_fixed_len() * N
        } else {
            4
        }
    }

    /// Returns the size of the encoding.
    pub fn ssz_bytes_len(&self) -> (r: usize)
        requires
            encode_items(self@).len() <= usize::MAX,
        ensures
            r == encode_items(self@).len(),
    {
        encoded_len(self.vec.as_slice())
    }

    /// Appends the encoding to `buf`.
    pub fn ssz_append(&self, buf: &mut Vec<u8>)
        requires
            offsets_fit(self@),
        ensures
            final(buf)@ == old(buf)@ + encode_items(self@),
    {
        append_items(self.vec.as_slice(), buf)
    }

    /// Returns the encoding.
    pub fn as_ssz_bytes(&self) -> (r: Vec<u8>)
        requires
            offsets_fit(self@),
        ensures
            r@ == encode_items(self@),
    {
        let mut buf: Vec<u8> = Vec::new();
        append_items(self.vec.as_slice(), &mut buf);
        assert(buf@ =~= encode_items(self@));
        buf
    }

    /// Decodes a vector from `bytes`.
    pub fn from_ssz_bytes(bytes: &[u8]) -> (r: Result<Self, DecodeError>)
        ensures
            match r {
                Ok(v) => decode_vector::<T>(bytes@, N as nat) == Ok::<Seq<T>, DecodeError>(v@)
                    && v.wf(),
                Err(e) => decode_vector::<T>(bytes@, N as nat) == Err::<Seq<T>, DecodeError>(e),
            },
    {
        match decode_vector_items::<T>(bytes, N) {
            Ok(vec) => Ok(Self { vec }),
            Err(e) => Err(e),
        }
    }

    /// Returns the tree-hash root: the root of the items in a tree sized
    /// for `N` items, with no length mixed in.
    pub fn tree_hash_root(&self) -> (r: Hash256)
        requires
            self.wf(),
        ensures
            r@ == items_root(self@, N as nat),
    {
        vec_tree_hash_root(self.vec.as_slice(), N)
    }
}

impl<T: Default, const N: usize> Default for FixedVector<T, N> {
    /// Returns a vector of `N` default values.
    fn default() -> (r: Self)
        ensures
            r.wf(),
    {
        let mut vec: Vec<T> = Vec::new();
        let mut i: usize = 0;
        while i < N
            invariant
                i <= N,
                vec@.len() == i,
            decreases N - i,
        {
            vec.push(T::default());
            i = i + 1;
        }
        Self { vec }
    }
}

} // verus!
