//! `VariableList`: an ordered sequence that never holds more than `N` items.
use crate::codec::{
    append_items, decode_list, decode_list_items, encode_items, encoded_len, offsets_fit,
};
use crate::element::SszElement;
use crate::merkle::{mix_in_length, mixed_in_length, Hash256};
use crate::tree_hash::{items_root, vec_tree_hash_root};
use crate::{DecodeError, Error};
use vstd::prelude::*;

verus! {

/// The largest number of items that construction from an outside source
/// reserves room for up front, whatever the source announces.
pub const MAX_ELEMENTS_TO_PRE_ALLOCATE: usize = 131072;

/// The error of appending to a list of `len` items with room for `max`: it
/// names the length that the append would have reached.
pub open spec fn append_error(len: nat, max: nat) -> Error {
    Error::OutOfBounds {
        i: if len < usize::MAX {
            (len + 1) as usize
        } else {
            usize::MAX
        },
        len: max as usize,
    }
}

/// How many items to reserve room for when a source announces at most
/// `hint` items for a list with room for `max`.
pub open spec fn preallocation(hint: Option<usize>, max: nat) -> nat {
    let clamped = if max < MAX_ELEMENTS_TO_PRE_ALLOCATE {
        max
    } else {
        MAX_ELEMENTS_TO_PRE_ALLOCATE as nat
    };
    match hint {
        Some(h) => if (h as nat) < clamped {
            h as nat
        } else {
            clamped
        },
        None => clamped,
    }
}

/// Returns how many items to reserve room for when a source announces at
/// most `hint` items for a list with room for `max`.
pub fn preallocation_len(hint: Option<usize>, max: usize) -> (r: usize)
    ensures
        r == preallocation(hint, max as nat),
        r <= MAX_ELEMENTS_TO_PRE_ALLOCATE,
{
    let clamped = if max < MAX_ELEMENTS_TO_PRE_ALLOCATE {
        max
    } else {
        MAX_ELEMENTS_TO_PRE_ALLOCATE
    };
    match hint {
        Some(h) => if h < clamped {
            h
        } else {
            clamped
        },
        None => clamped,
    }
}

/// An ordered sequence of `T` with at most `N` items, the SSZ `List`.
///
/// Equality compares the items only.
#[derive(Clone, Debug, PartialEq, Eq, Hash)]
pub struct VariableList<T, const N: usize> {
    vec: Vec<T>,
}

impl<T, const N: usize> View for VariableList<T, N> {
    type V = Seq<T>;

    closed spec fn view(&self) -> Seq<T> {
        self.vec@
    }
}

impl<T, const N: usize> VariableList<T, N> {
    /// The list holds at most `N` items.
    pub open spec fn wf(&self) -> bool {
        self@.len() <= N
    }

    /// Returns a list of the items of `vec`, or an error when there are
    /// more than `N` of them.
    pub fn new(vec: Vec<T>) -> (r: Result<Self, Error>)
        ensures
            match r {
                Ok(l) => vec@.len() <= N && l@ == vec@ && l.wf(),
                Err(e) => vec@.len() > N && e == Error::OutOfBounds { i: vec@.len() as usize, len: N },
            },
    {
        if vec.len() <= N {
            Ok(Self { vec })
        } else {
            Err(Error::OutOfBounds { i: vec.len(), len: N })
        }
    }

    /// Returns an empty list.
    pub fn empty() -> (r: Self)
        ensures
            r@ == Seq::<T>::empty(),
            r.wf(),
    {
        Self { vec: Vec::new() }
    }

    /// Returns an empty list with room reserved for the items that a source
    /// announces, at most `hint` of them.
    pub fn with_size_hint(hint: Option<usize>) -> (r: Self)
        ensures
            r@ == Seq::<T>::empty(),
            r.wf(),
    {
        let cap = preallocation_len(hint, N);
        Self { vec: Vec::with_capacity(cap) }
    }

    /// Returns a full list of clones of `elem`.
    pub fn repeat_full(elem: T) -> (r: Self) where T: Clone
        ensures
            r@.len() == N,
            forall|i: int| 0 <= i < N ==> cloned(elem, #[trigger] r@[i]),
            r.wf(),
    {
        Self { vec: vec![elem; N] }
    }

    /// Returns the number of items.
    pub fn len(&self) -> (r: usize)
        ensures
            r == self@.len(),
    {
        self.vec.len()
    }

    /// Returns whether the list holds no item.
    pub fn is_empty(&self) -> (r: bool)
        ensures
            r == (self@.len() == 0),
    {
        self.vec.len() == 0
    }

    /// Returns the most items the list can hold.
    pub fn max_len() -> (r: usize)
        ensures
            r == N,
    {
        N
    }

    /// Appends `value`, or returns an error and leaves the list as it was
    /// when it already holds `N` items.
    pub fn push(&mut self, value: T) -> (r: Result<(), Error>)
        requires
            old(self).wf(),
        ensures
            final(self).wf(),
            old(self)@.len() < N ==> r is Ok && final(self)@ == old(self)@.push(value),
            old(self)@.len() >= N ==> r == Err::<(), Error>(append_error(old(self)@.len(), N as nat))
                && final(self)@ == old(self)@,
    {
        if self.vec.len() < N {
            self.vec.push(value);
            Ok(())
        } else {
            Err(Error::OutOfBounds { i: self.vec.len().saturating_add(1), len: N })
        }
    }

    /// Returns the items.
    pub fn as_slice(&self) -> (r: &[T])
        ensures
            r@ == self@,
    {
        self.vec.as_slice()
    }

    /// Returns item `index`.
    pub fn get(&self, index: usize) -> (r: Option<&T>)
        ensures
            index < self@.len() ==> r == Some(&self@[index as int]),
            index >= self@.len() ==> r is None,
    {
        if index < self.vec.len() {
            Some(&self.vec[index])
        } else {
            None
        }
    }

    /// Replaces item `index` with `value`.
    pub fn set(&mut self, index: usize, value: T)
        requires
            old(self).wf(),
            index < old(self)@.len(),
        ensures
            final(self).wf(),
            final(self)@ == old(self)@.update(index as int, value),
    {
        self.vec.set(index, value);
    }

    /// Returns the items as a `Vec`.
    pub fn into_vec(self) -> (r: Vec<T>)
        ensures
            r@ == self@,
    {
        self.vec
    }
}

impl<T: SszElement, const N: usize> VariableList<T, N> {
    /// A list is never of fixed length in encoded form.
    pub fn is_ssz_fixed_len() -> (r: bool)
        ensures
            r == false,
    {
        false
    }

    /// Returns the size of an offset, which stands for the list in a
    /// surrounding container.
    pub fn ssz_fixed_len() -> (r: usize)
        ensures
            r == 4,
    {
        4
    }

    /// Returns the size of the encoding.
    pub fn ssz_bytes_len(&self) -> (r: usize)
        requires
            encode_items(self@).len() <= usize::MAX,
        ensures
            r == encode_items(self@).len(),
    {
        encoded_len(self.vec.as_slice())
    }

    /// Appends the encoding to `buf`.
    pub fn ssz_append(&self, buf: &mut Vec<u8>)
        requires
            offsets_fit(self@),
        ensures
            final(buf)@ == old(buf)@ + encode_items(self@),
    {
        append_items(self.vec.as_slice(), buf)
    }

    /// Returns the encoding.
    pub fn as_ssz_bytes(&self) -> (r: Vec<u8>)
        requires
            offsets_fit(self@),
        ensures
            r@ == encode_items(self@),
    {
        let mut buf: Vec<u8> = Vec::new();
        append_items(self.vec.as_slice(), &mut buf);
        assert(buf@ =~= encode_items(self@));
        buf
    }

    /// Decodes a list from `bytes`.
    pub fn from_ssz_bytes(bytes: &[u8]) -> (r: Result<Self, DecodeError>)
        ensures
            match r {
                Ok(l) => decode_list::<T>(bytes@, N as nat) == Ok::<Seq<T>, DecodeError>(l@)
                    && l.wf(),
                Err(e) => decode_list::<T>(bytes@, N as nat) == Err::<Seq<T>, DecodeError>(e),
            },
    {
        match decode_list_items::<T>(bytes, N) {
            Ok(vec) => Ok(Self { vec }),
            Err(e) => Err(e),
        }
    }

    /// Returns the tree-hash root: the root of the items in a tree sized
    /// for `N` items, with the length mixed in.
    pub fn tree_hash_root(&self) -> (r: Hash256)
        requires
            self.wf(),
        ensures
            r@ == mixed_in_length(items_root(self@, N as nat), self@.len()),
    {
        let root = vec_tree_hash_root(self.vec.as_slice(), N);
        mix_in_length(&root, self.vec.len() as u64)
    }
}

impl<T, const N: usize> Default for VariableList<T, N> {
    /// Returns an empty list.
    fn default() -> (r: Self)
        ensures
            r@ == Seq::<T>::empty(),
            r.wf(),
    {
        Self { vec: Vec::new() }
    }
}

} // verus!
