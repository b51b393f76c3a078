//! `RuntimeVariableList`: a bounded list whose bound is set when it is built.
use crate::codec::{append_items, decode_list, decode_list_items, encode_items, encoded_len, offsets_fit};
use crate::element::SszElement;
use crate::merkle::{mix_in_length, mixed_in_length, Hash256};
use crate::tree_hash::{items_root, vec_tree_hash_root};
use crate::variable_list::append_error;
use crate::{DecodeError, Error};
use vstd::prelude::*;
use vstd::std_specs::cmp::PartialEqSpec;

verus! {

/// An ordered sequence of `T` with at most `max_len` items, where `max_len`
/// is set when the list is built and never changes.
///
/// Equality compares the items only, not the bound.
#[derive(Clone, Debug)]
pub struct RuntimeVariableList<T> {
    vec: Vec<T>,
    max_len: usize,
}

impl<T> View for RuntimeVariableList<T> {
    type V = Seq<T>;

    closed spec fn view(&self) -> Seq<T> {
        self.vec@
    }
}

impl<T: PartialEq> PartialEq for RuntimeVariableList<T> {
    fn eq(&self, other: &Self) -> (r: bool) {
        self.vec == other.vec
    }
}

impl<T: PartialEq> vstd::std_specs::cmp::PartialEqSpecImpl for RuntimeVariableList<T> {
    open spec fn obeys_eq_spec() -> bool {
        <T as PartialEqSpec>::obeys_eq_spec()
    }

    open spec fn eq_spec(&self, other: &Self) -> bool {
        &&& self@.len() == other@.len()
        &&& forall|i: int| #![auto] 0 <= i < self@.len() ==> self@[i].eq_spec(&other@[i])
    }
}

impl<T: Eq> Eq for RuntimeVariableList<T> {
}

impl<T> RuntimeVariableList<T> {
    /// The bound that the list was built with.
    pub closed spec fn capacity(&self) -> nat {
        self.max_len as nat
    }

    /// The list holds at most its bound of items.
    pub open spec fn wf(&self) -> bool {
        self@.len() <= self.capacity()
    }

    /// Returns a list of the items of `vec` with room for `max_len`, or an
    /// error when there are more than `max_len` of them.
    pub fn new(vec: Vec<T>, max_len: usize) -> (r: Result<Self, Error>)
        ensures
            match r {
                Ok(l) => vec@.len() <= max_len && l@ == vec@ && l.capacity() == max_len && l.wf(),
                Err(e) => vec@.len() > max_len && e == Error::OutOfBounds {
                    i: vec@.len() as usize,
                    len: max_len,
                },
            },
    {
        if vec.len() <= max_len {
            Ok(Self { vec, max_len })
        } else {
            Err(Error::OutOfBounds { i: vec.len(), len: max_len })
        }
    }

    /// Returns an empty list with room for `max_len` items.
    pub fn empty(max_len: usize) -> (r: Self)
        ensures
            r@ == Seq::<T>::empty(),
            r.capacity() == max_len,
            r.wf(),
    {
        Self { vec: Vec::new(), max_len }
    }

    /// Returns the items.
    pub fn as_slice(&self) -> (r: &[T])
        ensures
            r@ == self@,
    {
        self.vec.as_slice()
    }

    /// Returns the items for replacement in place; the number of items
    /// cannot change through the result.
    pub fn as_mut_slice(&mut self) -> (r: &mut [T])
        ensures
            r@ == old(self)@,
            final(self)@ == final(r)@,
            final(self).capacity() == old(self).capacity(),
    {
        self.vec.as_mut_slice()
    }

    /// Returns the number of items.
    pub fn len(&self) -> (r: usize)
        ensures
            r == self@.len(),
    {
        self.vec.len()
    }

    /// Returns whether the list holds no item.
    pub fn is_empty(&self) -> (r: bool)
        ensures
            r == (self@.len() == 0),
    {
        self.vec.len() == 0
    }

    /// Returns the bound.
    pub fn max_len(&self) -> (r: usize)
        ensures
            r == self.capacity(),
    {
        self.max_len
    }

    /// Appends `value`, or returns an error and leaves the list as it was
    /// when it is full.
    pub fn push(&mut self, value: T) -> (r: Result<(), Error>)
        requires
            old(self).wf(),
        ensures
            final(self).wf(),
            final(self).capacity() == old(self).capacity(),
            old(self)@.len() < old(self).capacity() ==> r is Ok && final(self)@ == old(self)@.push(
                value,
            ),
            old(self)@.len() >= old(self).capacity() ==> r == Err::<(), Error>(
                append_error(old(self)@.len(), old(self).capacity()),
            ) && final(self)@ == old(self)@,
    {
        if self.vec.len() < self.max_len {
            self.vec.push(value);
            Ok(())
        } else {
            Err(Error::OutOfBounds { i: self.vec.len().saturating_add(1), len: self.max_len })
        }
    }
}

impl<T: SszElement> RuntimeVariableList<T> {
    /// Decodes a list with room for `max_len` items from `bytes`.
    pub fn from_ssz_bytes(bytes: &[u8], max_len: usize) -> (r: Result<Self, DecodeError>)
        ensures
            match r {
                Ok(l) => decode_list::<T>(bytes@, max_len as nat) == Ok::<Seq<T>, DecodeError>(l@)
                    && l.capacity() == max_len && l.wf(),
                Err(e) => decode_list::<T>(bytes@, max_len as nat) == Err::<Seq<T>, DecodeError>(
                    e,
                ),
            },
    {
        match decode_list_items::<T>(bytes, max_len) {
            Ok(vec) => Ok(Self { vec, max_len }),
            Err(e) => Err(e),
        }
    }

    /// A list is never of fixed length in encoded form.
    pub fn is_ssz_fixed_len() -> (r: bool)
        ensures
            r == false,
    {
        false
    }

    /// Returns the size of an offset, which stands for the list in a
    /// surrounding container.
    pub fn ssz_fixed_len() -> (r: usize)
        ensures
            r == 4,
    {
        4
    }

    /// Returns the size of the encoding.
    pub fn ssz_bytes_len(&self) -> (r: usize)
        requires
            encode_items(self@).len() <= usize::MAX,
        ensures
            r == encode_items(self@).len(),
    {
        encoded_len(self.vec.as_slice())
    }

    /// Appends the encoding to `buf`.
    pub fn ssz_append(&self, buf: &mut Vec<u8>)
        requires
            offsets_fit(self@),
        ensures
            final(buf)@ == old(buf)@ + encode_items(self@),
    {
        append_items(self.vec.as_slice(), buf)
    }

    /// Returns the encoding.
    pub fn as_ssz_bytes(&self) -> (r: Vec<u8>)
        requires
            offsets_fit(self@),
        ensures
            r@ == encode_items(self@),
    {
        let mut buf: Vec<u8> = Vec::new();
        append_items(self.vec.as_slice(), &mut buf);
        assert(buf@ =~= encode_items(self@));
        buf
    }

    /// Returns the tree-hash root: the root of the items in a tree sized
    /// for the bound, with the length mixed in.
    pub fn tree_hash_root(&self) -> (r: Hash256)
        requires
            self.wf(),
        ensures
            r@ == mixed_in_length(items_root(self@, self.capacity()), self@.len()),
    {
        let root = runtime_vec_tree_hash_root(self.vec.as_slice(), self.max_len);
        mix_in_length(&root, self.vec.len() as u64)
    }
}

/// Returns the root of `items` in a list with room for `max_len` items,
/// before the length is mixed in.
pub fn runtime_vec_tree_hash_root<T: SszElement>(items: &[T], max_len: usize) -> (r: Hash256)
    requires
        items@.len() <= max_len,
    ensures
        r@ == items_root(items@, max_len as nat),
{
    vec_tree_hash_root(items, max_len)
}

} // verus!
