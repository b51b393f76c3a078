//! `RuntimeFixedVector`: a fixed-length sequence whose length is set when it
//! is built and never changes.
use vstd::prelude::*;

verus! {

/// An ordered sequence of `T` whose length is fixed when it is built.
#[derive(Clone, Debug)]
pub struct RuntimeFixedVector<T> {
    vec: Vec<T>,
    len: usize,
}

impl<T> View for RuntimeFixedVector<T> {
    type V = Seq<T>;

    closed spec fn view(&self) -> Seq<T> {
        self.vec@
    }
}

impl<T> RuntimeFixedVector<T> {
    /// The length that the vector was built with.
    pub closed spec fn fixed_len(&self) -> nat {
        self.len as nat
    }

    /// The vector holds exactly its fixed length of items.
    pub open spec fn wf(&self) -> bool {
        self@.len() == self.fixed_len()
    }
}

/// `v` is a value that `T::default()` may return.
pub open spec fn is_default_value<T: Default>(v: T) -> bool {
    call_ensures(T::default, (), v)
}

/// Every item of `items` is a clone of one value that `T::default()`
/// returned.
pub open spec fn all_default<T: Clone + Default>(items: Seq<T>) -> bool {
    exists|d: T| #[trigger] is_default_value(d) && forall|i: int| 0 <= i < items.len() ==> cloned(d, #[trigger] items[i])
}

/// Returns `n` clones of one default value.
fn default_items<T: Clone + Default>(n: usize) -> (r: Vec<T>)
    ensures
        r@.len() == n,
        all_default(r@),
{
    let d = T::default();
    let r = vec![d; n];
    assert(is_default_value(d));
    r
}

impl<T: Clone + Default> RuntimeFixedVector<T> {
    /// Returns a vector of the items of `vec`, whose length becomes fixed.
    pub fn new(vec: Vec<T>) -> (r: Self)
        ensures
            r@ == vec@,
            r.fixed_len() == vec@.len(),
            r.wf(),
    {
        let len = vec.len();
        Self { vec, len }
    }

    /// Returns a copy of the items.
    pub fn to_vec(&self) -> (r: Vec<T>)
        ensures
            r@.len() == self@.len(),
            forall|i: int| 0 <= i < self@.len() ==> cloned(self@[i], #[trigger] r@[i]),
    {
        self.vec.clone()
    }

    /// Returns the items.
    pub fn as_slice(&self) -> (r: &[T])
        ensures
            r@ == self@,
    {
        self.vec.as_slice()
    }

    /// Returns the fixed length.
    pub fn len(&self) -> (r: usize)
        ensures
            r == self.fixed_len(),
    {
        self.len
    }

    /// Returns the items as a `Vec`.
    pub fn into_vec(self) -> (r: Vec<T>)
        ensures
            r@ == self@,
    {
        self.vec
    }

    /// Returns a vector of `max_len` default values.
    pub fn default(max_len: usize) -> (r: Self)
        ensures
            r@.len() == max_len,
            all_default(r@),
            r.fixed_len() == max_len,
            r.wf(),
    {
        Self { vec: default_items(max_len), len: max_len }
    }

    /// Moves the items out into the returned vector and leaves `self` filled
    /// with default values; both keep the fixed length.
    pub fn take(&mut self) -> (r: Self)
        requires
            old(self).wf(),
        ensures
            r@ == old(self)@,
            r.fixed_len() == old(self).fixed_len(),
            final(self).fixed_len() == old(self).fixed_len(),
            final(self)@.len() == old(self)@.len(),
            all_default(final(self)@),
            r.wf(),
            final(self).wf(),
    {
        let mut fresh: Vec<T> = default_items(self.len);
        std::mem::swap(&mut self.vec, &mut fresh);
        Self { vec: fresh, len: self.len }
    }
}

} // verus!
