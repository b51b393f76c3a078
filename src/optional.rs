//! `Optional`: an SSZ optional value, encoded as nothing or as a `1` byte
//! followed by the value, and hashed as a list of at most one item.
use crate::element::{SszElement, TreeHashKind};
use crate::merkle::{mix_in_length, mixed_in_length, Hash256};
use crate::tree_hash::{items_root, single_item_root, vec_tree_hash_root};
use crate::DecodeError;
use vstd::prelude::*;

verus! {

/// The byte that announces a present value.
pub const OPTIONAL_IDENTIFIER: u8 = 1;

/// An optional value of `T`.
#[derive(Clone, Debug, PartialEq, Eq, Hash)]
pub struct Optional<T> {
    optional: Option<T>,
}

impl<T> View for Optional<T> {
    type V = Option<T>;

    closed spec fn view(&self) -> Option<T> {
        self.optional
    }
}

/// The items of the list that an optional value is hashed as.
pub open spec fn optional_items<T>(o: Option<T>) -> Seq<T> {
    match o {
        Some(v) => seq![v],
        None => Seq::empty(),
    }
}

/// The encoding of an optional value.
pub open spec fn encode_optional<T: SszElement>(o: Option<T>) -> Seq<u8> {
    match o {
        Some(v) => seq![OPTIONAL_IDENTIFIER] + T::spec_encode(v),
        None => Seq::empty(),
    }
}

/// What `bytes` decode to as an optional value.
pub open spec fn decode_optional<T: SszElement>(bytes: Seq<u8>) -> Result<Option<T>, DecodeError> {
    if bytes.len() == 0 {
        Ok(None)
    } else if bytes[0] == OPTIONAL_IDENTIFIER {
        match T::spec_decode(bytes.drop_first()) {
            Ok(v) => Ok(Some(v)),
            Err(e) => Err(e),
        }
    } else {
        Err(DecodeError::MissingOptionalIdentifier)
    }
}

impl<T> Optional<T> {
    /// Returns an optional holding `optional`.
    pub fn from_option(optional: Option<T>) -> (r: Self)
        ensures
            r@ == optional,
    {
        Self { optional }
    }

    /// Returns an absent value.
    pub fn none() -> (r: Self)
        ensures
            r@ is None,
    {
        Self { optional: None }
    }

    /// Returns the value as an `Option`.
    pub fn into_option(self) -> (r: Option<T>)
        ensures
            r == self@,
    {
        self.optional
    }

    /// Returns a reference to the value, if present.
    pub fn as_option(&self) -> (r: &Option<T>)
        ensures
            *r == self@,
    {
        &self.optional
    }
}

impl<T> From<Option<T>> for Optional<T> {
    fn from(optional: Option<T>) -> (r: Self) {
        Self { optional }
    }
}

impl<T> vstd::std_specs::convert::FromSpecImpl<Option<T>> for Optional<T> {
    open spec fn obeys_from_spec() -> bool {
        true
    }

    open spec fn from_spec(v: Option<T>) -> Self {
        Self::spec_from_option(v)
    }
}

impl<T> Optional<T> {
    /// The optional holding `optional`.
    pub closed spec fn spec_from_option(optional: Option<T>) -> Self {
        Self { optional }
    }
}

impl<T: SszElement> Optional<T> {
    /// An optional is never of fixed length in encoded form.
    pub fn is_ssz_fixed_len() -> (r: bool)
        ensures
            r == false,
    {
        false
    }

    /// Returns the size of the encoding.
    pub fn ssz_bytes_len(&self) -> (r: usize)
        requires
            encode_optional(self@).len() <= usize::MAX,
        ensures
            r == encode_optional(self@).len(),
    {
        match &self.optional {
            None => 0,
            Some(v) => {
                let n = v.ssz_bytes_len();
                n + 1
            },
        }
    }

    /// Appends the encoding to `buf`.
    pub fn ssz_append(&self, buf: &mut Vec<u8>)
        ensures
            final(buf)@ == old(buf)@ + encode_optional(self@),
    {
        match &self.optional {
            None => {
                assert(buf@ =~= buf@ + encode_optional(self@));
            },
            Some(v) => {
                let ghost start = buf@;
                buf.push(OPTIONAL_IDENTIFIER);
                v.ssz_append(buf);
                assert(buf@ =~= start + encode_optional(self@));
            },
        }
    }

    /// Decodes an optional from `bytes`.
    pub fn from_ssz_bytes(bytes: &[u8]) -> (r: Result<Self, DecodeError>)
        ensures
            match r {
                Ok(o) => decode_optional::<T>(bytes@) == Ok::<Option<T>, DecodeError>(o@),
                Err(e) => decode_optional::<T>(bytes@) == Err::<Option<T>, DecodeError>(e),
            },
    {
        if bytes.len() == 0 {
            Ok(Self { optional: None })
        } else if bytes[0] == OPTIONAL_IDENTIFIER {
            let rest = vstd::slice::slice_subrange(bytes, 1, bytes.len());
            assert(rest@ =~= bytes@.drop_first());
            match T::from_ssz_bytes(rest) {
                Ok(v) => Ok(Self { optional: Some(v) }),
                Err(e) => Err(e),
            }
        } else {
            Err(DecodeError::MissingOptionalIdentifier)
        }
    }

    /// Returns the tree-hash root: that of a list with room for one item
    /// holding the value if present.
    pub fn tree_hash_root(&self) -> (r: Hash256)
        ensures
            r@ == mixed_in_length(
                items_root(optional_items(self@), 1),
                optional_items(self@).len(),
            ),
    {
        match &self.optional {
            None => {
                let items: Vec<T> = Vec::new();
                let root = vec_tree_hash_root(items.as_slice(), 1);
                assert(items@ =~= optional_items(self@));
                mix_in_length(&root, 0)
            },
            Some(v) => {
                let root = single_item_root(v, 1);
                mix_in_length(&root, 1)
            },
        }
    }
}

impl<T> Default for Optional<T> {
    /// Returns an absent value.
    fn default() -> (r: Self)
        ensures
            r@ is None,
    {
        Self { optional: None }
    }
}

impl<T: SszElement> SszElement for Optional<T> {
    open spec fn spec_is_fixed_len() -> bool {
        false
    }

    open spec fn spec_fixed_len() -> nat {
        0
    }

    open spec fn spec_kind() -> TreeHashKind {
        TreeHashKind::Composite
    }

    open spec fn spec_encode(v: Optional<T>) -> Seq<u8> {
        encode_optional(v@)
    }

    open spec fn spec_decode(bytes: Seq<u8>) -> Result<Optional<T>, DecodeError> {
        match decode_optional::<T>(bytes) {
            Ok(o) => Ok(Self::spec_from_option(o)),
            Err(e) => Err(e),
        }
    }

    open spec fn spec_root(v: Optional<T>) -> Seq<u8> {
        mixed_in_length(items_root(optional_items(v@), 1), optional_items(v@).len())
    }

    proof fn lemma_layout() {
    }

    proof fn lemma_round_trip(v: Optional<T>) {
        crate::laws::lemma_optional_round_trip::<T>(v@);
    }

    fn is_ssz_fixed_len() -> (r: bool) {
        false
    }

    fn ssz_fixed_len() -> (r: usize) {
        4
    }

    fn tree_hash_kind() -> (r: TreeHashKind) {
        TreeHashKind::Composite
    }

    fn ssz_bytes_len(&self) -> (r: usize) {
        Optional::<T>::ssz_bytes_len(self)
    }

    fn ssz_append(&self, buf: &mut Vec<u8>) {
        Optional::<T>::ssz_append(self, buf)
    }

    fn from_ssz_bytes(bytes: &[u8]) -> (r: Result<Optional<T>, DecodeError>) {
        let r = Optional::<T>::from_ssz_bytes(bytes);
        proof {
            if r is Ok {
                assert(Self::spec_from_option(r->Ok_0@) == r->Ok_0);
            }
        }
        r
    }

    fn tree_hash_root(&self) -> (r: Hash256) {
        Optional::<T>::tree_hash_root(self)
    }
}

} // verus!
