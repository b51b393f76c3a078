//! Length-bounded SSZ containers with a deterministic binary encoding and
//! deterministic Merkle roots.
//!
//! - `FixedVector<T, N>` holds exactly `N` items and `VariableList<T, N>` at
//!   most `N`; `N` is a constant of the type. `RuntimeFixedVector` and
//!   `RuntimeVariableList` take their length or bound when they are built.
//! - `FixedVectorU8` and `VariableListU8` hold bytes, encoded as themselves.
//! - `Optional<T>` is an SSZ optional value.
//!
//! Items are encoded back to back when they have a fixed size, and behind a
//! table of 4-byte offsets otherwise (`codec`). The tree-hash root packs
//! basic items into 32-byte leaves of a tree sized by the capacity, and
//! lists mix their length into it (`tree_hash`, `merkle`); `merkle_proof`
//! gives the sibling roots that authenticate a node.
//!
//! Equality and `Hash` look at the items only: the capacity takes no part,
//! so two runtime lists with different bounds but the same items are equal.
use vstd::prelude::*;

pub mod codec;
pub mod element;
pub mod fixed_vector;
pub mod fixed_vector_u8;
pub mod laws;
pub mod length;
pub mod merkle;
pub mod merkle_proof;
pub mod optional;
pub mod runtime_types;
pub mod tree_hash;
pub mod variable_list;
pub mod variable_list_u8;

pub use element::{SszElement, TreeHashKind};
pub use fixed_vector::FixedVector;
pub use fixed_vector_u8::FixedVectorU8;
pub use merkle::Hash256;
pub use optional::Optional;
pub use runtime_types::{RuntimeFixedVector, RuntimeVariableList};
pub use variable_list::VariableList;
pub use variable_list_u8::VariableListU8;

verus! {

/// Returned when a container's length invariant would be broken.
#[derive(PartialEq, Eq, Structural, Debug, Clone, Copy)]
pub enum Error {
    /// `i` elements were given or would result where at most (or exactly)
    /// `len` are allowed.
    OutOfBounds { i: usize, len: usize },
    /// A bit list has no set bit, so its length is unknowable.
    MissingLengthInformation,
    /// A bit list has excess bits set to true.
    ExcessBits,
    /// A bit list has an invalid number of bytes for a given bit length.
    InvalidByteCount { given: usize, expected: usize },
}

/// Returned when bytes do not decode to a value.
#[derive(PartialEq, Eq, Structural, Debug, Clone, Copy)]
pub enum DecodeError {
    /// The input holds `len` bytes where `expected` were needed.
    InvalidByteLength { len: usize, expected: usize },
    /// The bytes hold a number of items that the container does not admit;
    /// the length error names both counts.
    BytesInvalid(Error),
    /// The element type encodes to zero bytes, so no item count follows
    /// from the input length.
    ZeroLengthItem,
    /// The offset table of a list of variable-length items is malformed, or
    /// announces more items than the list admits.
    InvalidOffsets,
    /// An optional value's encoding does not start with the identifier byte.
    MissingOptionalIdentifier,
}

} // verus!
