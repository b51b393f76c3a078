//! Containers whose capacity is chosen when they are built rather than in
//! their type.
use vstd::prelude::*;

pub mod runtime_fixed_vector;
pub mod runtime_variable_list;

pub use runtime_fixed_vector::RuntimeFixedVector;
pub use runtime_variable_list::RuntimeVariableList;

verus! {

} // verus!
