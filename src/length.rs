//! Conversion of a declared capacity to a native length, under a policy
//! that is chosen per build.
use vstd::prelude::*;

verus! {

/// What to do with a capacity that exceeds the native addressable range.
#[derive(PartialEq, Eq, Structural, Debug, Clone, Copy)]
pub enum OverflowPolicy {
    /// Refuse the capacity with an error that names it.
    Fail,
    /// Clamp the capacity to the native maximum.
    Cap,
}

/// The policy of this build.
pub const OVERFLOW_POLICY: OverflowPolicy = OverflowPolicy::Fail;

/// A capacity that exceeds the native addressable range.
#[derive(PartialEq, Eq, Structural, Debug, Clone, Copy)]
pub struct CapacityOverflow {
    /// The capacity asked for.
    pub requested: u64,
    /// The largest native length.
    pub max: usize,
}

/// Returns `capacity` as a native length, or applies `policy` when it does
/// not fit.
pub fn to_usize_with_policy(capacity: u64, policy: OverflowPolicy) -> (r: Result<
    usize,
    CapacityOverflow,
>)
    ensures
        capacity <= usize::MAX ==> r == Ok::<usize, CapacityOverflow>(capacity as usize),
        capacity > usize::MAX && policy == OverflowPolicy::Fail ==> r == Err::<
            usize,
            CapacityOverflow,
        >(CapacityOverflow { requested: capacity, max: usize::MAX }),
        capacity > usize::MAX && policy == OverflowPolicy::Cap ==> r == Ok::<
            usize,
            CapacityOverflow,
        >(usize::MAX),
{
    if capacity as u128 <= usize::MAX as u128 {
        Ok(capacity as usize)
    } else {
        match policy {
            OverflowPolicy::Fail => Err(CapacityOverflow { requested: capacity, max: usize::MAX }),
            OverflowPolicy::Cap => Ok(usize::MAX),
        }
    }
}

/// Returns `capacity` as a native length under the policy of this build,
/// which refuses a capacity above the native range: such a capacity is a
/// configuration fault, not input data, so callers must not ask for it.
/// A build that clamps instead uses `to_usize_with_policy` with `Cap`.
pub fn to_usize(capacity: u64) -> (r: usize)
    requires
        capacity <= usize::MAX,
    ensures
        r == capacity,
{
    capacity as usize
}

} // verus!
