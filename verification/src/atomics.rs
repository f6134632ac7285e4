//! Contracts for the compare-exchange operations of std's atomics.
//!
//! std documents that `compare_exchange` stores `new` exactly when the
//! current value equals `current`, and returns `Ok(previous)` when it stored
//! and `Err(previous)` when it did not; on success `previous == current`.
//! std panics when the failure ordering is `Release` or `AcqRel`; those
//! orderings are ruled out.  Nothing is said here of the value an atomic
//! holds, which other threads may change at any time.
use std::sync::atomic::{AtomicBool, AtomicU32, AtomicU64, Ordering};
use vstd::prelude::*;

verus! {

/// `AtomicBool::compare_exchange`.
#[verifier::external_body]
pub(crate) fn compare_exchange_bool(
    flag: &AtomicBool,
    current: bool,
    new: bool,
    success: Ordering,
    failure: Ordering,
) -> (r: Result<bool, bool>)
    requires
        !(failure is Release),
        !(failure is AcqRel),
    ensures
        r matches Ok(prev) ==> prev == current,
        r matches Err(prev) ==> prev != current,
{
    flag.compare_exchange(current, new, success, failure)
}

/// `AtomicU32::compare_exchange`.
#[verifier::external_body]
pub(crate) fn compare_exchange_u32(
    value: &AtomicU32,
    current: u32,
    new: u32,
    success: Ordering,
    failure: Ordering,
) -> (r: Result<u32, u32>)
    requires
        !(failure is Release),
        !(failure is AcqRel),
    ensures
        r matches Ok(prev) ==> prev == current,
        r matches Err(prev) ==> prev != current,
{
    value.compare_exchange(current, new, success, failure)
}

/// `AtomicU64::compare_exchange`.
#[verifier::external_body]
pub(crate) fn compare_exchange_u64(
    value: &AtomicU64,
    current: u64,
    new: u64,
    success: Ordering,
    failure: Ordering,
) -> (r: Result<u64, u64>)
    requires
        !(failure is Release),
        !(failure is AcqRel),
    ensures
        r matches Ok(prev) ==> prev == current,
        r matches Err(prev) ==> prev != current,
{
    value.compare_exchange(current, new, success, failure)
}

} // verus!
