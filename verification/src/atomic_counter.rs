//! Lock-free counter on an `AtomicU64`.
//!
//! Other threads may change the counter between any two operations, so the
//! contracts here speak of what one operation returns, never of the value
//! the counter holds afterwards.
use std::sync::atomic::{AtomicU64, Ordering};
use crate::atomics::compare_exchange_u64;
use vstd::prelude::*;

verus! {

/// `AtomicU64::fetch_update` with multiplication by `multiplier` as the
/// update: std retries until its compare-exchange succeeds; the update never
/// declines, so the result is always `Ok(previous)`.
#[verifier::external_body]
fn fetch_update_scaled(value: &AtomicU64, multiplier: u64) -> (r: Result<u64, u64>)
    ensures
        r is Ok,
{
    value.fetch_update(Ordering::AcqRel, Ordering::Acquire, |current| Some(scaled(current, multiplier)))
}

/// `current * multiplier`, wrapping modulo 2^64.
pub fn scaled(current: u64, multiplier: u64) -> (r: u64)
    ensures
        r == (current * multiplier) % 0x1_0000_0000_0000_0000,
{
    let r = current.wrapping_mul(multiplier);
    assert(r == (current * multiplier) % 0x1_0000_0000_0000_0000);
    r
}

/// A counter that threads may update concurrently.
pub struct AtomicCounter {
    value: AtomicU64,
}

impl AtomicCounter {
    /// A counter starting at `init`.
    pub fn new(init: u64) -> Self {
        Self { value: AtomicU64::new(init) }
    }

    /// Add one; returns the value before the increment.
    pub fn increment(&self) -> u64 {
        self.value.fetch_add(1, Ordering::Relaxed)
    }

    /// Subtract one; returns the value before the decrement.
    pub fn decrement(&self) -> u64 {
        self.value.fetch_sub(1, Ordering::Relaxed)
    }

    /// The current value.
    pub fn get(&self) -> u64 {
        self.value.load(Ordering::Relaxed)
    }

    /// Set the counter to `new_val` if it holds `expected`: `Ok(expected)`
    /// when it did, `Err(actual)` with the differing current value when not.
    pub fn compare_and_swap(&self, expected: u64, new_val: u64) -> (r: Result<u64, u64>)
        ensures
            r matches Ok(prev) ==> prev == expected,
            r matches Err(actual) ==> actual != expected,
    {
        compare_exchange_u64(&self.value, expected, new_val, Ordering::AcqRel, Ordering::Acquire)
    }

    /// Multiply the counter by `multiplier` atomically (retrying on
    /// contention); returns the value before the multiplication.
    pub fn fetch_multiply(&self, multiplier: u64) -> u64 {
        match fetch_update_scaled(&self.value, multiplier) {
            Ok(prev) => prev,
            Err(prev) => prev,
        }
    }
}

} // verus!
