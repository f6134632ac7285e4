//! The flag of a spin lock.
//!
//! Acquiring is a compare-exchange of the flag from `false` to `true`
//! (Acquire on success); releasing stores `false` (Release).  Spinning until
//! an attempt succeeds, and the data the lock protects, belong to the lock
//! types built on this flag.
use crate::atomics::compare_exchange_bool;
use std::sync::atomic::{AtomicBool, Ordering};
use vstd::prelude::*;

verus! {

/// A lock flag shared between threads.
pub struct RawSpinLock {
    locked: AtomicBool,
}

impl RawSpinLock {
    /// An unlocked flag.
    pub fn new() -> Self {
        Self { locked: AtomicBool::new(false) }
    }

    /// One attempt to take the lock: true when this call changed the flag
    /// from unlocked to locked.
    pub fn try_acquire(&self) -> bool {
        compare_exchange_bool(&self.locked, false, true, Ordering::Acquire, Ordering::Relaxed).is_ok()
    }

    /// Release the lock.
    pub fn release(&self) {
        self.locked.store(false, Ordering::Release);
    }
}

} // verus!
