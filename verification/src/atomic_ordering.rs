//! Release/acquire hand-off and one-time initialisation on atomics.
//!
//! `FlagChannel`: the producer writes the data, then sets `ready` with
//! Release; a consumer that reads `ready == true` with Acquire also sees the
//! data.  `OnceCell`: a compare-exchange on `initialized` lets exactly one
//! `init` win.
//!
//! Other threads may act between any two operations, so no contract here
//! speaks of what an atomic holds.
use std::sync::atomic::{AtomicBool, AtomicU32, Ordering};
use crate::atomics::compare_exchange_bool;
use vstd::prelude::*;

verus! {

/// One value handed from a producer to a consumer.
pub struct FlagChannel {
    data: AtomicU32,
    ready: AtomicBool,
}

impl FlagChannel {
    /// An empty channel: data 0, not ready.
    pub fn new() -> Self {
        Self { data: AtomicU32::new(0), ready: AtomicBool::new(false) }
    }

    /// Store `value`, then publish it by setting the ready flag (Release).
    pub fn produce(&self, value: u32) {
        self.data.store(value, Ordering::Relaxed);
        self.ready.store(true, Ordering::Release);
    }

    /// One look at the channel: the data when the ready flag is set
    /// (read with Acquire), `None` when nothing has been published yet.
    pub fn try_consume(&self) -> Option<u32> {
        if self.ready.load(Ordering::Acquire) {
            Some(self.data.load(Ordering::Relaxed))
        } else {
            None
        }
    }

    /// Clear the ready flag and the data.
    pub fn reset(&self) {
        self.ready.store(false, Ordering::Relaxed);
        self.data.store(0, Ordering::Relaxed);
    }
}

/// A `u32` that can be set once.
pub struct OnceCell {
    initialized: AtomicBool,
    value: AtomicU32,
}

impl OnceCell {
    /// A cell that is not initialised.
    pub fn new() -> Self {
        Self { initialized: AtomicBool::new(false), value: AtomicU32::new(0) }
    }

    /// Initialise the cell with `val` unless it already was; true when this
    /// call won the initialisation (its compare-exchange of the flag from
    /// false to true succeeded) and stored `val`.
    pub fn init(&self, val: u32) -> bool {
        let prev = compare_exchange_bool(&self.initialized, false, true, Ordering::SeqCst, Ordering::SeqCst);
        if prev.is_ok() {
            self.value.store(val, Ordering::SeqCst);
        }
        prev.is_ok()
    }

    /// The value, `None` while the cell is not initialised.
    pub fn get(&self) -> Option<u32> {
        if self.initialized.load(Ordering::SeqCst) {
            Some(self.value.load(Ordering::SeqCst))
        } else {
            None
        }
    }
}

} // verus!
