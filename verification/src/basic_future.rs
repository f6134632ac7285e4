//! Hand-written futures as state machines.
//!
//! `CountDown` stays pending, counting down, until its count is zero and then
//! completes with `"liftoff!"`; `YieldOnce` is pending on its first poll and
//! ready on the second.  Each `poll_step` is one poll: it updates the state
//! and returns `Some(output)` when the future is ready, `None` when it is
//! pending (the caller then wakes its waker so that it is polled again).
use vstd::prelude::*;

verus! {

/// Counts down once per poll, completes at zero.
pub struct CountDown {
    pub count: u32,
}

impl CountDown {
    /// A countdown from `count`.
    pub fn new(count: u32) -> (c: Self)
        ensures
            c.count == count,
    {
        Self { count }
    }

    /// One poll: ready with `"liftoff!"` when the count is zero, otherwise
    /// the count drops by one and the future stays pending.
    pub fn poll_step(&mut self) -> (r: Option<&'static str>)
        ensures
            r is Some == countdown_step(old(self).count).0,
            r matches Some(s) ==> s@ == "liftoff!"@,
            final(self).count == countdown_step(old(self).count).1,
    {
        if self.count == 0 {
            Some("liftoff!")
        } else {
            self.count -= 1;
            None
        }
    }
}

/// One poll of a countdown at `count`: whether it is ready, and the count
/// afterwards.
pub open spec fn countdown_step(count: u32) -> (bool, u32) {
    if count == 0 {
        (true, 0)
    } else {
        (false, (count - 1) as u32)
    }
}

/// How many polls of a countdown at `count` are pending before the one that
/// completes it.
pub open spec fn pending_polls(count: u32) -> nat
    decreases count,
{
    if countdown_step(count).0 {
        0
    } else {
        1 + pending_polls(countdown_step(count).1)
    }
}

/// A countdown from `n` is pending on exactly its first `n` polls; poll
/// `n + 1` completes it.
pub proof fn law_countdown_pending_polls(n: u32)
    ensures
        pending_polls(n) == n,
    decreases n,
{
    if n > 0 {
        law_countdown_pending_polls((n - 1) as u32);
    }
}

/// Pending on the first poll, ready on every later one.
pub struct YieldOnce {
    yielded: bool,
}

impl YieldOnce {
    /// Whether the future has already yielded once.
    pub closed spec fn has_yielded(&self) -> bool {
        self.yielded
    }

    /// A future that has not yielded yet.
    pub fn new() -> (y: Self)
        ensures
            !y.has_yielded(),
    {
        Self { yielded: false }
    }

    /// One poll: pending (and now marked as yielded) on the first call, ready
    /// afterwards.
    pub fn poll_step(&mut self) -> (r: Option<()>)
        ensures
            r is None <==> !old(self).has_yielded(),
            final(self).has_yielded(),
    {
        if !self.yielded {
            self.yielded = true;
            None
        } else {
            Some(())
        }
    }
}

} // verus!
