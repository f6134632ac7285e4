//! The state word of a writer-priority read-write lock, and the decisions
//! taken on it.
//!
//! One `u64` holds everything: bits 0..30 count the readers holding the lock,
//! bit 30 is set while a writer holds it, and bits 32..64 count the writers
//! that announced themselves and wait.  New readers are admitted only when no
//! writer holds or waits (writer priority); a waiting writer takes the lock
//! only when there are no readers and no holder, and stops being counted as
//! waiting when it does, so the lock still counts as writer-waiting exactly
//! while some other writer waits.
use std::sync::atomic::{AtomicU64, Ordering};
use crate::atomics::compare_exchange_u64;
use vstd::prelude::*;

verus! {

/// Reader count field (bits 0..30).
pub const READER_MASK: u64 = 0x3fff_ffff;

/// A writer holds the lock.
pub const WRITER_HOLDING: u64 = 0x4000_0000;

/// One waiting writer in the waiting-writer count (bits 32..64).
pub const WRITER_WAITING_ONE: u64 = 0x1_0000_0000;

/// Number of readers holding the lock in state `s`.
pub open spec fn readers(s: u64) -> u64 {
    s & READER_MASK
}

/// A writer holds the lock in state `s`.
pub open spec fn writer_holds(s: u64) -> bool {
    s & WRITER_HOLDING != 0
}

/// Number of writers waiting in state `s`.
pub open spec fn waiting_writers(s: u64) -> u64 {
    s >> 32
}

/// At least one writer waits in state `s`.
pub open spec fn writer_waits(s: u64) -> bool {
    waiting_writers(s) != 0
}

/// Readers and a writer never hold the lock together.
pub open spec fn exclusive(s: u64) -> bool {
    writer_holds(s) ==> readers(s) == 0
}

/// State after admitting one more reader, `None` when a reader must wait:
/// a writer holds or waits, or the reader count is full.
pub open spec fn read_admission(s: u64) -> Option<u64> {
    if writer_holds(s) || writer_waits(s) || readers(s) == READER_MASK {
        None
    } else {
        Some((s + 1) as u64)
    }
}

/// State after a waiting writer takes the lock (holding set, one waiting
/// writer fewer), `None` when it must wait: readers or another writer hold
/// the lock.  A writer takes the lock only after announcing itself, so a
/// state with no waiting writer admits none.
pub open spec fn write_admission(s: u64) -> Option<u64> {
    if readers(s) != 0 || writer_holds(s) || !writer_waits(s) {
        None
    } else {
        Some(((s - WRITER_WAITING_ONE) as u64) | WRITER_HOLDING)
    }
}

/// Leaving as a reader (count minus one) from a state with readers.
pub open spec fn read_release(s: u64) -> u64 {
    (s - 1) as u64
}

/// Leaving as the writer (holding bit cleared).
pub open spec fn write_release(s: u64) -> u64 {
    s & !WRITER_HOLDING
}

/// A writer announcing that it waits: one more waiting writer.
pub open spec fn announce(s: u64) -> u64 {
    (s + WRITER_WAITING_ONE) as u64
}

/// Decide whether a reader may enter from state `s`; the new state if so.
pub fn try_read_step(s: u64) -> (r: Option<u64>)
    ensures
        r == read_admission(s),
{
    if (s & WRITER_HOLDING) != 0 || (s >> 32) != 0 {
        return None;
    }
    if (s & READER_MASK) == READER_MASK {
        return None;
    }
    assert(s & 0x4000_0000u64 == 0u64 && s >> 32u64 == 0u64 && s & 0x3fff_ffffu64
        != 0x3fff_ffffu64 ==> s < 0xffff_ffffu64) by (bit_vector);
    Some(s + 1)
}

/// Decide whether a waiting writer may take the lock from state `s`; the
/// new state if so.
pub fn try_write_step(s: u64) -> (r: Option<u64>)
    ensures
        r == write_admission(s),
{
    if (s & READER_MASK) != 0 || (s & WRITER_HOLDING) != 0 || (s >> 32) == 0 {
        return None;
    }
    assert(s >> 32u64 != 0u64 ==> s >= 0x1_0000_0000u64) by (bit_vector);
    Some((s - WRITER_WAITING_ONE) | WRITER_HOLDING)
}

/// A lock state word, shared between threads.
pub struct RawRwLock {
    state: AtomicU64,
}

impl RawRwLock {
    /// A free lock: no readers, no writer.
    pub fn new() -> Self {
        Self { state: AtomicU64::new(0) }
    }

    /// One attempt to enter as a reader: read the state and, when a reader
    /// may enter, install the admitted state with a compare-exchange.  True
    /// when the reader is in.
    pub fn try_read(&self) -> bool {
        let s = self.state.load(Ordering::Acquire);
        match try_read_step(s) {
            Some(next) => compare_exchange_u64(&self.state, s, next, Ordering::AcqRel, Ordering::Acquire).is_ok(),
            None => false,
        }
    }

    /// Announce a waiting writer, which stops new readers from entering
    /// until it has taken and released the lock.
    pub fn announce_writer(&self) {
        self.state.fetch_add(WRITER_WAITING_ONE, Ordering::Release);
    }

    /// One attempt of an announced writer to take the lock: true when the
    /// writer holds it (and no longer counts as waiting).
    pub fn try_write(&self) -> bool {
        let s = self.state.load(Ordering::Acquire);
        match try_write_step(s) {
            Some(next) => compare_exchange_u64(&self.state, s, next, Ordering::AcqRel, Ordering::Acquire).is_ok(),
            None => false,
        }
    }

    /// A reader leaves: the reader count drops by one.
    pub fn read_unlock(&self) {
        self.state.fetch_sub(1, Ordering::Release);
    }

    /// The writer leaves: the holding bit is cleared.
    pub fn write_unlock(&self) {
        self.state.fetch_and(!WRITER_HOLDING, Ordering::Release);
    }
}

/// Every step of the protocol keeps readers and a writer apart, and moves
/// the waiting-writer count only as the step says: admitting a reader,
/// either release and a refused attempt leave it alone, announcing adds one,
/// and a writer taking the lock removes exactly itself.
pub proof fn law_steps_keep_exclusion(s: u64)
    requires
        exclusive(s),
    ensures
        read_admission(s) matches Some(t) ==> exclusive(t) && readers(t) == readers(s) + 1
            && !writer_holds(t) && waiting_writers(t) == waiting_writers(s),
        write_admission(s) matches Some(t) ==> exclusive(t) && writer_holds(t) && readers(t)
            == 0 && waiting_writers(t) == waiting_writers(s) - 1,
        waiting_writers(s) < 0xffff_ffff ==> exclusive(announce(s)) && waiting_writers(
            announce(s),
        ) == waiting_writers(s) + 1 && readers(announce(s)) == readers(s) && writer_holds(
            announce(s),
        ) == writer_holds(s),
        writer_holds(s) ==> exclusive(write_release(s)) && !writer_holds(write_release(s))
            && readers(write_release(s)) == readers(s) && waiting_writers(write_release(s))
            == waiting_writers(s),
        readers(s) > 0 ==> exclusive(read_release(s)) && readers(read_release(s)) == readers(s)
            - 1 && writer_holds(read_release(s)) == writer_holds(s) && waiting_writers(
            read_release(s),
        ) == waiting_writers(s),
{
    assert(s & 0x4000_0000u64 == 0u64 && s >> 32u64 == 0u64 && s & 0x3fff_ffffu64
        != 0x3fff_ffffu64 ==> {
        &&& ((s + 1u64) as u64) & 0x3fff_ffffu64 == (((s & 0x3fff_ffffu64) + 1u64) as u64)
        &&& ((s + 1u64) as u64) & 0x4000_0000u64 == 0u64
        &&& ((s + 1u64) as u64) >> 32u64 == 0u64
        &&& s & 0x3fff_ffffu64 < 0x3fff_ffffu64
    }) by (bit_vector);
    assert(s & 0x3fff_ffffu64 <= 0x3fff_ffffu64) by (bit_vector);
    assert(s & 0x3fff_ffffu64 == 0u64 && s & 0x4000_0000u64 == 0u64 && s >> 32u64 != 0u64 ==> {
        let t = ((s - 0x1_0000_0000u64) as u64) | 0x4000_0000u64;
        &&& t & 0x3fff_ffffu64 == 0u64
        &&& t & 0x4000_0000u64 != 0u64
        &&& t >> 32u64 == ((s >> 32u64) - 1u64) as u64
    }) by (bit_vector);
    assert(s >> 32u64 < 0xffff_ffffu64 ==> {
        let t = (s + 0x1_0000_0000u64) as u64;
        &&& t & 0x3fff_ffffu64 == s & 0x3fff_ffffu64
        &&& (t & 0x4000_0000u64 != 0u64) == (s & 0x4000_0000u64 != 0u64)
        &&& t >> 32u64 == ((s >> 32u64) + 1u64) as u64
    }) by (bit_vector);
    assert({
        let t = s & !0x4000_0000u64;
        &&& t & 0x4000_0000u64 == 0u64
        &&& t & 0x3fff_ffffu64 == s & 0x3fff_ffffu64
        &&& t >> 32u64 == s >> 32u64
    }) by (bit_vector);
    assert(s & 0x3fff_ffffu64 > 0u64 ==> {
        &&& (((s - 1u64) as u64)) & 0x3fff_ffffu64 == (((s & 0x3fff_ffffu64) - 1u64) as u64)
        &&& (((s - 1u64) as u64) & 0x4000_0000u64) == (s & 0x4000_0000u64)
        &&& ((s - 1u64) as u64) >> 32u64 == s >> 32u64
    }) by (bit_vector);
}

/// Writer priority: while any writer waits, no reader is admitted.
pub proof fn law_waiting_writer_blocks_readers(s: u64)
    requires
        writer_waits(s),
    ensures
        read_admission(s) is None,
{
}

/// A writer that announced itself keeps readers out until it has taken the
/// lock, even when other writers take and release the lock before it: from
/// a state where at least two writers wait, one of them taking the lock and
/// releasing it leaves the other still counted, and readers still refused.
pub proof fn law_other_writers_keep_waiter_counted(s: u64)
    requires
        exclusive(s),
        waiting_writers(s) >= 2,
        write_admission(s) is Some,
    ensures
        waiting_writers(write_release(write_admission(s).unwrap())) == waiting_writers(s) - 1,
        writer_waits(write_release(write_admission(s).unwrap())),
        read_admission(write_release(write_admission(s).unwrap())) is None,
{
    law_steps_keep_exclusion(s);
    let t = write_admission(s).unwrap();
    law_steps_keep_exclusion(t);
}

/// A waiting writer is admitted whenever the lock is free: no readers and
/// no holder, however many writers wait.  Admission then leaves the other
/// waiting writers counted.
pub proof fn law_free_lock_admits_waiting_writer(s: u64)
    requires
        readers(s) == 0,
        !writer_holds(s),
        writer_waits(s),
    ensures
        write_admission(s) matches Some(t) && writer_holds(t) && readers(t) == 0
            && waiting_writers(t) == waiting_writers(s) - 1,
{
    law_steps_keep_exclusion(s);
}

/// A reader is admitted whenever no writer holds or waits and the reader
/// count is not full; it is then counted.
pub proof fn law_free_lock_admits_reader(s: u64)
    requires
        !writer_holds(s),
        !writer_waits(s),
        readers(s) < READER_MASK,
    ensures
        read_admission(s) matches Some(t) && readers(t) == readers(s) + 1 && !writer_holds(t),
{
    assert(s & 0x3fff_ffffu64 <= 0x3fff_ffffu64) by (bit_vector);
    law_steps_keep_exclusion(s);
}

} // verus!
