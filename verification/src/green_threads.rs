//! Cooperative (green) thread scheduling.
//!
//! Thread 0 is the thread that created the scheduler; spawned threads get
//! their own stack and a context that first returns to a start routine,
//! which runs the thread's entry.  Scheduling is round robin: from the
//! current thread onwards, the next `Ready` thread runs; the thread that
//! gives up the CPU goes back to `Ready` unless it has `Finished`.
//!
//! This module decides which switch happens and keeps the thread table; the
//! register switch itself is assembly and lives with the program.  Contexts
//! have the layout of `stack_coroutine::TaskContext`.
use crate::stack_coroutine::{align16_down, buffer_address, stack_top_for, stack_top_of, TaskContext};
use vstd::prelude::*;

verus! {

/// Stack size of a green thread: 128 KiB.
pub const STACK_SIZE: usize = 1024 * 128;

/// Scheduling state of a thread.
#[derive(Debug, Clone, Copy, PartialEq, Eq, Structural)]
pub enum ThreadState {
    Ready,
    Running,
    Finished,
}

/// A switch decided by the scheduler: save the registers into thread `from`,
/// load those of thread `to`; `entry` is the entry of `to` when `to` runs for
/// the first time.
#[derive(Debug, Clone, Copy, PartialEq, Eq, Structural)]
pub struct Switch {
    pub from: usize,
    pub to: usize,
    pub entry: Option<usize>,
}

/// Position `k` steps after `cur` on a ring of `n` threads (`1 <= k <= n`).
pub open spec fn ring(cur: int, k: int, n: int) -> int {
    if cur + k < n {
        cur + k
    } else {
        cur + k - n
    }
}

/// Number of steps from `from` forward to `to` on a ring of `n` threads
/// (`n` steps when `to == from`).
pub open spec fn ring_distance(from: int, to: int, n: int) -> int {
    if to > from {
        to - from
    } else {
        to - from + n
    }
}

/// The first `Ready` thread after `cur` in ring order is `k` steps away
/// (`k == n` is `cur` itself).
pub open spec fn is_next_ready(states: Seq<ThreadState>, cur: int, k: int) -> bool {
    let n = states.len() as int;
    &&& 1 <= k <= n
    &&& states[ring(cur, k, n)] == ThreadState::Ready
    &&& forall|j: int| 1 <= j < k ==> states[#[trigger] ring(cur, j, n)] != ThreadState::Ready
}

/// No thread is `Ready`.
pub open spec fn none_ready(states: Seq<ThreadState>) -> bool {
    forall|i: int| 0 <= i < states.len() ==> states[i] != ThreadState::Ready
}

/// States after switching from `from` to `to`: a running `from` goes back to
/// `Ready` (a finished one stays finished) and `to` runs.
pub open spec fn after_switch(states: Seq<ThreadState>, from: int, to: int) -> Seq<ThreadState> {
    let s = if states[from] == ThreadState::Running {
        states.update(from, ThreadState::Ready)
    } else {
        states
    };
    s.update(to, ThreadState::Running)
}

/// The states with thread `cur` marked `Finished`.
pub open spec fn finished(states: Seq<ThreadState>, cur: int) -> Seq<ThreadState> {
    states.update(cur, ThreadState::Finished)
}

/// Only the current thread may be running.
pub open spec fn single_runner(states: Seq<ThreadState>, cur: int) -> bool {
    forall|i: int| 0 <= i < states.len() && states[i] == ThreadState::Running ==> i == cur
}

/// The green-thread table.
pub struct Scheduler {
    contexts: Vec<TaskContext>,
    states: Vec<ThreadState>,
    stacks: Vec<Option<Vec<u8>>>,
    stack_bases: Vec<usize>,
    entries: Vec<Option<usize>>,
    current: usize,
}

impl Scheduler {
    /// Thread states, by thread index.
    pub closed spec fn thread_states(&self) -> Seq<ThreadState> {
        self.states@
    }

    /// Entries of threads that have not started yet, by thread index.
    pub closed spec fn pending_entries(&self) -> Seq<Option<usize>> {
        self.entries@
    }

    /// Saved contexts, by thread index.
    pub closed spec fn thread_contexts(&self) -> Seq<TaskContext> {
        self.contexts@
    }

    /// Stack buffers, by thread index (`None` for thread 0, which runs on
    /// the caller's stack).
    pub closed spec fn thread_stacks(&self) -> Seq<Option<Seq<u8>>> {
        self.stacks@.map_values(|st: Option<Vec<u8>>| match st {
            Some(v) => Some(v@),
            None => None,
        })
    }

    /// Start addresses of the stack buffers, by thread index, as the
    /// allocator placed them when the threads were spawned (0 for thread 0).
    pub closed spec fn thread_stack_bases(&self) -> Seq<usize> {
        self.stack_bases@
    }

    /// Index of the thread that runs.
    pub closed spec fn current_thread(&self) -> int {
        self.current as int
    }

    /// The table is consistent: one entry per thread in every column, and the
    /// current index names a thread.
    pub closed spec fn wf(&self) -> bool {
        &&& self.states@.len() >= 1
        &&& self.contexts@.len() == self.states@.len()
        &&& self.stacks@.len() == self.states@.len()
        &&& self.stack_bases@.len() == self.states@.len()
        &&& self.entries@.len() == self.states@.len()
        &&& self.current < self.states@.len()
    }

    /// Every column has one entry per thread, and the current thread is one
    /// of them.
    pub proof fn lemma_shape(&self)
        requires
            self.wf(),
        ensures
            self.thread_states().len() >= 1,
            self.pending_entries().len() == self.thread_states().len(),
            self.thread_contexts().len() == self.thread_states().len(),
            self.thread_stacks().len() == self.thread_states().len(),
            self.thread_stack_bases().len() == self.thread_states().len(),
            0 <= self.current_thread() < self.thread_states().len(),
    {
    }

    /// A scheduler whose only thread, the caller, is running on its own
    /// stack.
    pub fn new() -> (s: Self)
        ensures
            s.wf(),
            s.thread_states() == seq![ThreadState::Running],
            s.pending_entries() == seq![None::<usize>],
            s.thread_stacks() == seq![None::<Seq<u8>>],
            s.thread_stack_bases() == seq![0usize],
            s.current_thread() == 0,
    {
        let mut contexts: Vec<TaskContext> = Vec::new();
        contexts.push(TaskContext::empty());
        let mut states: Vec<ThreadState> = Vec::new();
        states.push(ThreadState::Running);
        let mut stacks: Vec<Option<Vec<u8>>> = Vec::new();
        stacks.push(None);
        let mut stack_bases: Vec<usize> = Vec::new();
        stack_bases.push(0);
        let mut entries: Vec<Option<usize>> = Vec::new();
        entries.push(None);
        let s = Self { contexts, states, stacks, stack_bases, entries, current: 0 };
        assert(s.thread_states() =~= seq![ThreadState::Running]);
        assert(s.pending_entries() =~= seq![None::<usize>]);
        assert(s.thread_stacks() =~= seq![None::<Seq<u8>>]);
        assert(s.thread_stack_bases() =~= seq![0usize]);
        s
    }

    /// Register a thread that will run `entry`: it gets its own zeroed stack
    /// of `STACK_SIZE` bytes, and its context returns first to `start` (the
    /// routine that calls the pending entry) with `sp` at the 16-byte aligned
    /// top of that stack (`stack_top_for` of the buffer's address).
    pub fn spawn(&mut self, entry: usize, start: usize)
        requires
            old(self).wf(),
            old(self).thread_states().len() < usize::MAX,
        ensures
            final(self).wf(),
            final(self).thread_states() == old(self).thread_states().push(ThreadState::Ready),
            final(self).pending_entries() == old(self).pending_entries().push(Some(entry)),
            final(self).current_thread() == old(self).current_thread(),
            final(self).thread_contexts().len() == old(self).thread_contexts().len() + 1,
            final(self).thread_contexts().drop_last() == old(self).thread_contexts(),
            final(self).thread_contexts().last().ra == start as u64,
            final(self).thread_contexts().last().sp % 16 == 0,
            final(self).thread_stacks() == old(self).thread_stacks().push(
                Some(Seq::new(STACK_SIZE as nat, |_i: int| 0u8)),
            ),
            final(self).thread_stack_bases().drop_last() == old(self).thread_stack_bases(),
            final(self).thread_stack_bases().len() == old(self).thread_stack_bases().len() + 1,
            final(self).thread_stack_bases().last() + STACK_SIZE <= usize::MAX,
            final(self).thread_contexts().last().sp == align16_down(
                (final(self).thread_stack_bases().last() + STACK_SIZE) as usize,
            ),
            exists|addr: usize| #[trigger]
                stack_top_of(addr, STACK_SIZE, final(self).thread_contexts().last().sp as int),
    {
        let stack = vec![0u8; STACK_SIZE];
        assert(stack@ =~= Seq::new(STACK_SIZE as nat, |_i: int| 0u8));
        let addr = buffer_address(&stack);
        let top = stack_top_for(addr, STACK_SIZE);
        let mut ctx = TaskContext::empty();
        ctx.ra = start as u64;
        ctx.sp = top as u64;
        assert(stack_top_of(addr, STACK_SIZE, ctx.sp as int));
        self.contexts.push(ctx);
        self.states.push(ThreadState::Ready);
        self.stacks.push(Some(stack));
        self.stack_bases.push(addr);
        self.entries.push(Some(entry));
        assert(self.thread_contexts().drop_last() =~= old(self).thread_contexts());
        assert(self.thread_stack_bases().drop_last() =~= old(self).thread_stack_bases());
        assert(self.thread_stacks() =~= old(self).thread_stacks().push(
            Some(Seq::new(STACK_SIZE as nat, |_i: int| 0u8)),
        ));
        assert(stack_top_of(addr, STACK_SIZE, self.thread_contexts().last().sp as int));
    }

    /// Pick the next `Ready` thread after the current one (round robin) and
    /// switch the table to it; `None`, with nothing changed, when no thread
    /// is ready.
    pub fn schedule_next(&mut self) -> (r: Option<Switch>)
        requires
            old(self).wf(),
        ensures
            final(self).wf(),
            final(self).thread_contexts() == old(self).thread_contexts(),
            final(self).thread_stacks() == old(self).thread_stacks(),
            final(self).thread_stack_bases() == old(self).thread_stack_bases(),
            r is None <==> none_ready(old(self).thread_states()),
            r is None ==> final(self).thread_states() == old(self).thread_states()
                && final(self).pending_entries() == old(self).pending_entries()
                && final(self).current_thread() == old(self).current_thread(),
            r matches Some(sw) ==> sw.from == old(self).current_thread(),
            r matches Some(sw) ==> sw.to < old(self).thread_states().len() && is_next_ready(
                old(self).thread_states(),
                sw.from as int,
                ring_distance(sw.from as int, sw.to as int, old(self).thread_states().len() as int),
            ),
            r matches Some(sw) ==> sw.entry == old(self).pending_entries()[sw.to as int],
            r matches Some(sw) ==> final(self).thread_states() == after_switch(
                old(self).thread_states(),
                sw.from as int,
                sw.to as int,
            ),
            r matches Some(sw) ==> final(self).pending_entries()
                == old(self).pending_entries().update(sw.to as int, None),
            r matches Some(sw) ==> final(self).current_thread() == sw.to,
    {
        let n = self.states.len();
        let old_idx = self.current;
        proof {
            lemma_step_mod(old_idx as int, n as int);
        }
        let mut next_idx = (old_idx + 1) % n;
        let ghost mut k: int = 1;
        while self.states[next_idx] != ThreadState::Ready
            invariant
                self.wf(),
                self.states@ == old(self).states@,
                self.entries@ == old(self).entries@,
                self.contexts@ == old(self).contexts@,
                self.stacks@ == old(self).stacks@,
                self.stack_bases@ == old(self).stack_bases@,
                self.current == old(self).current,
                n == self.states@.len(),
                old_idx == self.current,
                1 <= k <= n,
                next_idx == ring(old_idx as int, k, n as int),
                forall|j: int|
                    1 <= j < k ==> self.states@[#[trigger] ring(old_idx as int, j, n as int)]
                        != ThreadState::Ready,
            decreases n - k,
        {
            if next_idx == old_idx {
                proof {
                    assert(k == n);
                    assert forall|i: int| 0 <= i < n implies self.states@[i]
                        != ThreadState::Ready by {
                        let j = if i > old_idx {
                            i - old_idx
                        } else {
                            i - old_idx + n
                        };
                        assert(ring(old_idx as int, j, n as int) == i);
                    }
                }
                return None;
            }
            proof {
                lemma_step_mod(next_idx as int, n as int);
            }
            next_idx = (next_idx + 1) % n;
            proof {
                k = k + 1;
            }
        }
        if self.states[old_idx] == ThreadState::Running {
            self.states.set(old_idx, ThreadState::Ready);
        }
        self.states.set(next_idx, ThreadState::Running);
        self.current = next_idx;
        let entry = self.entries[next_idx];
        self.entries.set(next_idx, None);
        proof {
            assert(ring_distance(old_idx as int, next_idx as int, n as int) == k);
            assert(is_next_ready(old(self).thread_states(), old_idx as int, k));
            assert(self.states@ =~= after_switch(old(self).states@, old_idx as int, next_idx as int));
            assert(entry == old(self).entries@[next_idx as int]);
            assert(self.entries@ == old(self).entries@.update(next_idx as int, None));
            assert(self.wf());
            assert(self.contexts@ == old(self).contexts@);
        }
        Some(Switch { from: old_idx, to: next_idx, entry })
    }

    /// The current thread has returned from its entry: mark it `Finished`
    /// and pick the next thread as `schedule_next` does.
    pub fn finish_current(&mut self) -> (r: Option<Switch>)
        requires
            old(self).wf(),
        ensures
            final(self).wf(),
            final(self).thread_contexts() == old(self).thread_contexts(),
            final(self).thread_stacks() == old(self).thread_stacks(),
            final(self).thread_stack_bases() == old(self).thread_stack_bases(),
            r is None <==> none_ready(finished(old(self).thread_states(), old(self).current_thread())),
            r is None ==> final(self).thread_states() == finished(
                old(self).thread_states(),
                old(self).current_thread(),
            ) && final(self).pending_entries() == old(self).pending_entries()
                && final(self).current_thread() == old(self).current_thread(),
            r matches Some(sw) ==> sw.from == old(self).current_thread(),
            r matches Some(sw) ==> sw.to < old(self).thread_states().len() && is_next_ready(
                finished(old(self).thread_states(), old(self).current_thread()),
                sw.from as int,
                ring_distance(sw.from as int, sw.to as int, old(self).thread_states().len() as int),
            ),
            r matches Some(sw) ==> sw.entry == old(self).pending_entries()[sw.to as int],
            r matches Some(sw) ==> final(self).thread_states() == after_switch(
                finished(old(self).thread_states(), old(self).current_thread()),
                sw.from as int,
                sw.to as int,
            ),
            r matches Some(sw) ==> final(self).pending_entries()
                == old(self).pending_entries().update(sw.to as int, None),
            r matches Some(sw) ==> final(self).current_thread() == sw.to,
    {
        let cur = self.current;
        self.states.set(cur, ThreadState::Finished);
        assert(self.states@ == finished(old(self).states@, cur as int));
        self.schedule_next()
    }

    /// Whether a thread other than thread 0 has not finished yet.
    pub fn has_unfinished(&self) -> (b: bool)
        requires
            self.wf(),
        ensures
            b == exists|i: int|
                1 <= i < self.thread_states().len() && self.thread_states()[i]
                    != ThreadState::Finished,
    {
        let mut i: usize = 1;
        while i < self.states.len()
            invariant
                1 <= i <= self.states@.len(),
                forall|j: int| 1 <= j < i ==> self.states@[j] == ThreadState::Finished,
            decreases self.states@.len() - i,
        {
            if self.states[i] != ThreadState::Finished {
                return true;
            }
            i += 1;
        }
        false
    }

    /// The saved context of thread `i`, for the switch code to save into or
    /// load from.
    pub fn context_mut(&mut self, i: usize) -> (c: &mut TaskContext)
        requires
            old(self).wf(),
            i < old(self).thread_states().len(),
        ensures
            *c == old(self).thread_contexts()[i as int],
            final(self).thread_contexts() == old(self).thread_contexts().update(i as int, *final(c)),
            final(self).thread_states() == old(self).thread_states(),
            final(self).pending_entries() == old(self).pending_entries(),
            final(self).thread_stacks() == old(self).thread_stacks(),
            final(self).thread_stack_bases() == old(self).thread_stack_bases(),
            final(self).current_thread() == old(self).current_thread(),
            final(self).wf(),
    {
        &mut self.contexts[i]
    }
}

proof fn lemma_step_mod(x: int, n: int)
    requires
        0 <= x < n,
    ensures
        (x + 1) % n == if x + 1 < n {
            x + 1
        } else {
            0
        },
{
    if x + 1 < n {
        vstd::arithmetic::div_mod::lemma_small_mod((x + 1) as nat, n as nat);
    } else {
        vstd::arithmetic::div_mod::lemma_mod_self_0(n);
    }
}

/// Switching to the thread `schedule_next` picks keeps at most one thread
/// running, the new current one, and never revives a finished thread.
pub proof fn law_switch_keeps_single_runner(states: Seq<ThreadState>, cur: int, to: int)
    requires
        0 <= cur < states.len(),
        0 <= to < states.len(),
        single_runner(states, cur),
        is_next_ready(states, cur, ring_distance(cur, to, states.len() as int)),
    ensures
        ({
            let after = after_switch(states, cur, to);
            &&& single_runner(after, to)
            &&& after[to] == ThreadState::Running
            &&& forall|i: int|
                0 <= i < states.len() && states[i] == ThreadState::Finished ==> after[i]
                    == ThreadState::Finished
        }),
{
    assert(ring(cur, ring_distance(cur, to, states.len() as int), states.len() as int) == to);
}

} // verus!
