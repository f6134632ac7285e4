use oscamp::green_threads::{Scheduler, Switch};

#[test]
fn round_robin_over_spawned_threads() {
    let mut s = Scheduler::new();
    s.spawn(0xA000, 0xF000);
    s.spawn(0xB000, 0xF000);
    assert!(s.has_unfinished());
    // Main thread (0) yields to thread 1, which starts with its entry.
    assert_eq!(s.schedule_next(), Some(Switch { from: 0, to: 1, entry: Some(0xA000) }));
    // Thread 1 yields to thread 2.
    assert_eq!(s.schedule_next(), Some(Switch { from: 1, to: 2, entry: Some(0xB000) }));
    // Thread 2 yields back to the main thread.
    assert_eq!(s.schedule_next(), Some(Switch { from: 2, to: 0, entry: None }));
    // Main thread yields to thread 1 again, which already started.
    assert_eq!(s.schedule_next(), Some(Switch { from: 0, to: 1, entry: None }));
}

#[test]
fn finished_threads_are_skipped() {
    let mut s = Scheduler::new();
    s.spawn(0xA000, 0xF000);
    assert_eq!(s.schedule_next().map(|sw| sw.to), Some(1));
    // Thread 1 finishes: back to main.
    assert_eq!(s.finish_current(), Some(Switch { from: 1, to: 0, entry: None }));
    assert!(!s.has_unfinished());
    // Only the main thread is left and it is running: nothing to switch to.
    assert_eq!(s.schedule_next(), None);
}

#[test]
fn spawned_context_starts_at_start_routine() {
    let mut s = Scheduler::new();
    s.spawn(0x1234, 0x5678);
    let ctx = s.context_mut(1);
    assert_eq!(ctx.ra, 0x5678);
    assert_eq!(ctx.sp % 16, 0);
    assert_ne!(ctx.sp, 0);
    // The saved registers other than `ra` and `sp` start at zero.
    assert_eq!(ctx.s0, 0);
    assert_eq!(ctx.s11, 0);
}

#[test]
fn finishing_a_thread_starts_the_next_with_its_entry() {
    let mut s = Scheduler::new();
    s.spawn(0xa, 0x5678);
    s.spawn(0xb, 0x5678);
    let first = s.schedule_next().unwrap();
    assert_eq!(first, Switch { from: 0, to: 1, entry: Some(0xa) });
    // Thread 1 finishes: thread 2 runs next and gets its entry.
    let next = s.finish_current().unwrap();
    assert_eq!(next, Switch { from: 1, to: 2, entry: Some(0xb) });
    // Thread 2 finishes: only thread 0 is left, which has no pending entry.
    let back = s.finish_current().unwrap();
    assert_eq!(back, Switch { from: 2, to: 0, entry: None });
    assert!(!s.has_unfinished());
    // With every other thread finished and 0 running, nothing is ready.
    assert_eq!(s.finish_current(), None);
}
