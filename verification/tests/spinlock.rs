use oscamp::spinlock::RawSpinLock;

#[test]
fn acquire_release_cycle() {
    let lock = RawSpinLock::new();
    assert!(lock.try_acquire());
    assert!(!lock.try_acquire());
    lock.release();
    assert!(lock.try_acquire());
    lock.release();
}
