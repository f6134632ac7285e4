use oscamp::rwlock_state::{
    try_read_step, try_write_step, RawRwLock, READER_MASK, WRITER_HOLDING, WRITER_WAITING_ONE,
};

#[test]
fn readers_enter_while_no_writer() {
    assert_eq!(try_read_step(0), Some(1));
    assert_eq!(try_read_step(5), Some(6));
}

#[test]
fn readers_blocked_by_writer_holding_or_waiting() {
    assert_eq!(try_read_step(WRITER_HOLDING), None);
    assert_eq!(try_read_step(WRITER_WAITING_ONE | 3), None);
    assert_eq!(try_read_step(2 * WRITER_WAITING_ONE), None);
    assert_eq!(try_read_step(READER_MASK), None);
}

#[test]
fn writer_enters_only_when_free() {
    // An announced writer takes a free lock and stops counting as waiting.
    assert_eq!(try_write_step(WRITER_WAITING_ONE), Some(WRITER_HOLDING));
    // With another writer waiting, that one stays counted.
    assert_eq!(
        try_write_step(2 * WRITER_WAITING_ONE),
        Some(WRITER_WAITING_ONE | WRITER_HOLDING)
    );
    assert_eq!(try_write_step(WRITER_WAITING_ONE | 1), None);
    assert_eq!(try_write_step(WRITER_WAITING_ONE | WRITER_HOLDING), None);
    // A writer that has not announced itself is not admitted.
    assert_eq!(try_write_step(0), None);
}

#[test]
fn raw_lock_protocol() {
    let lock = RawRwLock::new();
    assert!(lock.try_read());
    assert!(lock.try_read());
    lock.announce_writer();
    // A waiting writer keeps new readers out and waits for the two readers.
    assert!(!lock.try_read());
    assert!(!lock.try_write());
    lock.read_unlock();
    lock.read_unlock();
    assert!(lock.try_write());
    assert!(!lock.try_read());
    lock.write_unlock();
    assert!(lock.try_read());
}

#[test]
fn second_waiting_writer_keeps_readers_out() {
    let lock = RawRwLock::new();
    // Writers W1 and W2 both announce; W2 wins the lock first.
    lock.announce_writer();
    lock.announce_writer();
    assert!(lock.try_write());
    // While W2 holds, neither readers nor W1 get in.
    assert!(!lock.try_read());
    assert!(!lock.try_write());
    lock.write_unlock();
    // W1 still waits: a new reader is refused, and W1 takes the lock.
    assert!(!lock.try_read());
    assert!(lock.try_write());
    lock.write_unlock();
    // No writer waits any more: readers are admitted again.
    assert!(lock.try_read());
}
