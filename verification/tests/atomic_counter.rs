use oscamp::atomic_counter::{scaled, AtomicCounter};

#[test]
fn test_basic_ops() {
    let c = AtomicCounter::new(0);
    assert_eq!(c.increment(), 0);
    assert_eq!(c.increment(), 1);
    assert_eq!(c.get(), 2);
    assert_eq!(c.decrement(), 2);
    assert_eq!(c.get(), 1);
}

#[test]
fn test_cas_success() {
    let c = AtomicCounter::new(10);
    assert_eq!(c.compare_and_swap(10, 20), Ok(10));
    assert_eq!(c.get(), 20);
}

#[test]
fn test_cas_failure() {
    let c = AtomicCounter::new(10);
    assert_eq!(c.compare_and_swap(5, 20), Err(10));
    assert_eq!(c.get(), 10);
}

#[test]
fn test_fetch_multiply() {
    let c = AtomicCounter::new(3);
    let old = c.fetch_multiply(4);
    assert_eq!(old, 3);
    assert_eq!(c.get(), 12);
}

// ---- further cases ----

#[test]
fn multiply_by_zero_and_one() {
    let c = AtomicCounter::new(9);
    assert_eq!(c.fetch_multiply(1), 9);
    assert_eq!(c.get(), 9);
    assert_eq!(c.fetch_multiply(0), 9);
    assert_eq!(c.get(), 0);
}

#[test]
fn scaled_wraps() {
    assert_eq!(scaled(3, 4), 12);
    assert_eq!(scaled(u64::MAX, 2), u64::MAX - 1);
    assert_eq!(scaled(1 << 63, 2), 0);
}

#[test]
fn increment_wraps_and_decrement_underflows() {
    let c = AtomicCounter::new(u64::MAX);
    assert_eq!(c.increment(), u64::MAX);
    assert_eq!(c.get(), 0);
    assert_eq!(c.decrement(), 0);
    assert_eq!(c.get(), u64::MAX);
}
