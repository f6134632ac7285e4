use oscamp::atomic_ordering::{FlagChannel, OnceCell};

#[test]
fn test_once_cell_init_once() {
    let cell = OnceCell::new();
    assert!(cell.init(42));
    assert!(!cell.init(100));
    assert_eq!(cell.get(), Some(42));
}

#[test]
fn test_once_cell_not_initialized() {
    let cell = OnceCell::new();
    assert_eq!(cell.get(), None);
}

// ---- further cases ----

#[test]
fn flag_channel_hand_off() {
    let ch = FlagChannel::new();
    assert_eq!(ch.try_consume(), None);
    ch.produce(0xDEAD_BEEF);
    assert_eq!(ch.try_consume(), Some(0xDEAD_BEEF));
    ch.reset();
    assert_eq!(ch.try_consume(), None);
}

#[test]
fn once_cell_second_init_keeps_first_value() {
    let cell = OnceCell::new();
    assert!(cell.init(0));
    assert!(!cell.init(7));
    assert!(!cell.init(9));
    assert_eq!(cell.get(), Some(0));
}
