use broadcast_cursor::atomicsignal::AtomicSignal;

#[test]
fn new_signal_is_clear() {
    let s = AtomicSignal::new();
    let l = s.load();
    assert!(!l.has_action());
    assert!(!l.get_epoch());
    assert!(!l.get_reader());
    assert!(!l.get_writer());
    assert!(!l.start_free());
}

#[test]
fn set_returns_previous_value() {
    let mut s = AtomicSignal::new();
    // The first setter flips the flag from false to true and learns it was
    // the one that did so; a second setter sees it already set.
    assert!(!s.set_epoch());
    assert!(s.set_epoch());
    assert!(!s.set_reader());
    assert!(s.set_reader());
    assert!(!s.set_writer());
    assert!(s.set_writer());
    assert!(!s.set_start_free());
    assert!(s.set_start_free());
}

#[test]
fn clear_returns_previous_value() {
    let mut s = AtomicSignal::new();
    s.set_epoch();
    assert!(s.clear_epoch());
    assert!(!s.clear_epoch());
    s.set_reader();
    assert!(s.clear_reader());
    assert!(!s.clear_reader());
    s.set_writer();
    assert!(s.clear_writer());
    assert!(!s.clear_writer());
    s.set_start_free();
    assert!(s.clear_start_free());
    assert!(!s.clear_start_free());
}

#[test]
fn flags_are_independent() {
    let mut s = AtomicSignal::new();
    s.set_reader();
    let l = s.load();
    assert!(l.get_reader());
    assert!(!l.get_epoch());
    assert!(!l.get_writer());
    assert!(!l.start_free());

    s.set_writer();
    s.set_epoch();
    s.set_start_free();
    // Clearing the writer flag leaves the reader flag (and the others) alone.
    s.clear_writer();
    let l = s.load();
    assert!(!l.get_writer());
    assert!(l.get_reader());
    assert!(l.get_epoch());
    assert!(l.start_free());
}

#[test]
fn has_action_sees_any_flag() {
    let mut s = AtomicSignal::new();
    s.set_start_free();
    assert!(s.load().has_action());
    s.clear_start_free();
    assert!(!s.load().has_action());
    s.set_writer();
    assert!(s.load().has_action());
}

#[test]
fn loaded_snapshot_is_frozen() {
    let mut s = AtomicSignal::new();
    let before = s.load();
    s.set_epoch();
    // The earlier snapshot still shows the state at load time.
    assert!(!before.get_epoch());
    assert!(s.load().get_epoch());
}
