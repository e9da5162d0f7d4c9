use herdr::terminal_id::{TerminalId, TerminalIdPool};

#[test]
fn from_parts_formats_hex_micros_and_counter() {
    let id = TerminalId::from_parts(0x1a2b, 0x10);
    assert_eq!(id.as_str(), "term_1a2b10");
    assert!(id.is_valid());
}

#[test]
fn validity_requires_prefix_and_hex_suffix() {
    assert!(TerminalId::from_text("term_abc".into()).is_valid());
    assert!(!TerminalId::from_text("term_".into()).is_valid());
    assert!(!TerminalId::from_text("term_xyz".into()).is_valid());
    assert!(!TerminalId::from_text("pane_12".into()).is_valid());
}

#[test]
fn allocation_skips_imported_ids_and_advances_the_counter() {
    let mut pool = TerminalIdPool::new();
    TerminalId::reserve_imported(
        &mut pool,
        vec![TerminalId::from_parts(0xff, 1), TerminalId::from_parts(0xff, 2)],
    );
    let id = pool.alloc_at(0xff);
    assert_eq!(id.as_str(), "term_ff3");
    assert_eq!(pool.next, 4);
    let fresh = TerminalId::allocate(&mut pool);
    assert!(fresh.is_valid());
    assert_eq!(pool.next, 5);
}

#[test]
fn counter_wraps_like_an_atomic_add() {
    let mut pool = TerminalIdPool { next: u64::MAX, imported: Vec::new() };
    let id = pool.alloc_at(1);
    assert_eq!(id.as_str(), "term_1ffffffffffffffff");
    assert_eq!(pool.next, 0);
}

#[test]
fn successive_allocations_at_one_clock_reading_differ_and_are_valid() {
    let mut pool = TerminalIdPool::new();
    TerminalId::reserve_imported(&mut pool, vec![TerminalId::from_parts(0x5, 2)]);
    let first = pool.alloc_at(0x5);
    let second = pool.alloc_at(0x5);
    assert_eq!(first.as_str(), "term_51");
    assert_eq!(second.as_str(), "term_53");
    assert_ne!(first.as_str(), second.as_str());
    assert!(first.is_valid() && second.is_valid());
}

#[test]
fn allocations_at_readings_of_one_hex_length_never_repeat() {
    let mut pool = TerminalIdPool::new();
    let mut seen = std::collections::HashSet::new();
    for micros in [0xa0u128, 0xff, 0x10, 0xa0, 0x3b] {
        let id = pool.alloc_at(micros);
        assert!(id.is_valid());
        assert!(seen.insert(id.as_str().to_string()), "{}", id.as_str());
    }
}

#[test]
fn only_nested_clock_readings_can_repeat_an_id() {
    // Readings whose texts do not nest never give the same id, even with one counter.
    let mut first = TerminalIdPool::new();
    let mut second = TerminalIdPool::new();
    assert_ne!(first.alloc_at(0xab).as_str(), second.alloc_at(0xcd).as_str());
    // Nested readings can: `1` then counter `23`, and `12` then counter `3`.
    let mut early = TerminalIdPool { next: 0x23, imported: Vec::new() };
    let mut late = TerminalIdPool { next: 0x3, imported: Vec::new() };
    assert_eq!(early.alloc_at(0x1).as_str(), late.alloc_at(0x12).as_str());
}
