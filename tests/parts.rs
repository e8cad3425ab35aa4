use segqueue::index::{self, BLOCK_CAP, LAP};
use segqueue::{Backoff, CachePadded};

#[test]
fn layout_constants() {
    assert_eq!(LAP, 32);
    assert_eq!(BLOCK_CAP, LAP - 1);
}

#[test]
fn index_fields() {
    // Position 70 is lap 2, offset 6; flag set.
    let i = 70 * 2 + 1;
    assert_eq!(index::position(i), 70);
    assert_eq!(index::lap(i), 2);
    assert_eq!(index::offset(i), 6);
    assert!(index::has_next(i));
    assert!(!index::has_next(140));
}

#[test]
fn index_flag_set_and_clear() {
    assert_eq!(index::with_next(140), 141);
    assert_eq!(index::with_next(141), 141);
    assert_eq!(index::without_next(141), 140);
    assert_eq!(index::without_next(140), 140);
}

#[test]
fn index_advance_keeps_flag() {
    assert_eq!(index::advance(141, 1), 143);
    assert_eq!(index::advance(140, 2), 144);
    assert_eq!(index::advance(1, 5), 11);
    // Offset 30 plus two positions lands on the next lap's first slot.
    let last = 30 * 2;
    let next = index::advance(last, 2);
    assert_eq!(index::lap(next), 1);
    assert_eq!(index::offset(next), 0);
}

#[test]
fn backoff_spin_then_yield() {
    let mut b = Backoff::new();
    for _ in 0..7 {
        assert!(!b.snooze());
    }
    assert!(b.snooze());
    assert!(!b.is_completed());
    for _ in 0..3 {
        assert!(b.snooze());
    }
    assert!(b.is_completed());
    assert!(b.snooze());
    assert!(b.is_completed());
}

#[test]
fn backoff_reset() {
    let mut b = Backoff::default();
    for _ in 0..11 {
        b.snooze();
    }
    assert!(b.is_completed());
    b.reset();
    assert!(!b.is_completed());
    assert!(!b.snooze());
}

#[test]
fn backoff_spin_stops_at_limit() {
    let mut b = Backoff::new();
    for _ in 0..20 {
        b.spin();
    }
    // Spinning alone never moves the step past the spin limit.
    assert!(!b.is_completed());
    assert!(b.snooze());
}

#[test]
fn cache_padded_pass_through() {
    let mut p = CachePadded::new(5u32);
    assert_eq!(*p.get(), 5);
    *p.get_mut() = 9;
    assert_eq!(*p.get(), 9);
    assert_eq!(p.into_inner(), 9);
    let q: CachePadded<String> = CachePadded::from(String::from("x"));
    assert_eq!(q.into_inner(), "x");
}
