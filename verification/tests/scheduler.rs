use refcount_grace::{departure, Departure, Duration};

#[test]
fn durations_count_nanoseconds() {
    assert_eq!(Duration::from_millis(50).as_nanos(), 50_000_000);
    assert_eq!(Duration::from_millis(1_234).as_nanos(), 1_234_000_000);
    assert_eq!(Duration::new(3, 7).as_nanos(), 3_000_000_007);
    assert_eq!(Duration::new(1, 2_500_000_000).as_nanos(), 3_500_000_000);
    assert_eq!(Duration::from_millis(u64::MAX).as_nanos(), u64::MAX as u128 * 1_000_000);
}

#[test]
fn only_the_empty_duration_is_zero() {
    assert!(Duration::from_millis(0).is_zero());
    assert!(Duration::new(0, 0).is_zero());
    assert!(!Duration::new(0, 1).is_zero());
    assert!(!Duration::new(1, 0).is_zero());
    assert!(!Duration::from_millis(1).is_zero());
}

#[test]
fn a_departure_depends_on_who_remains_and_on_the_grace_period() {
    let zero = Duration::new(0, 0);
    let grace = Duration::from_millis(50);
    assert_eq!(departure(false, zero), Departure::Stay);
    assert_eq!(departure(false, grace), Departure::Stay);
    assert_eq!(departure(true, zero), Departure::Disconnect);
    assert_eq!(departure(true, grace), Departure::OpenWindow);
}
