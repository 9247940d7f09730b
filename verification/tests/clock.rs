use j2ds::Clock;

#[test]
fn test_clock() {
    let mut c = Clock::new(3);
    assert_eq!(c.period(), 3);

    // First round
    assert_eq!(c.count(), 0);
    assert!(!c.tick());
    assert_eq!(c.count(), 1);
    assert!(!c.tick());
    assert_eq!(c.count(), 2);
    assert!(c.tick());
    assert_eq!(c.count(), 0);

    // Wrap and second round
    assert!(!c.tick());
    assert!(!c.tick());
    assert!(c.tick());

    // Reset in the middle of a cycle
    assert!(!c.tick());
    c.reset();
    assert!(!c.tick());
    assert!(!c.tick());
    assert!(c.tick());
}

#[test]
fn clock_with_period_one_wraps_on_every_tick() {
    let mut c = Clock::new(1);
    assert!(c.tick());
    assert_eq!(c.count(), 0);
    assert!(c.tick());
    assert_eq!(c.count(), 0);
}

#[test]
fn clock_with_period_zero_can_be_made_and_reset() {
    let mut c = Clock::new(0);
    assert_eq!(c.period(), 0);
    assert_eq!(c.count(), 0);
    c.reset();
    assert_eq!(c.count(), 0);
}

#[test]
fn clocks_compare_by_count_and_period() {
    let mut a = Clock::new(4);
    let b = Clock::new(4);
    assert_eq!(a, b);
    a.tick();
    assert_ne!(a, b);
    a.reset();
    assert_eq!(a, b);
    assert_ne!(a, Clock::new(5));
}

#[test]
fn clock_with_the_largest_period() {
    let mut c = Clock::new(u64::MAX);
    assert!(!c.tick());
    assert_eq!(c.count(), 1);
    assert_eq!(c.period(), u64::MAX);
}
