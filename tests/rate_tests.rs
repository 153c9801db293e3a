use vstats::rate::{per_second, RateTracker};

#[test]
fn rx_speed_sequence_with_reset() {
    let mut t = RateTracker::new(1000, 0, 0);
    assert_eq!(t.observe(1500, 0, 1000).0, 500);
    assert_eq!(t.observe(400, 0, 2000).0, 0);
    assert_eq!(t.last_rx, 400);
    assert_eq!(t.observe(900, 0, 3000).0, 500);
}

#[test]
fn close_observations_give_zero_and_keep_state() {
    let mut t = RateTracker::new(1000, 2000, 5000);
    assert_eq!(t.observe(9000, 9000, 5099), (0, 0));
    assert_eq!((t.last_rx, t.last_tx, t.last_ms), (1000, 2000, 5000));
    assert_eq!(t.observe(9000, 9000, 4000), (0, 0));
    assert_eq!((t.last_rx, t.last_tx, t.last_ms), (1000, 2000, 5000));
}

#[test]
fn rate_is_delta_over_elapsed() {
    let mut t = RateTracker::new(0, 100, 0);
    assert_eq!(t.observe(1000, 350, 250), (4000, 1000));
    assert_eq!((t.last_rx, t.last_tx, t.last_ms), (1000, 350, 250));
    // exactly the minimum spacing is enough
    assert_eq!(t.observe(1100, 350, 350), (1000, 0));
}

#[test]
fn rate_rounds_down_and_saturates() {
    assert_eq!(per_second(0, 10, 3000), 3);
    assert_eq!(per_second(10, 5, 1000), 0);
    assert_eq!(per_second(0, u64::MAX, 100), u64::MAX);
}
