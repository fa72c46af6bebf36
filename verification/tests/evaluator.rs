use queue_admission::admission::{
    exceeds_queue_timeout, queue_wait_ms, MILLIS_PER_SEC, QUEUE_TIMEOUT_SECS,
};
use queue_admission::clock::{current_time_millis, Clock};

#[test]
fn the_threshold_is_four_seconds() {
    assert_eq!(QUEUE_TIMEOUT_SECS, 4);
    assert_eq!(MILLIS_PER_SEC, 1000);
}

#[test]
fn the_wait_is_the_difference_of_the_two_times() {
    assert_eq!(queue_wait_ms(1000, 1000), 0);
    assert_eq!(queue_wait_ms(1000, 6000), 5000);
    assert_eq!(queue_wait_ms(0, u64::MAX), u64::MAX);
}

#[test]
fn a_request_is_on_time_before_four_seconds() {
    assert!(!exceeds_queue_timeout(0));
    assert!(!exceeds_queue_timeout(999));
    assert!(!exceeds_queue_timeout(3999));
}

#[test]
fn a_request_is_late_from_four_seconds_on() {
    assert!(exceeds_queue_timeout(4000));
    assert!(exceeds_queue_timeout(4001));
    assert!(exceeds_queue_timeout(5000));
    assert!(exceeds_queue_timeout(u64::MAX));
}

#[test]
fn a_clock_shows_the_time_it_was_set_to() {
    assert_eq!(current_time_millis(&Clock::new(0)), 0);
    assert_eq!(current_time_millis(&Clock::new(1234)), 1234);
}

#[test]
fn a_clock_moves_forward() {
    let mut clock = Clock::new(100);
    clock.advance_to(250);
    assert_eq!(current_time_millis(&clock), 250);
    clock.advance_to(250);
    assert_eq!(current_time_millis(&clock), 250);
    clock.advance_to(u64::MAX);
    assert_eq!(current_time_millis(&clock), u64::MAX);
}

#[test]
fn a_clock_never_runs_backwards() {
    let mut clock = Clock::new(100);
    clock.advance_to(99);
    assert_eq!(current_time_millis(&clock), 100);
    clock.advance_to(0);
    assert_eq!(current_time_millis(&clock), 100);
}

#[test]
fn clocks_are_independent_of_each_other() {
    let mut first = Clock::new(10);
    let second = first.clone();
    first.advance_to(20);
    assert_eq!(current_time_millis(&first), 20);
    assert_eq!(current_time_millis(&second), 10);
}
