use todo::pump::{poll_timeout, tick_due};

#[test]
fn timeout_is_the_time_left_until_the_deadline() {
    assert_eq!(poll_timeout(0, 200), 200);
    assert_eq!(poll_timeout(150, 200), 50);
    assert_eq!(poll_timeout(199, 200), 1);
}

#[test]
fn timeout_is_zero_once_the_deadline_passed() {
    assert_eq!(poll_timeout(200, 200), 0);
    assert_eq!(poll_timeout(5000, 200), 0);
}

#[test]
fn heartbeat_is_due_after_a_full_interval() {
    assert!(!tick_due(0, 200));
    assert!(!tick_due(199, 200));
    assert!(tick_due(200, 200));
    assert!(tick_due(201, 200));
}
