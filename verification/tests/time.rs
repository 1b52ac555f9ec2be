use rustybgp::api;
use rustybgp::time::Timestamp;

#[test]
fn spans_after_the_epoch() {
    assert_eq!(Timestamp { secs: 3, nanos: 4 }, Timestamp::after_epoch(3, 4));
    assert_eq!(Timestamp::epoch(), Timestamp::after_epoch(0, 0));
    let last = Timestamp::after_epoch(u64::MAX, 999_999_999);
    assert_eq!(Timestamp { secs: u64::MAX as i128, nanos: 999_999_999 }, last);
    assert!(!last.is_before_epoch());
    assert_eq!(api::Timestamp { seconds: 3, nanos: 4 }, Timestamp::after_epoch(3, 4).to_api());
}

#[test]
fn spans_before_the_epoch() {
    assert_eq!(Timestamp { secs: -3, nanos: 0 }, Timestamp::before_epoch(3, 0));
    assert_eq!(Timestamp { secs: -2, nanos: 750_000_000 }, Timestamp::before_epoch(1, 250_000_000));
    assert_eq!(Timestamp { secs: -1, nanos: 999_999_999 }, Timestamp::before_epoch(0, 1));
    assert!(Timestamp::before_epoch(0, 1).is_before_epoch());
    assert_ne!(Timestamp::epoch(), Timestamp::before_epoch(0, 1));
    assert_eq!(Timestamp::epoch(), Timestamp::before_epoch(0, 0));
    assert!(!Timestamp::epoch().is_before_epoch());
}

#[test]
fn the_clock_is_read() {
    let before = std::time::SystemTime::now();
    let now = Timestamp::now();
    let after = std::time::SystemTime::now();
    let read = std::time::UNIX_EPOCH + std::time::Duration::new(now.secs as u64, now.nanos);
    assert!(before <= read && read <= after);
}
