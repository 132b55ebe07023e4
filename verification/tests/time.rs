use warroom_scribe::time::{Timestamp, MAX_SECS, MIN_SECS};

fn at(secs: i64) -> Timestamp {
    Timestamp::new(secs, 0).unwrap()
}

#[test]
fn winter_time_reads_in_est() {
    // 2024-01-15 17:30:45 UTC
    let t = at(1705339845);
    assert_eq!(t.to_local("%H:%M"), "12:30");
    assert_eq!(t.to_local("%H:%M %Z"), "12:30 EST");
    assert_eq!(t.to_local("%H:%M:%S %Z"), "12:30:45 EST");
    assert_eq!(t.to_local("%Y-%m-%d"), "2024-01-15");
    assert_eq!(t.to_local("%Y-%m-%d %H:%M %Z"), "2024-01-15 12:30 EST");
}

#[test]
fn summer_time_reads_in_edt() {
    // 2024-07-15 16:05:09 UTC
    let t = at(1721059509);
    assert_eq!(t.to_local("%H:%M:%S %Z"), "12:05:09 EDT");
    assert_eq!(t.to_local("%Y-%m-%d %H:%M %Z"), "2024-07-15 12:05 EDT");
}

#[test]
fn clocks_change_in_march_and_november() {
    assert_eq!(at(1710053999).to_local("%H:%M:%S %Z"), "01:59:59 EST");
    assert_eq!(at(1710054000).to_local("%H:%M:%S %Z"), "03:00:00 EDT");
    assert_eq!(at(1730613599).to_local("%H:%M:%S %Z"), "01:59:59 EDT");
    assert_eq!(at(1730613600).to_local("%H:%M:%S %Z"), "01:00:00 EST");
}

#[test]
fn spans_are_rounded_toward_zero() {
    let a = Timestamp::new(1705339845, 900_000_000).unwrap();
    let b = Timestamp::new(1705339847, 100_000_000).unwrap();
    assert_eq!(b.seconds_since(a), 1);
    assert_eq!(a.seconds_since(b), -1);
    assert_eq!(b.millis_since(a), 1200);
    assert_eq!(a.millis_since(b), -1200);
    let c = Timestamp::new(1705339845, 900_999_999).unwrap();
    assert_eq!(c.millis_since(a), 0);
    assert_eq!(a.millis_since(c), 0);
}

#[test]
fn spans_reach_over_the_whole_calendar() {
    let first = Timestamp::new(MIN_SECS, 0).unwrap();
    let last = Timestamp::new(MAX_SECS, 999_999_999).unwrap();
    assert_eq!(last.seconds_since(first), MAX_SECS - MIN_SECS);
    assert_eq!(last.millis_since(first), (MAX_SECS - MIN_SECS) * 1000 + 999);
    assert_eq!(first.millis_since(last), -((MAX_SECS - MIN_SECS) * 1000 + 999));
    for t in [first, last] {
        assert_eq!(t.to_local("%H:%M").len(), 5);
        assert!(!t.to_local("%H:%M %Z").is_empty());
        assert!(!t.to_local("%H:%M:%S %Z").is_empty());
        assert!(!t.to_local("%Y-%m-%d").is_empty());
        assert!(!t.to_local("%Y-%m-%d %H:%M %Z").is_empty());
    }
}

#[test]
fn instants_outside_the_calendar_are_refused() {
    assert!(Timestamp::new(MIN_SECS - 1, 0).is_none());
    assert!(Timestamp::new(MAX_SECS + 1, 0).is_none());
    assert!(Timestamp::new(0, 1_000_000_000).is_none());
    assert!(Timestamp::new(0, 999_999_999).is_some());
}

#[test]
fn calendar_limits_are_those_of_chrono() {
    assert_eq!(chrono::DateTime::<chrono::Utc>::MIN_UTC.timestamp(), MIN_SECS);
    assert_eq!(chrono::DateTime::<chrono::Utc>::MAX_UTC.timestamp(), MAX_SECS);
}

#[test]
fn the_clock_is_read() {
    let before = chrono::Utc::now().timestamp();
    let now = Timestamp::now();
    let after = chrono::Utc::now().timestamp();
    let since = now.seconds_since(at(0));
    assert!(before <= since && since <= after);
}
