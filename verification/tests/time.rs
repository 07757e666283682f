use rate_limiter_sdi::time::{
    duration_from_millis, millis_u64, to_low_u64, unix_span, unix_timestamp_millis,
    unix_timestamp_seconds, Clock, Duration,
};
use std::time::{SystemTime, UNIX_EPOCH};

fn std_of(d: Duration) -> std::time::Duration {
    std::time::Duration::new(d.as_secs(), d.subsec_nanos())
}

fn samples() -> Vec<Duration> {
    vec![
        Duration::from_secs(0),
        Duration::new(0, 1),
        Duration::new(0, 999_999),
        Duration::from_millis(1),
        Duration::from_millis(1999),
        Duration::from_secs(60),
        Duration::new(59, 999_999_999),
        Duration::new(u64::MAX, 0),
        Duration::new(u64::MAX, 999_999_999),
    ]
}

#[test]
fn spans_agree_with_the_standard_library() {
    for a in samples() {
        let std_a = std_of(a);
        assert_eq!(a.as_millis(), std_a.as_millis());
        assert_eq!(a.as_nanos(), std_a.as_nanos());
        assert_eq!(a.is_zero(), std_a.is_zero());
        assert_eq!(Duration::from_nanos(a.as_nanos()), Some(a));
        for b in samples() {
            let std_b = std_of(b);
            assert_eq!(a.exceeds(&b), std_a > std_b);
            assert_eq!(a < b, std_a < std_b);
            assert_eq!(std_of(a.saturating_sub(b)), std_a.saturating_sub(std_b));
            assert_eq!(a.checked_add(b).map(std_of), std_a.checked_add(std_b));
        }
        for n in [0, 1, 3, 1000] {
            assert_eq!(a.checked_mul(n as u128).map(std_of), std_a.checked_mul(n));
        }
    }
    assert_eq!(Duration::from_nanos(u128::MAX), None);
    assert_eq!(Duration::from_secs(1).checked_mul(u128::MAX), None);
}

#[test]
fn millis_are_cut_to_64_bits() {
    assert_eq!(millis_u64(&Duration::new(1, 999_999_999)), 1999);
    let long = Duration::from_secs(u64::MAX);
    assert_eq!(millis_u64(&long), std_of(long).as_millis() as u64);
    assert_eq!(to_low_u64(u128::MAX), u64::MAX);
    assert_eq!(to_low_u64(1 << 64), 0);
}

#[test]
fn negative_millis_are_none() {
    assert!(duration_from_millis(-2).is_zero());
    assert!(duration_from_millis(i64::MIN).is_zero());
    assert!(duration_from_millis(0).is_zero());
    assert_eq!(duration_from_millis(1500), Duration::new(1, 500_000_000));
    assert_eq!(duration_from_millis(i64::MAX).as_millis(), i64::MAX as u128);
}

#[test]
fn clocks_before_the_epoch_stand_at_it() {
    assert!(unix_span(None).is_zero());
    assert_eq!(unix_span(Some((5, 7))), Duration::new(5, 7));
}

#[test]
fn unix_time_is_that_of_the_system_clock() {
    let before = SystemTime::now().duration_since(UNIX_EPOCH).unwrap();
    let seconds = unix_timestamp_seconds();
    let millis = unix_timestamp_millis();
    let after = SystemTime::now().duration_since(UNIX_EPOCH).unwrap();
    assert!(before.as_secs() <= seconds && seconds <= after.as_secs());
    assert!(before.as_millis() as u64 <= millis && millis <= after.as_millis() as u64);
}

#[test]
fn clocks_run() {
    let clock = Clock::start();
    let first = clock.now();
    let mut later = clock.now();
    while !later.exceeds(&first) {
        later = clock.now();
    }
    assert!(Duration::from_secs(15).exceeds(&later));
}
