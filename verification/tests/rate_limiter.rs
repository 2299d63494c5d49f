use httpd_core::rate_limiter::{ClientAddr, RateLimiter, NANOS_PER_SECOND};

fn seconds(t: u128) -> u128 {
    t * NANOS_PER_SECOND
}

const X: ClientAddr = ClientAddr::V4(0xC0A8_0001);
const Y: ClientAddr = ClientAddr::V4(0xC0A8_0002);

#[test]
fn window_of_sixty_seconds_and_two_requests() {
    let mut limiter = RateLimiter::new_with_limits(60, 2);
    assert!(!limiter.is_rate_limited_at(X, seconds(0)));
    assert!(!limiter.is_rate_limited_at(X, seconds(10)));
    assert!(limiter.is_rate_limited_at(X, seconds(20)));
    assert!(!limiter.is_rate_limited_at(X, seconds(61)));
}

#[test]
fn call_after_the_limit_is_turned_away_within_the_window() {
    for max in 1..6usize {
        let mut limiter = RateLimiter::new_with_limits(10, max);
        for i in 0..max {
            assert!(!limiter.is_rate_limited_at(X, seconds(i as u128)));
        }
        assert!(limiter.is_rate_limited_at(X, seconds(max as u128)));
        assert!(limiter.is_rate_limited_at(X, seconds(10) - 1));
        // The oldest call, at 0, still counts when it is exactly 10 seconds
        // old, and no longer one nanosecond later.
        assert!(limiter.is_rate_limited_at(X, seconds(10)));
        assert!(!limiter.is_rate_limited_at(X, seconds(10) + 1));
        assert!(limiter.is_rate_limited_at(X, seconds(10) + 1));
    }
}

#[test]
fn window_ends_exactly_after_its_length() {
    let mut limiter = RateLimiter::new_with_limits(1, 1);
    assert!(!limiter.is_rate_limited_at(X, 5));
    assert!(limiter.is_rate_limited_at(X, 5));
    assert!(limiter.is_rate_limited_at(X, NANOS_PER_SECOND + 4));
    assert!(limiter.is_rate_limited_at(X, NANOS_PER_SECOND + 5));
    assert!(!limiter.is_rate_limited_at(X, NANOS_PER_SECOND + 6));
}

#[test]
fn call_as_old_as_the_window_still_counts() {
    let mut limiter = RateLimiter::new_with_limits(60, 2);
    assert!(!limiter.is_rate_limited_at(X, seconds(0)));
    assert!(!limiter.is_rate_limited_at(X, seconds(10)));
    assert!(limiter.is_rate_limited_at(X, seconds(60)));
    // At 60 s and 1 ns the call at 0 is older than the window.
    assert!(!limiter.is_rate_limited_at(X, seconds(60) + 1));
    assert!(limiter.is_rate_limited_at(X, seconds(70)));
    assert!(!limiter.is_rate_limited_at(X, seconds(70) + 1));
}

#[test]
fn rejected_calls_do_not_count() {
    let max = 3usize;
    let mut limiter = RateLimiter::new_with_limits(5, max);
    for _ in 0..max {
        assert!(!limiter.is_rate_limited_at(X, seconds(1)));
    }
    for i in 0..20u128 {
        assert!(limiter.is_rate_limited_at(X, seconds(1) + i));
    }
    assert!(limiter.is_rate_limited_at(X, seconds(6)));
    let later = seconds(6) + 1;
    for _ in 0..max {
        assert!(!limiter.is_rate_limited_at(X, later));
    }
    assert!(limiter.is_rate_limited_at(X, later));
}

#[test]
fn rejected_call_leaves_later_verdicts_as_they_were() {
    let times = [0u128, 1, 2, 3, 9, 10, 11, 12, 20, 21];
    let mut plain = RateLimiter::new_with_limits(10, 2);
    let mut probed = RateLimiter::new_with_limits(10, 2);
    for t in times {
        let verdict = plain.is_rate_limited_at(X, seconds(t));
        assert_eq!(probed.is_rate_limited_at(X, seconds(t)), verdict);
        if verdict {
            // One more call that is turned away changes nothing later.
            assert!(probed.is_rate_limited_at(X, seconds(t)));
        }
    }
}

#[test]
fn clients_are_judged_apart() {
    let mut limiter = RateLimiter::new_with_limits(60, 1);
    assert!(!limiter.is_rate_limited_at(X, seconds(0)));
    assert!(limiter.is_rate_limited_at(X, seconds(1)));
    assert!(!limiter.is_rate_limited_at(Y, seconds(1)));
    assert!(limiter.is_rate_limited_at(Y, seconds(2)));
    // An IPv6 address with the same bits is another client.
    assert!(!limiter.is_rate_limited_at(ClientAddr::V6(0xC0A8_0001), seconds(2)));
    assert!(limiter.is_rate_limited_at(ClientAddr::V6(0xC0A8_0001), seconds(3)));
    assert!(!limiter.is_rate_limited_at(ClientAddr::V6(u128::MAX), seconds(3)));
    assert!(limiter.is_rate_limited_at(X, seconds(59)));
    assert!(limiter.is_rate_limited_at(X, seconds(60)));
    assert!(!limiter.is_rate_limited_at(X, seconds(60) + 1));
}

#[test]
fn no_request_is_admitted_with_a_limit_of_zero() {
    let mut limiter = RateLimiter::new_with_limits(60, 0);
    assert!(limiter.is_rate_limited_at(X, 0));
    assert!(limiter.is_rate_limited_at(X, seconds(1000)));
}

#[test]
fn only_calls_of_the_same_instant_count_with_a_window_of_zero() {
    let mut limiter = RateLimiter::new_with_limits(0, 1);
    for t in 0..5u128 {
        assert!(!limiter.is_rate_limited_at(X, t));
        assert!(limiter.is_rate_limited_at(X, t));
    }
    let mut pair = RateLimiter::new_with_limits(0, 2);
    assert!(!pair.is_rate_limited_at(X, 7));
    assert!(!pair.is_rate_limited_at(X, 7));
    assert!(pair.is_rate_limited_at(X, 7));
    assert!(!pair.is_rate_limited_at(X, 8));
}

#[test]
fn call_on_record_from_a_later_time_still_counts() {
    let mut limiter = RateLimiter::new_with_limits(10, 1);
    assert!(!limiter.is_rate_limited_at(X, seconds(100)));
    assert!(limiter.is_rate_limited_at(X, seconds(50)));
}

#[test]
fn longest_window_does_not_overflow() {
    let mut limiter = RateLimiter::new_with_limits(u64::MAX, 1);
    assert!(!limiter.is_rate_limited_at(X, 0));
    assert!(limiter.is_rate_limited_at(X, u128::from(u64::MAX) * NANOS_PER_SECOND));
    assert!(!limiter.is_rate_limited_at(X, u128::from(u64::MAX) * NANOS_PER_SECOND + 1));
}

#[test]
fn clock_is_read_for_calls_made_now() {
    let mut limiter = RateLimiter::new_with_limits(3600, 2);
    assert!(!limiter.is_rate_limited(X));
    assert!(!limiter.is_rate_limited(X));
    assert!(limiter.is_rate_limited(X));
    assert!(!limiter.is_rate_limited(Y));
    let mut closed = RateLimiter::new_with_limits(3600, 0);
    assert!(closed.is_rate_limited(X));
}
