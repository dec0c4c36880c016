use tetron_messageboard::ratelimit::{spend, Bucket, RateLimiter, Source, CAPACITY, TOKEN};

const SECOND: u128 = 1_000_000_000;

#[test]
fn a_burst_of_fifteen_is_allowed() {
    let mut l = RateLimiter::default();
    for _ in 0..15 {
        assert!(l.check_at(Source::V4(1), 0));
    }
    assert!(!l.check_at(Source::V4(1), 0));
}

#[test]
fn one_action_every_two_seconds_after_the_burst() {
    let mut l = RateLimiter::default();
    for _ in 0..15 {
        assert!(l.check_at(Source::V4(1), 0));
    }
    assert!(!l.check_at(Source::V4(1), 2 * SECOND - 1));
    assert!(l.check_at(Source::V4(1), 2 * SECOND));
    assert!(!l.check_at(Source::V4(1), 3 * SECOND));
    assert!(l.check_at(Source::V4(1), 4 * SECOND));
}

#[test]
fn a_refused_action_costs_nothing() {
    let (b, ok) = spend(Bucket { units: TOKEN - 5, last: 10 }, 14);
    assert!(!ok);
    assert_eq!((b.units, b.last), (TOKEN - 1, 14));
    let (b, ok) = spend(b, 15);
    assert!(ok);
    assert_eq!((b.units, b.last), (0, 15));
}

#[test]
fn a_bucket_never_overflows() {
    let (b, ok) = spend(Bucket { units: CAPACITY, last: 0 }, u128::MAX);
    assert!(ok);
    assert_eq!(b.units, CAPACITY - TOKEN);
    let (b, _) = spend(Bucket { units: CAPACITY, last: 100 }, 50);
    assert_eq!(b.units, CAPACITY - TOKEN);
}

#[test]
fn sources_do_not_share_a_bucket() {
    let mut l = RateLimiter::default();
    for _ in 0..15 {
        assert!(l.check_at(Source::V4(1), 0));
    }
    assert!(!l.check_at(Source::V4(1), 0));
    assert!(l.check_at(Source::V4(2), 0));
    assert!(l.check_at(Source::V6(1), 0));
    assert!(l.check_at(Source::V6(2), 0));
}

#[test]
fn the_real_clock_lets_a_burst_through_and_no_more() {
    let mut l = RateLimiter::default();
    let mut allowed = 0;
    for _ in 0..16 {
        if l.check(Source::V6(7)) {
            allowed += 1;
        }
    }
    assert_eq!(allowed, 15);
}
