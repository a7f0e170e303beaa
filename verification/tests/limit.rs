use simple_rate_limit::{RateLimit, RateLimiter};
use std::time::Duration;

#[test]
fn zero_count_is_refused_for_any_period() {
    assert_eq!(None, RateLimit::new(0, Duration::ZERO));
    assert_eq!(None, RateLimit::new(0, Duration::from_nanos(1)));
    assert_eq!(None, RateLimit::new(0, Duration::from_secs(3600)));
    assert_eq!(None, RateLimit::new(0, Duration::MAX));
}

#[test]
fn positive_count_keeps_its_values() {
    let limit = RateLimit::new(5, Duration::from_millis(250)).unwrap();
    assert_eq!(limit.count, 5);
    assert_eq!(limit.period, Duration::from_millis(250));

    let one = RateLimit::new(1, Duration::ZERO).unwrap();
    assert_eq!(one.count, 1);
    assert_eq!(one.period, Duration::ZERO);

    let most = RateLimit::new(usize::MAX, Duration::MAX).unwrap();
    assert_eq!(most.count, usize::MAX);
    assert_eq!(most.period, Duration::MAX);
}

#[test]
fn limits_compare_by_value() {
    let a = RateLimit::new(2, Duration::from_secs(1)).unwrap();
    let b = RateLimit::new(2, Duration::from_millis(1000)).unwrap();
    let c = RateLimit::new(3, Duration::from_secs(1)).unwrap();
    let d = RateLimit::new(2, Duration::from_secs(2)).unwrap();
    assert_eq!(a, b);
    assert_ne!(a, c);
    assert_ne!(a, d);
    let copy = a;
    assert_eq!(copy, a);
    assert_eq!(format!("{:?}", a), format!("{:?}", b));
}

#[test]
fn limiter_reports_its_limit() {
    let limit = RateLimit::new(7, Duration::from_secs(30)).unwrap();
    let lazy = RateLimiter::new(limit);
    let eager = RateLimiter::new_preallocated(limit);
    assert_eq!(lazy.limit(), limit);
    assert_eq!(eager.limit(), limit);
    assert_eq!(lazy.limit, limit);
}
