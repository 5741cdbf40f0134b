use pricewatch::rate_limit::{PacingDecision, RateLimit};

#[test]
fn permits_bounded_by_capacity() {
    // Two permits: a third concurrent acquisition must wait until a release.
    let mut limiter = RateLimit::new(2, 100);
    assert_eq!(limiter.max_sync_usages(), 2);
    assert!(limiter.try_acquire());
    assert!(limiter.try_acquire());
    assert!(!limiter.try_acquire());
    limiter.release();
    assert!(limiter.try_acquire());
    assert!(!limiter.try_acquire());
}

#[test]
fn pacing_enforces_cooldown() {
    // Starts are admitted only a full cooldown after the previous start.
    let mut limiter = RateLimit::new(1, 100);
    assert_eq!(limiter.pacing_step(100), PacingDecision::Start);
    assert_eq!(limiter.pacing_step(150), PacingDecision::Wait(50));
    assert_eq!(limiter.pacing_step(199), PacingDecision::Wait(1));
    assert_eq!(limiter.pacing_step(200), PacingDecision::Start);
    assert_eq!(limiter.pacing_step(500), PacingDecision::Start);
}

#[test]
fn pacing_first_start_after_epoch_cooldown() {
    let mut limiter = RateLimit::new(1, 100);
    assert_eq!(limiter.pacing_step(50), PacingDecision::Wait(50));
    assert_eq!(limiter.pacing_step(100), PacingDecision::Start);
}
