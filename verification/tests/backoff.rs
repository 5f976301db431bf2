use tracing_loki::backoff::Backoff;
use tracing_loki::backoff::Retry;
use tracing_loki::backoff::DEFAULT_BASE_DELAY_MS;
use tracing_loki::backoff::LONG_OUTAGE_MS;
use tracing_loki::backoff::MAX_DELAY_MS;

#[test]
fn no_failure_no_delay() {
    let backoff = Backoff::new(DEFAULT_BASE_DELAY_MS);
    assert_eq!(backoff.failure_count(), 0);
    assert_eq!(backoff.base_delay_ms(), 500);
    assert_eq!(backoff.backoff_time(), (false, 0));
}

#[test]
fn first_failure_waits_the_base_delay() {
    let mut backoff = Backoff::new(500);
    assert_eq!(
        backoff.record_failure(),
        Retry {
            attempt: 1,
            delay_ms: 500,
            drop_outstanding: false,
        }
    );
    assert_eq!(backoff.failure_count(), 1);
}

#[test]
fn delays_never_decrease_and_stop_at_the_ceiling() {
    let mut backoff = Backoff::new(500);
    let mut last = 0;
    let mut seen = Vec::new();
    for _ in 0..100 {
        let retry = backoff.record_failure();
        assert!(retry.delay_ms >= last);
        assert!(retry.delay_ms <= MAX_DELAY_MS);
        last = retry.delay_ms;
        seen.push(retry.delay_ms);
    }
    assert_eq!(
        &seen[..12],
        &[500, 1000, 2000, 4000, 8000, 16000, 32000, 64000, 128000, 256000, 512000, 600000]
    );
    assert_eq!(last, 600_000);
}

#[test]
fn outage_is_long_once_the_delay_passes_the_threshold() {
    let mut backoff = Backoff::new(500);
    for _ in 0..6 {
        assert!(!backoff.record_failure().drop_outstanding);
    }
    for _ in 0..70 {
        assert!(backoff.record_failure().drop_outstanding);
    }
}

#[test]
fn delay_at_the_threshold_is_not_yet_a_long_outage() {
    let mut backoff = Backoff::new(LONG_OUTAGE_MS);
    assert_eq!(
        backoff.record_failure(),
        Retry {
            attempt: 1,
            delay_ms: 30_000,
            drop_outstanding: false,
        }
    );
    assert_eq!(
        backoff.record_failure(),
        Retry {
            attempt: 2,
            delay_ms: 60_000,
            drop_outstanding: true,
        }
    );
}

#[test]
fn success_starts_over() {
    let mut backoff = Backoff::new(100);
    backoff.record_failure();
    backoff.record_failure();
    assert_eq!(backoff.backoff_time(), (false, 200));
    backoff.record_success();
    assert_eq!(backoff.failure_count(), 0);
    assert_eq!(backoff.record_failure().delay_ms, 100);
}

#[test]
fn zero_base_never_waits() {
    let mut backoff = Backoff::new(0);
    for _ in 0..80 {
        let retry = backoff.record_failure();
        assert_eq!(retry.delay_ms, 0);
        assert!(!retry.drop_outstanding);
    }
}

#[test]
fn huge_base_is_capped() {
    let mut backoff = Backoff::new(u64::MAX);
    let retry = backoff.record_failure();
    assert_eq!(retry.delay_ms, MAX_DELAY_MS);
    assert!(retry.drop_outstanding);
    let retry = backoff.record_failure();
    assert_eq!(retry.delay_ms, MAX_DELAY_MS);
    assert_eq!(retry.attempt, 2);
}
