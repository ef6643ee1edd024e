use radarpro::net::{
    classify_request_failure, classify_status, AttemptResult, BackoffPolicy, Classification, FetchDecision,
};

#[test]
fn classify_status_marks_5xx_and_429_as_retryable() {
    assert!(matches!(classify_status(500), Classification::Retry));
    assert!(matches!(classify_status(503), Classification::Retry));
    assert!(matches!(classify_status(429), Classification::Retry));
}

#[test]
fn classify_status_marks_404_and_other_4xx_as_permanent() {
    assert!(matches!(classify_status(404), Classification::Permanent));
    assert!(matches!(classify_status(403), Classification::Permanent));
    assert!(matches!(classify_status(400), Classification::Permanent));
    assert!(matches!(classify_status(600), Classification::Permanent));
    assert!(matches!(classify_status(599), Classification::Retry));
}

#[test]
fn backoff_delays_double_up_to_the_cap() {
    let policy = BackoffPolicy::default();
    assert_eq!(policy.delay_before_attempt(1), 0);
    assert_eq!(policy.delay_before_attempt(2), 500);
    assert_eq!(policy.delay_before_attempt(3), 1000);
    assert_eq!(policy.delay_before_attempt(4), 2000);
    assert_eq!(policy.delay_before_attempt(5), 4000);
    // A hypothetical 6th attempt would compute to 8 s and stay at the cap.
    assert_eq!(policy.delay_before_attempt(6), 8000);
    assert_eq!(policy.delay_before_attempt(40), 8000);
}

#[test]
fn total_worst_case_backoff_is_well_under_a_minute() {
    let policy = BackoffPolicy::default();
    let total: u64 = (1..=policy.max_attempts).map(|a| policy.delay_before_attempt(a)).sum();
    assert!(total < 60_000, "total backoff {total} ms should stay well under a minute");
    assert_eq!(total, 7_500);
}

#[test]
fn request_failures_are_transient_only_for_timeouts_connects_and_bodies() {
    assert_eq!(classify_request_failure(true, false, false), Classification::Retry);
    assert_eq!(classify_request_failure(false, true, false), Classification::Retry);
    assert_eq!(classify_request_failure(false, false, true), Classification::Retry);
    assert_eq!(classify_request_failure(false, false, false), Classification::Permanent);
}

#[test]
fn decisions_retry_transient_failures_until_the_last_attempt() {
    let policy = BackoffPolicy::default();
    assert_eq!(policy.decide_after_attempt(1, AttemptResult::Succeeded), FetchDecision::Done);
    assert_eq!(
        policy.decide_after_attempt(1, AttemptResult::Failed { retryable: true }),
        FetchDecision::RetryAfter { attempt: 2, delay_ms: 500 }
    );
    assert_eq!(
        policy.decide_after_attempt(4, AttemptResult::Failed { retryable: true }),
        FetchDecision::RetryAfter { attempt: 5, delay_ms: 4000 }
    );
    assert_eq!(policy.decide_after_attempt(5, AttemptResult::Failed { retryable: true }), FetchDecision::GiveUp);
    assert_eq!(policy.decide_after_attempt(1, AttemptResult::Failed { retryable: false }), FetchDecision::GiveUp);
}

#[test]
fn a_zero_multiplier_and_a_low_cap_are_honoured() {
    let p = BackoffPolicy { base_delay_ms: 700, multiplier: 0, max_delay_ms: 10_000, max_attempts: 9 };
    assert_eq!(p.delay_before_attempt(2), 700);
    assert_eq!(p.delay_before_attempt(3), 0);
    let q = BackoffPolicy { base_delay_ms: 700, multiplier: 3, max_delay_ms: 500, max_attempts: 9 };
    assert_eq!(q.delay_before_attempt(2), 500);
    assert_eq!(q.delay_before_attempt(9), 500);
}
