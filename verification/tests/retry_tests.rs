use refyne::retry::{backoff_base_secs, calculate_backoff, retry_decision, AttemptOutcome, RetryStep};

#[test]
fn test_backoff_base_values() {
    assert_eq!(backoff_base_secs(1), 1);
    assert_eq!(backoff_base_secs(2), 2);
    assert_eq!(backoff_base_secs(3), 4);
    assert_eq!(backoff_base_secs(4), 8);
    assert_eq!(backoff_base_secs(5), 16);
    assert_eq!(backoff_base_secs(6), 30);
    assert_eq!(backoff_base_secs(7), 30);
}

#[test]
fn test_backoff_base_bounded() {
    for n in 1..=10u32 {
        assert!(backoff_base_secs(n) <= 30);
    }
}

#[test]
fn test_backoff_with_jitter_in_range() {
    for n in 1..=10u32 {
        let base = backoff_base_secs(n);
        let ms = calculate_backoff(n);
        assert!(ms >= base * 1000);
        assert!(ms <= base * 1250);
    }
}

#[test]
fn test_timeout_never_retried() {
    let step = retry_decision(1, 5, &AttemptOutcome::TimedOut, 1000);
    assert_eq!(step, RetryStep::GiveUpTimeout);
}

#[test]
fn test_transport_error_retried_until_exhausted() {
    let step = retry_decision(1, 3, &AttemptOutcome::TransportFailed, 1100);
    assert_eq!(step, RetryStep::Retry { wait_ms: 1100, next_attempt: 2 });
    let step = retry_decision(3, 3, &AttemptOutcome::TransportFailed, 4100);
    assert_eq!(step, RetryStep::Retry { wait_ms: 4100, next_attempt: 4 });
    let step = retry_decision(4, 3, &AttemptOutcome::TransportFailed, 8100);
    assert_eq!(step, RetryStep::GiveUpTransport);
}

#[test]
fn test_rate_limited_then_success() {
    let rate_limited = AttemptOutcome::Responded { status: 429, retry_after: Some(2) };
    // attempts 1..=3 each wait the server-demanded two seconds
    for attempt in 1..=3u32 {
        let step = retry_decision(attempt, 3, &rate_limited, 999);
        assert_eq!(step, RetryStep::Retry { wait_ms: 2000, next_attempt: attempt + 1 });
    }
    // retries exhausted: the response is surfaced for translation
    let step = retry_decision(4, 3, &rate_limited, 999);
    assert_eq!(step, RetryStep::Deliver);
    // a success stops the machine at once, whatever the attempt
    let ok = AttemptOutcome::Responded { status: 200, retry_after: None };
    assert_eq!(retry_decision(1, 3, &ok, 999), RetryStep::Deliver);
    assert_eq!(retry_decision(3, 3, &ok, 999), RetryStep::Deliver);
}

#[test]
fn test_rate_limit_wait_has_floor() {
    // no Retry-After header: wait the default second
    let step = retry_decision(1, 3, &AttemptOutcome::Responded { status: 429, retry_after: None }, 0);
    assert_eq!(step, RetryStep::Retry { wait_ms: 1000, next_attempt: 2 });
    // a zero Retry-After is raised to the floor
    let step = retry_decision(
        1,
        3,
        &AttemptOutcome::Responded { status: 429, retry_after: Some(0) },
        0,
    );
    assert_eq!(step, RetryStep::Retry { wait_ms: 1000, next_attempt: 2 });
}

#[test]
fn test_server_errors_retried_client_errors_not() {
    let server_error = AttemptOutcome::Responded { status: 503, retry_after: None };
    assert_eq!(
        retry_decision(1, 3, &server_error, 1200),
        RetryStep::Retry { wait_ms: 1200, next_attempt: 2 }
    );
    assert_eq!(retry_decision(4, 3, &server_error, 1200), RetryStep::Deliver);

    let not_found = AttemptOutcome::Responded { status: 404, retry_after: None };
    assert_eq!(retry_decision(1, 3, &not_found, 1200), RetryStep::Deliver);
    let bad_request = AttemptOutcome::Responded { status: 400, retry_after: None };
    assert_eq!(retry_decision(1, 3, &bad_request, 1200), RetryStep::Deliver);
}
