//! The retry policy.

use patterns::error::Error;
use patterns::limits::{default_timeout, ConcurrencyLimits};
use patterns::retry::{HttpResponse, Outcome, RetryPolicy, Step};
use std::time::Duration;

fn instant(attempts: usize) -> RetryPolicy {
    RetryPolicy {
        max_attempts: attempts,
        base_backoff: Duration::ZERO,
        max_backoff: Duration::ZERO,
    }
}

fn response(status: u16, body: &str) -> Outcome {
    Outcome::Response(HttpResponse {
        status,
        body: body.to_owned(),
    })
}

/// Drive a call to its end without sleeping; gives the result and the number of attempts.
fn run(
    policy: &RetryPolicy,
    mut call: impl FnMut(usize) -> Outcome,
) -> (Result<HttpResponse, String>, usize) {
    let mut attempt = 0;
    loop {
        attempt += 1;
        match policy.step("test", attempt, call(attempt)) {
            Step::Done(response) => return (Ok(response), attempt),
            Step::Fail(error) => return (Err(error.message().to_owned()), attempt),
            Step::Retry(backoff) => assert_eq!(backoff, policy.backoff(attempt)),
        }
    }
}

#[test]
fn default_is_three_attempts_with_backoff() {
    let policy = RetryPolicy::default();
    assert_eq!(policy.max_attempts, 3);
    assert_eq!(policy.base_backoff, Duration::from_millis(250));
    assert_eq!(policy.max_backoff, Duration::from_secs(2));
}

#[test]
fn none_has_single_attempt() {
    assert_eq!(RetryPolicy::none().max_attempts, 1);
}

#[test]
fn backoff_doubles_and_caps() {
    let policy = RetryPolicy {
        max_attempts: 10,
        base_backoff: Duration::from_millis(100),
        max_backoff: Duration::from_millis(500),
    };
    assert_eq!(policy.backoff(1), Duration::from_millis(100));
    assert_eq!(policy.backoff(2), Duration::from_millis(200));
    assert_eq!(policy.backoff(3), Duration::from_millis(400));
    assert_eq!(policy.backoff(4), Duration::from_millis(500));
    assert_eq!(policy.backoff(100), Duration::from_millis(500));
}

#[test]
fn backoff_doubles_until_its_cap() {
    let policy = RetryPolicy {
        max_attempts: 10,
        base_backoff: Duration::from_nanos(1),
        max_backoff: Duration::MAX,
    };
    assert_eq!(policy.backoff(0), Duration::from_nanos(1));
    assert_eq!(policy.backoff(32), Duration::from_nanos(1 << 31));
    assert_eq!(policy.backoff(33), Duration::from_nanos(1 << 32));
    assert_eq!(policy.backoff(64), Duration::from_nanos(1 << 63));
    assert_eq!(
        policy.backoff(65),
        Duration::new(18_446_744_073, 709_551_616)
    );
    assert_eq!(policy.backoff(usize::MAX), Duration::MAX);

    let long = RetryPolicy {
        base_backoff: Duration::from_secs(u64::MAX / 2),
        ..policy
    };
    assert_eq!(long.backoff(2), Duration::from_secs(u64::MAX - 1));
    assert_eq!(long.backoff(3), Duration::MAX);
}

#[test]
fn backoff_caps_late_attempts() {
    let short = RetryPolicy {
        max_attempts: 100,
        base_backoff: Duration::from_nanos(1),
        max_backoff: Duration::from_secs(10),
    };
    assert_eq!(short.backoff(33), Duration::from_nanos(4_294_967_296));
    assert_eq!(short.backoff(34), Duration::from_nanos(8_589_934_592));
    assert_eq!(short.backoff(35), Duration::from_secs(10));
    assert_eq!(short.backoff(usize::MAX), Duration::from_secs(10));

    let long = RetryPolicy {
        base_backoff: Duration::from_millis(1),
        max_backoff: Duration::from_secs(10_000_000),
        ..short
    };
    assert_eq!(long.backoff(33), Duration::from_millis(1 << 32));
    assert_eq!(long.backoff(35), Duration::from_secs(10_000_000));

    let none = RetryPolicy::none();
    assert_eq!(none.backoff(usize::MAX), Duration::ZERO);
}

#[test]
fn pauses_go_by_attempt_and_status() {
    let policy = RetryPolicy::default();
    let base = Some(Duration::from_millis(250));
    assert_eq!(policy.pause_after(1, Some(429)), base);
    assert_eq!(policy.pause_after(1, Some(503)), base);
    assert_eq!(policy.pause_after(1, None), base);
    assert_eq!(policy.pause_after(2, None), Some(Duration::from_millis(500)));
    assert_eq!(policy.pause_after(3, None), None, "the last attempt");
    assert_eq!(policy.pause_after(1, Some(200)), None);
    assert_eq!(policy.pause_after(1, Some(400)), None);
    for attempt in 1..5 {
        for (status, outcome) in [
            (Some(503), response(503, "busy")),
            (Some(404), response(404, "gone")),
            (Some(204), response(204, "")),
            (None, Outcome::TimedOut),
            (None, Outcome::Failed(Error::new("reset".to_owned()))),
        ] {
            let pause = match policy.step("test", attempt, outcome) {
                Step::Retry(pause) => Some(pause),
                _ => None,
            };
            assert_eq!(policy.pause_after(attempt, status), pause);
        }
    }
}

#[test]
fn classifies_transient_statuses() {
    assert!(RetryPolicy::is_transient(429));
    assert!(RetryPolicy::is_transient(500));
    assert!(RetryPolicy::is_transient(503));
    assert!(!RetryPolicy::is_transient(400));
    assert!(!RetryPolicy::is_transient(404));
}

#[test]
fn transient_statuses_end_at_600() {
    assert!(RetryPolicy::is_transient(599));
    assert!(!RetryPolicy::is_transient(600));
    assert!(!RetryPolicy::is_transient(499));
}

#[test]
fn run_retries_transient_then_succeeds() {
    let (result, calls) = run(&instant(3), |attempt| {
        if attempt == 1 {
            response(503, "busy")
        } else {
            response(200, "ok")
        }
    });
    let result = result.expect("succeeds");
    assert_eq!(result.status, 200);
    assert_eq!(result.body, "ok");
    assert_eq!(calls, 2);
}

#[test]
fn run_fails_fast_on_payload_status() {
    let (result, calls) = run(&instant(3), |_| response(400, "bad"));
    let error = result.expect_err("must fail");
    assert_eq!(calls, 1, "no retry on 4xx");
    assert!(error.contains("400"), "error: {error}");
    assert_eq!(error, "test returned HTTP 400: bad");
}

#[test]
fn run_exhausts_attempts_on_persistent_transient() {
    let (result, calls) = run(&instant(2), |_| response(500, "err"));
    let error = result.expect_err("must fail");
    assert_eq!(calls, 2);
    assert!(error.contains("after 2 attempts"), "error: {error}");
    assert_eq!(error, "test returned HTTP 500 after 2 attempts: err");
}

#[test]
fn run_reports_timeout_separately_from_transport() {
    let (result, _) = run(&instant(1), |_| Outcome::TimedOut);
    let error = result.expect_err("must time out");
    assert!(error.contains("timed out"), "error: {error}");
    assert_eq!(error, "test call timed out after 1 attempts");
}

#[test]
fn run_contextualizes_transport_error() {
    let (result, _) = run(&instant(1), |_| {
        Outcome::Failed(Error::new("connection reset".to_owned()))
    });
    let message = result.expect_err("must fail");
    assert!(
        message.contains("test transport failed"),
        "error: {message}"
    );
    assert!(message.contains("connection reset"), "error: {message}");
}

#[test]
fn failures_and_timeouts_are_retried() {
    let (result, calls) = run(&instant(3), |attempt| match attempt {
        1 => Outcome::TimedOut,
        2 => Outcome::Failed(Error::new("reset".to_owned())),
        _ => response(299, "late"),
    });
    assert_eq!(result.expect("succeeds").body, "late");
    assert_eq!(calls, 3);
}

#[test]
fn redirects_are_not_retried() {
    let (result, calls) = run(&instant(3), |_| response(301, "moved"));
    assert_eq!(
        result.expect_err("must fail"),
        "test returned HTTP 301: moved"
    );
    assert_eq!(calls, 1);
}

#[test]
fn limits_default_to_two_calls_of_thirty_seconds() {
    let limits = ConcurrencyLimits::default();
    assert_eq!(limits.max_concurrent_calls, 2);
    assert_eq!(limits.call_timeout, Duration::from_secs(30));
    assert_eq!(default_timeout(), Duration::from_secs(30));
}
