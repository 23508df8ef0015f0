//! Retry policy: exponential backoff with jitter and the per-request
//! retry state machine.

use vstd::prelude::*;

verus! {

/// Mathematical 2^n.
pub open spec fn pow2(n: nat) -> nat
    decreases n,
{
    if n == 0 {
        1
    } else {
        2 * pow2((n - 1) as nat)
    }
}

/// The base component of the backoff for a given attempt number, in seconds:
/// `min(2^(attempt - 1), 30)`.
pub open spec fn spec_backoff_base(attempt: u32) -> u64
    recommends
        attempt >= 1,
{
    if pow2((attempt - 1) as nat) <= 30 {
        pow2((attempt - 1) as nat) as u64
    } else {
        30
    }
}

proof fn lemma_pow2_at_least_32(n: nat)
    requires
        n >= 5,
    ensures
        pow2(n) >= 32,
    decreases n,
{
    if n > 5 {
        lemma_pow2_at_least_32((n - 1) as nat);
    } else {
        reveal_with_fuel(pow2, 6);
    }
}

/// Exponential backoff base in seconds: doubles with each attempt, capped at
/// 30 seconds. Attempts are counted from 1.
pub fn backoff_base_secs(attempt: u32) -> (base: u64)
    requires
        attempt >= 1,
    ensures
        base == spec_backoff_base(attempt),
        base <= 30,
{
    proof {
        reveal_with_fuel(pow2, 6);
        if attempt >= 6 {
            lemma_pow2_at_least_32((attempt - 1) as nat);
        }
    }
    if attempt == 1 {
        1
    } else if attempt == 2 {
        2
    } else if attempt == 3 {
        4
    } else if attempt == 4 {
        8
    } else if attempt == 5 {
        16
    } else {
        30
    }
}

/// Relies on rand::random_range: a uniform draw from the inclusive range,
/// which always lies within that range.
#[verifier::external_body]
fn random_up_to(bound: u64) -> (r: u64)
    ensures
        r <= bound,
{
    rand::random_range(0..=bound)
}

/// Calculate the backoff before the next attempt, in milliseconds:
/// the exponential base plus a uniform jitter of up to a quarter of it,
/// so concurrent callers do not retry in lockstep.
pub fn calculate_backoff(attempt: u32) -> (ms: u64)
    requires
        attempt >= 1,
    ensures
        1000 * spec_backoff_base(attempt) <= ms <= 1250 * spec_backoff_base(attempt),
{
    let base = backoff_base_secs(attempt);
    let jitter = random_up_to(base * 250);
    base * 1000 + jitter
}

/// What one attempt of a logical request produced.
#[derive(Debug, Clone, Copy, PartialEq, Eq)]
pub enum AttemptOutcome {
    /// The transport timed out.
    TimedOut,
    /// The transport failed some other way (connection reset, DNS, ...).
    TransportFailed,
    /// A response arrived with this status and, if it carried one, the
    /// value of its `Retry-After` header in seconds.
    Responded {
        /// The HTTP status code.
        status: u16,
        /// The `Retry-After` header, parsed as whole seconds.
        retry_after: Option<u64>,
    },
}

/// What the policy says to do after an attempt.
#[derive(Debug, Clone, Copy, PartialEq, Eq)]
pub enum RetryStep {
    /// Stop at once with the timeout error: timeouts are never retried.
    GiveUpTimeout,
    /// Stop: retries are exhausted; surface the last transport error.
    GiveUpTransport,
    /// Wait this long, then run the next attempt.
    Retry {
        /// How long to wait before the next attempt, in milliseconds.
        wait_ms: u64,
        /// The attempt number to run after the wait.
        next_attempt: u32,
    },
    /// Stop and hand the response to status translation: it is either a
    /// success or an error that is not retried (or not retried any more).
    Deliver,
}

/// Seconds as milliseconds, clamped to the largest representable wait.
pub open spec fn spec_secs_to_ms(s: u64) -> u64 {
    if 1000 * s <= u64::MAX {
        (1000 * s) as u64
    } else {
        u64::MAX
    }
}

/// The wait a 429 response demands: the server-provided `Retry-After`,
/// but at least one second.
pub open spec fn spec_rate_limit_wait_secs(retry_after: Option<u64>) -> u64 {
    match retry_after {
        Some(s) => if s >= 1 {
            s
        } else {
            1
        },
        None => 1,
    }
}

/// The retry policy: the transition of the per-request state machine
/// after one attempt, with the rules evaluated in order. A timeout is
/// terminal at once; another transport failure is retried with backoff
/// while attempts remain; a 429 is retried after the server-demanded
/// wait while attempts remain; a 5xx is retried with backoff while
/// attempts remain; everything else - and any response once attempts
/// are exhausted - is delivered for status translation.
pub open spec fn spec_retry_decision(
    attempt: u32,
    max_retries: u32,
    outcome: AttemptOutcome,
    backoff_wait_ms: u64,
) -> RetryStep
    recommends
        1 <= attempt < u32::MAX,
{
    match outcome {
        AttemptOutcome::TimedOut => RetryStep::GiveUpTimeout,
        AttemptOutcome::TransportFailed => {
            if attempt <= max_retries {
                RetryStep::Retry { wait_ms: backoff_wait_ms, next_attempt: (attempt + 1) as u32 }
            } else {
                RetryStep::GiveUpTransport
            }
        },
        AttemptOutcome::Responded { status, retry_after } => {
            if status == 429 && attempt <= max_retries {
                RetryStep::Retry {
                    wait_ms: spec_secs_to_ms(spec_rate_limit_wait_secs(retry_after)),
                    next_attempt: (attempt + 1) as u32,
                }
            } else if 500 <= status <= 599 && attempt <= max_retries {
                RetryStep::Retry { wait_ms: backoff_wait_ms, next_attempt: (attempt + 1) as u32 }
            } else {
                RetryStep::Deliver
            }
        },
    }
}

/// Decide what to do after one attempt.
///
/// `backoff_wait_ms` is the jittered backoff to use if the outcome calls
/// for one; `calculate_backoff(attempt)` provides it. The decision is
/// exactly `spec_retry_decision`.
pub fn retry_decision(
    attempt: u32,
    max_retries: u32,
    outcome: &AttemptOutcome,
    backoff_wait_ms: u64,
) -> (step: RetryStep)
    requires
        1 <= attempt < u32::MAX,
    ensures
        step == spec_retry_decision(attempt, max_retries, *outcome, backoff_wait_ms),
{
    match *outcome {
        AttemptOutcome::TimedOut => RetryStep::GiveUpTimeout,
        AttemptOutcome::TransportFailed => {
            if attempt <= max_retries {
                RetryStep::Retry { wait_ms: backoff_wait_ms, next_attempt: attempt + 1 }
            } else {
                RetryStep::GiveUpTransport
            }
        },
        AttemptOutcome::Responded { status, retry_after } => {
            if status == 429 && attempt <= max_retries {
                let secs = match retry_after {
                    Some(s) => if s >= 1 {
                        s
                    } else {
                        1
                    },
                    None => 1,
                };
                let wait_ms = if secs <= u64::MAX / 1000 {
                    secs * 1000
                } else {
                    u64::MAX
                };
                proof {
                    vstd::arithmetic::div_mod::lemma_fundamental_div_mod(u64::MAX as int, 1000);
                    vstd::arithmetic::div_mod::lemma_mod_bound(u64::MAX as int, 1000);
                }
                RetryStep::Retry { wait_ms, next_attempt: attempt + 1 }
            } else if 500 <= status && status <= 599 && attempt <= max_retries {
                RetryStep::Retry { wait_ms: backoff_wait_ms, next_attempt: attempt + 1 }
            } else {
                RetryStep::Deliver
            }
        },
    }
}

/// Rate-limit handling: while attempts remain, a 429 carrying
/// `Retry-After: 2` waits exactly two seconds and moves to the next
/// attempt, so a run of such responses starting at attempt 1 yields
/// exactly `max_retries` waits of at least two seconds before the last
/// response is surfaced; and a success is delivered at once, whatever
/// the attempt number.
pub proof fn lemma_rate_limited_run_then_success(attempt: u32, max_retries: u32, backoff: u64)
    requires
        1 <= attempt < u32::MAX,
    ensures
        attempt <= max_retries ==> spec_retry_decision(
            attempt,
            max_retries,
            (AttemptOutcome::Responded { status: 429, retry_after: Some(2) }),
            backoff,
        ) == (RetryStep::Retry { wait_ms: 2000u64, next_attempt: (attempt + 1) as u32 }),
        attempt > max_retries ==> spec_retry_decision(
            attempt,
            max_retries,
            (AttemptOutcome::Responded { status: 429, retry_after: Some(2) }),
            backoff,
        ) == RetryStep::Deliver,
        spec_retry_decision(
            attempt,
            max_retries,
            (AttemptOutcome::Responded { status: 200, retry_after: None }),
            backoff,
        ) == RetryStep::Deliver,
{
}

} // verus!
