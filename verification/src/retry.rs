//! Shared transient-failure retry policy for bounded HTTP gateways.
//!
//! A call is attempted until it succeeds, fails for good, or the attempts are used up. The
//! attempts themselves (requests, timeouts, sleeping) are the caller's; [`RetryPolicy::step`]
//! decides after each of them.

pub mod laws;

use crate::duration;
use crate::error::Error;
use crate::text;
use std::time::Duration;
use vstd::prelude::*;

verus! {

/// HTTP status and body, for success and error alike, so that a [`RetryPolicy`] can tell
/// transient failures.
#[derive(Debug)]
pub struct HttpResponse {
    /// HTTP status code.
    pub status: u16,
    /// Response body (used verbatim in error messages).
    pub body: String,
}

impl Clone for HttpResponse {
    fn clone(&self) -> (r: HttpResponse)
        ensures
            r == *self,
    {
        HttpResponse { status: self.status, body: self.body.clone() }
    }
}

/// Transient-failure retry policy for a bounded HTTP gateway.
#[derive(Debug, Clone, Copy)]
pub struct RetryPolicy {
    /// Total attempts including the first; `1` disables retries.
    pub max_attempts: usize,
    /// First backoff, doubled per attempt.
    pub base_backoff: Duration,
    /// Cap on backoff.
    pub max_backoff: Duration,
}

impl Default for RetryPolicy {
    fn default() -> (r: RetryPolicy)
        ensures
            r.max_attempts == 3,
            duration::nanos(r.base_backoff) == 250_000_000,
            duration::nanos(r.max_backoff) == 2_000_000_000,
    {
        RetryPolicy {
            max_attempts: 3,
            base_backoff: Duration::from_millis(250),
            max_backoff: Duration::from_secs(2),
        }
    }
}

/// What an attempt came to.
#[derive(Debug)]
pub enum Outcome {
    /// The gateway answered.
    Response(HttpResponse),
    /// The call failed before an answer came.
    Failed(Error),
    /// No answer came in time.
    TimedOut,
}

/// What to do after an attempt.
#[derive(Debug)]
pub enum Step {
    /// The answer to hand to the caller.
    Done(HttpResponse),
    /// The error to hand to the caller.
    Fail(Error),
    /// Sleep this long, and try again.
    Retry(Duration),
}

/// What an [`Outcome`] holds.
pub enum Event {
    Response(u16, Seq<char>),
    Failed(Seq<char>),
    TimedOut,
}

/// What a [`Step`] holds; a retry is told by its backoff in nanoseconds.
pub enum Decision {
    Done(u16, Seq<char>),
    Fail(Seq<char>),
    Retry(nat),
}

impl View for Outcome {
    type V = Event;

    open spec fn view(&self) -> Event {
        match *self {
            Outcome::Response(r) => Event::Response(r.status, r.body@),
            Outcome::Failed(e) => Event::Failed(e@),
            Outcome::TimedOut => Event::TimedOut,
        }
    }
}

impl View for Step {
    type V = Decision;

    open spec fn view(&self) -> Decision {
        match *self {
            Step::Done(r) => Decision::Done(r.status, r.body@),
            Step::Fail(e) => Decision::Fail(e@),
            Step::Retry(d) => Decision::Retry(duration::nanos(d)),
        }
    }
}

/// Whether an HTTP status is a success.
pub open spec fn success(status: u16) -> bool {
    200 <= status < 300
}

/// Whether an HTTP status is transient and worth retrying.
pub open spec fn transient(status: u16) -> bool {
    status == 429 || 500 <= status < 600
}

pub(crate) proof fn lemma_doubled(base: nat, n: nat)
    ensures
        base * vstd::arithmetic::power2::pow2(n + 1) == 2 * (base
            * vstd::arithmetic::power2::pow2(n)),
{
    let p = vstd::arithmetic::power2::pow2(n);
    vstd::arithmetic::power2::lemma_pow2_unfold(n + 1);
    assert(base * (2 * p) == 2 * (base * p)) by (nonlinear_arith);
}

/// More doublings give no less, and something only of something.
pub(crate) proof fn lemma_grown(base: nat, m: nat, n: nat)
    requires
        m <= n,
    ensures
        base * vstd::arithmetic::power2::pow2(m) <= base * vstd::arithmetic::power2::pow2(n),
        base * vstd::arithmetic::power2::pow2(m) == 0 ==> base
            * vstd::arithmetic::power2::pow2(n) == 0,
{
    let p = vstd::arithmetic::power2::pow2(m);
    let q = vstd::arithmetic::power2::pow2(n);
    vstd::arithmetic::power2::lemma_pow2_pos(m);
    if m < n {
        vstd::arithmetic::power2::lemma_pow2_strictly_increases(m, n);
    }
    assert(base * p <= base * q) by (nonlinear_arith)
        requires
            p <= q,
    ;
    assert(base * p == 0 ==> base * q == 0) by (nonlinear_arith)
        requires
            p > 0,
    ;
}

impl RetryPolicy {
    /// Nanoseconds of backoff after the given 1-based attempt: the base, doubled per attempt before
    /// it and capped.
    pub open spec fn delay(self, attempt: nat) -> nat {
        let doublings = if attempt < 1 {
            0
        } else {
            (attempt - 1) as nat
        };
        duration::lesser(
            duration::nanos(self.base_backoff) * vstd::arithmetic::power2::pow2(doublings),
            duration::nanos(self.max_backoff),
        )
    }

    /// Nanoseconds to wait before another attempt, after attempt number `attempt` came to an answer
    /// of the given status, or to none; `None` where there is no other attempt.
    pub open spec fn pause(self, attempt: nat, status: Option<u16>) -> Option<nat> {
        if attempt < self.max_attempts && (status matches Some(status) ==> transient(status)) {
            Some(self.delay(attempt))
        } else {
            None
        }
    }

    /// What to do after attempt number `attempt` of a call named `label` came to `event`.
    pub open spec fn decision(self, label: Seq<char>, attempt: nat, event: Event) -> Decision {
        match event {
            Event::Response(status, body) => if success(status) {
                Decision::Done(status, body)
            } else if !transient(status) {
                Decision::Fail(
                    label + " returned HTTP "@ + text::digits(status as nat) + ": "@ + body,
                )
            } else if attempt >= self.max_attempts {
                Decision::Fail(
                    label + " returned HTTP "@ + text::digits(status as nat) + " after "@
                        + text::digits(attempt) + " attempts: "@ + body,
                )
            } else {
                Decision::Retry(self.delay(attempt))
            },
            Event::Failed(message) => if attempt >= self.max_attempts {
                Decision::Fail(label + " transport failed: "@ + message)
            } else {
                Decision::Retry(self.delay(attempt))
            },
            Event::TimedOut => if attempt >= self.max_attempts {
                Decision::Fail(
                    label + " call timed out after "@ + text::digits(attempt) + " attempts"@,
                )
            } else {
                Decision::Retry(self.delay(attempt))
            },
        }
    }

    /// No retries: a single attempt.
    pub fn none() -> (r: RetryPolicy)
        ensures
            r.max_attempts == 1,
            duration::nanos(r.base_backoff) == 0,
            duration::nanos(r.max_backoff) == 0,
    {
        RetryPolicy {
            max_attempts: 1,
            base_backoff: Duration::from_secs(0),
            max_backoff: Duration::from_secs(0),
        }
    }

    /// Backoff before the given 1-based attempt: `base * 2^(attempt-1)`, capped.
    pub fn backoff(&self, attempt: usize) -> (r: Duration)
        ensures
            duration::nanos(r) == self.delay(attempt as nat),
    {
        let back: usize = attempt.saturating_sub(1);
        let cap: u128 = self.max_backoff.as_nanos();
        let ghost base = duration::nanos(self.base_backoff);
        let mut grown: Duration = self.base_backoff;
        let mut length: u128 = grown.as_nanos();
        let mut done: usize = 0;
        proof {
            vstd::arithmetic::power2::lemma2_to64();
        }
        while done < back && 0 < length && length < cap
            invariant
                done <= back,
                cap <= duration::max_nanos(),
                base == duration::nanos(self.base_backoff),
                length == duration::nanos(grown),
                length == duration::lesser(
                    base * vstd::arithmetic::power2::pow2(done as nat),
                    duration::max_nanos(),
                ),
            decreases back - done,
        {
            proof {
                lemma_doubled(base, done as nat);
            }
            grown = grown.saturating_mul(2);
            length = grown.as_nanos();
            done += 1;
        }
        proof {
            lemma_grown(base, done as nat, back as nat);
        }
        duration::shorter(grown, self.max_backoff)
    }

    /// Whether an HTTP status is transient and worth retrying (429, 5xx).
    pub fn is_transient(status: u16) -> (r: bool)
        ensures
            r == transient(status),
            r <==> status == 429 || 500 <= status <= 599,
    {
        status == 429 || (500 <= status && status < 600)
    }

    /// How long to wait before another attempt, after attempt number `attempt` came to an answer of
    /// the given status, or to none (a timeout or a failed transport). `None` where what came is
    /// final: it is not transient, or the attempts are used up.
    pub fn pause_after(&self, attempt: usize, status: Option<u16>) -> (r: Option<Duration>)
        ensures
            match r {
                Some(d) => self.pause(attempt as nat, status) == Some(duration::nanos(d)),
                None => self.pause(attempt as nat, status) is None,
            },
    {
        let worthwhile = match status {
            Some(status) => RetryPolicy::is_transient(status),
            None => true,
        };
        if attempt < self.max_attempts && worthwhile {
            Some(self.backoff(attempt))
        } else {
            None
        }
    }

    /// Decide after attempt number `attempt` of a call. A 2xx answer is the result; transient
    /// statuses, failures and timeouts are retried with [`Self::backoff`] while attempts are
    /// left; any other status fails at once. `label` prefixes error messages.
    pub fn step(&self, label: &str, attempt: usize, outcome: Outcome) -> (r: Step)
        ensures
            r@ == self.decision(label@, attempt as nat, outcome@),
    {
        let last = attempt >= self.max_attempts;
        match outcome {
            Outcome::Response(response) => {
                let status: u16 = response.status;
                if 200 <= status && status < 300 {
                    Step::Done(response)
                } else if !RetryPolicy::is_transient(status) {
                    Step::Fail(
                        Error::new(
                            label.to_owned().concat(" returned HTTP ").concat(
                                text::decimal(status as u64).as_str(),
                            ).concat(": ").concat(response.body.as_str()),
                        ),
                    )
                } else if last {
                    Step::Fail(
                        Error::new(
                            label.to_owned().concat(" returned HTTP ").concat(
                                text::decimal(status as u64).as_str(),
                            ).concat(" after ").concat(
                                text::decimal(attempt as u64).as_str(),
                            ).concat(" attempts: ").concat(response.body.as_str()),
                        ),
                    )
                } else {
                    Step::Retry(self.backoff(attempt))
                }
            },
            Outcome::Failed(e) => {
                if last {
                    Step::Fail(
                        Error::new(
                            label.to_owned().concat(" transport failed: ").concat(e.message()),
                        ),
                    )
                } else {
                    Step::Retry(self.backoff(attempt))
                }
            },
            Outcome::TimedOut => {
                if last {
                    Step::Fail(
                        Error::new(
                            label.to_owned().concat(" call timed out after ").concat(
                                text::decimal(attempt as u64).as_str(),
                            ).concat(" attempts"),
                        ),
                    )
                } else {
                    Step::Retry(self.backoff(attempt))
                }
            },
        }
    }
}

} // verus!
