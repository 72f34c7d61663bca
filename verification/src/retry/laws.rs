//! What holds of a whole run of attempts.

use crate::duration;
use crate::retry::{self, Decision, Event, RetryPolicy};
use crate::text;
use vstd::prelude::*;

verus! {

/// The attempt, counted from zero, after which a run ends whose attempts from `from` on come to
/// `events`; the number of events where none of them ends it.
pub open spec fn ends_at(
    policy: RetryPolicy,
    label: Seq<char>,
    events: Seq<Event>,
    from: int,
) -> int
    decreases events.len() - from,
{
    if 0 <= from < events.len() && policy.decision(
        label,
        (from + 1) as nat,
        events[from],
    ) is Retry {
        ends_at(policy, label, events, from + 1)
    } else {
        from
    }
}

/// A run ends within the attempt budget (one attempt where the budget is zero), whatever the
/// attempts come to.
pub proof fn runs_end_in_time(policy: RetryPolicy, label: Seq<char>, events: Seq<Event>, from: int)
    requires
        0 <= from <= (if policy.max_attempts < 1 {
            0
        } else {
            policy.max_attempts - 1
        }),
    ensures
        ends_at(policy, label, events, from) <= (if policy.max_attempts < 1 {
            0
        } else {
            policy.max_attempts - 1
        }),
    decreases policy.max_attempts - from,
{
    if from < events.len() && policy.decision(label, (from + 1) as nat, events[from]) is Retry {
        runs_end_in_time(policy, label, events, from + 1);
    }
}

/// Whether `event` is worth another attempt.
pub open spec fn retryable(event: Event) -> bool {
    match event {
        Event::Response(status, _) => retry::transient(status),
        _ => true,
    }
}

/// Transient outcomes are retried while attempts are left, and the first other outcome within
/// the budget ends the run.
pub proof fn transient_outcomes_are_retried(
    policy: RetryPolicy,
    label: Seq<char>,
    events: Seq<Event>,
    from: int,
    k: int,
)
    requires
        0 <= from <= k < events.len(),
        k < policy.max_attempts,
        forall|i: int| from <= i < k ==> retryable(#[trigger] events[i]),
        !retryable(events[k]),
    ensures
        ends_at(policy, label, events, from) == k,
        policy.decision(label, (k + 1) as nat, events[k]) == (match events[k] {
            Event::Response(status, body) => if retry::success(status) {
                Decision::Done(status, body)
            } else {
                policy.decision(label, 1, events[k])
            },
            _ => policy.decision(label, 1, events[k]),
        }),
    decreases k - from,
{
    if from < k {
        assert(retryable(events[from]));
        transient_outcomes_are_retried(policy, label, events, from + 1, k);
    }
}

/// The status that an attempt came to, if it came to one.
pub open spec fn status_of(event: Event) -> Option<u16> {
    match event {
        Event::Response(status, _) => Some(status),
        _ => None,
    }
}

/// Whether and when to try again depends on the status alone, and not on what the call is named or
/// what came with it.
pub proof fn pauses_go_by_the_status(
    policy: RetryPolicy,
    label: Seq<char>,
    attempt: nat,
    event: Event,
)
    ensures
        policy.pause(attempt, status_of(event)) == (match policy.decision(label, attempt, event) {
            Decision::Retry(nanos) => Some(nanos),
            _ => None,
        }),
{
}

/// With one attempt, no outcome is retried.
pub proof fn single_attempts_are_final(policy: RetryPolicy, label: Seq<char>, event: Event)
    requires
        policy.max_attempts <= 1,
    ensures
        policy.decision(label, 1, event) !is Retry,
{
}

/// Backoff never exceeds its cap, and never shrinks from one attempt to a later one.
pub proof fn backoff_grows_to_its_cap(policy: RetryPolicy, a: nat, b: nat)
    requires
        a <= b,
    ensures
        policy.delay(a) <= policy.delay(b) <= duration::nanos(policy.max_backoff),
{
    let base = duration::nanos(policy.base_backoff);
    let x = if a < 1 {
        0
    } else {
        (a - 1) as nat
    };
    let y = if b < 1 {
        0
    } else {
        (b - 1) as nat
    };
    retry::lemma_grown(base, x, y);
}

/// The first backoff is the base, and each later one doubles it until the cap.
pub proof fn backoff_doubles(policy: RetryPolicy, attempt: nat)
    requires
        1 <= attempt,
    ensures
        attempt == 1 ==> policy.delay(attempt) == duration::lesser(
            duration::nanos(policy.base_backoff),
            duration::nanos(policy.max_backoff),
        ),
        policy.delay(attempt + 1) == duration::lesser(
            2 * policy.delay(attempt),
            duration::nanos(policy.max_backoff),
        ),
{
    let base = duration::nanos(policy.base_backoff);
    vstd::arithmetic::power2::lemma2_to64();
    retry::lemma_doubled(base, (attempt - 1) as nat);
    assert(base * 1 == base);
}

// ---- by the numbers ------------------------------------------------------------------------

/// Whether `nanos` is how long to wait after attempt number `attempt`: the base backoff, doubled for
/// every attempt before this one, but no longer than the cap.
pub open spec fn backed_off(policy: RetryPolicy, attempt: nat, nanos: nat) -> bool {
    let doubled = duration::nanos(policy.base_backoff) * vstd::arithmetic::power2::pow2(
        if attempt == 0 {
            0
        } else {
            (attempt - 1) as nat
        },
    );
    let cap = duration::nanos(policy.max_backoff);
    &&& nanos <= cap
    &&& nanos <= doubled
    &&& nanos == cap || nanos == doubled
}

/// Whether an HTTP status is worth another attempt: 429, or any of the five hundreds.
pub open spec fn worth_retrying(status: u16) -> bool {
    status == 429 || status / 100 == 5
}

/// What comes of an answer goes by its status. A status of the two hundreds is the result, as it
/// came. 429 and every status of the five hundreds is tried again while attempts are left, after the
/// backoff, and fails once they are used up. Any other status fails at once. An error says the
/// status, what came with it and, once attempts are used up, how many there were.
pub proof fn answers_are_judged_by_their_status(
    policy: RetryPolicy,
    label: Seq<char>,
    attempt: nat,
    status: u16,
    body: Seq<char>,
)
    ensures
        retry::transient(status) <==> worth_retrying(status),
        match policy.decision(label, attempt, Event::Response(status, body)) {
            Decision::Done(code, text) => {
                &&& status / 100 == 2
                &&& code == status
                &&& text == body
            },
            Decision::Retry(nanos) => {
                &&& worth_retrying(status)
                &&& attempt < policy.max_attempts
                &&& backed_off(policy, attempt, nanos)
            },
            Decision::Fail(message) => {
                &&& status / 100 != 2
                &&& worth_retrying(status) ==> attempt >= policy.max_attempts
                &&& message == label + " returned HTTP "@ + text::digits(status as nat) + (
                if worth_retrying(status) {
                    " after "@ + text::digits(attempt) + " attempts"@
                } else {
                    Seq::empty()
                }) + ": "@ + body
            },
        },
{
    reveal_strlit(" attempts: ");
    reveal_strlit(" attempts");
    reveal_strlit(": ");
    assert(" attempts: "@ =~= " attempts"@ + ": "@);
    let head = label + " returned HTTP "@ + text::digits(status as nat);
    assert(head + " after "@ + text::digits(attempt) + " attempts: "@ + body =~= head + (" after "@
        + text::digits(attempt) + " attempts"@) + ": "@ + body);
    assert(head + Seq::<char>::empty() =~= head);
}

/// A call that came to no answer is tried again while attempts are left, after the backoff, and
/// then fails with what went wrong.
pub proof fn silence_is_retried(policy: RetryPolicy, label: Seq<char>, attempt: nat, cause: Seq<char>)
    ensures
        ({
            let failed = policy.decision(label, attempt, Event::Failed(cause));
            let late = policy.decision(label, attempt, Event::TimedOut);
            if attempt < policy.max_attempts {
                &&& failed matches Decision::Retry(nanos) && backed_off(policy, attempt, nanos)
                &&& late == failed
            } else {
                &&& failed == Decision::Fail(label + " transport failed: "@ + cause)
                &&& late == Decision::Fail(
                    label + " call timed out after "@ + text::digits(attempt) + " attempts"@,
                )
            }
        }),
{
}

/// There is a pause before another attempt where attempts are left and what came is no answer, 429
/// or of the five hundreds; nowhere else.
pub proof fn pauses_are_made_for_what_may_pass(
    policy: RetryPolicy,
    attempt: nat,
    status: Option<u16>,
)
    ensures
        match policy.pause(attempt, status) {
            Some(nanos) => {
                &&& attempt < policy.max_attempts
                &&& status is None || worth_retrying(status->0)
                &&& backed_off(policy, attempt, nanos)
            },
            None => {
                ||| attempt >= policy.max_attempts
                ||| status is Some && !worth_retrying(status->0)
            },
        },
        backed_off(policy, attempt, policy.delay(attempt)),
{
}

/// Exactly 429 and the five hundreds are transient.
pub proof fn transient_statuses_are_worth_retrying(status: u16, r: bool)
    requires
        call_ensures(RetryPolicy::is_transient, (status,), r),
    ensures
        r <==> worth_retrying(status),
{
}

/// By default there are three attempts, with a quarter of a second after the first, half a second after
/// the second, and never more than two seconds.
pub proof fn default_pauses(policy: RetryPolicy, attempt: nat)
    requires
        call_ensures(RetryPolicy::default, (), policy),
    ensures
        policy.pause(1, None) == Some(250_000_000nat),
        policy.pause(2, None) == Some(500_000_000nat),
        attempt >= 3 ==> policy.pause(attempt, None) is None,
        policy.delay(attempt) <= 2_000_000_000,
{
    vstd::arithmetic::power2::lemma2_to64();
}

} // verus!
