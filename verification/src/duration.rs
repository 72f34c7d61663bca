//! Lengths of time, by way of [`std::time::Duration`].

use std::time::Duration;
use vstd::prelude::*;

verus! {

/// The nanoseconds in a duration.
pub uninterp spec fn nanos(d: Duration) -> nat;

/// The nanoseconds in the longest duration: the most seconds that a `u64` counts, and all but a
/// second's last nanosecond.
pub open spec fn max_nanos() -> nat {
    (u64::MAX as nat) * 1_000_000_000 + 999_999_999
}

/// The lesser of two numbers of nanoseconds.
pub open spec fn lesser(a: nat, b: nat) -> nat {
    if a <= b {
        a
    } else {
        b
    }
}

/// A thousandth of a second is a million nanoseconds.
pub assume_specification[ Duration::from_millis ](millis: u64) -> (r: Duration)
    ensures
        nanos(r) == millis * 1_000_000,
;

/// A second is a thousand million nanoseconds.
pub assume_specification[ Duration::from_secs ](secs: u64) -> (r: Duration)
    ensures
        nanos(r) == secs * 1_000_000_000,
;

/// The nanoseconds in the duration, of which there are never more than in the longest one.
pub assume_specification[ Duration::as_nanos ](d: &Duration) -> (r: u128)
    ensures
        r == nanos(*d),
        r <= max_nanos(),
;

/// The product, or the longest duration where that is longer.
pub assume_specification[ Duration::saturating_mul ](d: Duration, factor: u32) -> (r: Duration)
    ensures
        nanos(r) == lesser(nanos(d) * (factor as nat), max_nanos()),
;

/// The shorter of two durations.
pub fn shorter(a: Duration, b: Duration) -> (r: Duration)
    ensures
        nanos(r) == lesser(nanos(a), nanos(b)),
        nanos(a) <= max_nanos(),
        nanos(b) <= max_nanos(),
{
    if a.as_nanos() <= b.as_nanos() {
        a
    } else {
        b
    }
}

} // verus!
