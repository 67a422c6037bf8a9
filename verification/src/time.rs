//! Spans of time as the library carries them: values of the standard
//! library, read through their length in nanoseconds.

use std::time::{Duration, Instant};
use vstd::prelude::*;

verus! {

#[verifier::external_type_specification]
#[verifier::external_body]
pub struct ExInstant(std::time::Instant);

/// The length of a span of time in nanoseconds, as `Duration::as_nanos`
/// gives it.
pub uninterp spec fn nanos_of(d: Duration) -> nat;

/// The longest span of time that a `Duration` holds, in nanoseconds.
pub open spec fn longest_nanos() -> nat {
    18_446_744_073_709_551_615 * 1_000_000_000 + 999_999_999
}

/// `Duration::clone`: the copy is the same span.
pub assume_specification[ <std::time::Duration as Clone>::clone ](d: &Duration) -> (r: Duration)
    ensures
        r == *d,
;

/// `Duration::ZERO`: the empty span of time.
#[verifier::external_body]
pub(crate) fn duration_zero() -> (d: Duration)
    ensures
        nanos_of(d) == 0,
{
    Duration::ZERO
}

/// `Duration::saturating_add`: the two spans one after the other, capped at
/// the longest span.
#[verifier::external_body]
pub(crate) fn duration_add(a: Duration, b: Duration) -> (d: Duration)
    ensures
        nanos_of(d) == if nanos_of(a) + nanos_of(b) <= longest_nanos() {
            nanos_of(a) + nanos_of(b)
        } else {
            longest_nanos()
        },
{
    a.saturating_add(b)
}

/// `Duration / u32`: the span divided into `n` equal parts, to the
/// nanosecond; which way the last nanosecond is rounded is left open.
#[verifier::external_body]
pub(crate) fn duration_div(d: Duration, n: u32) -> (r: Duration)
    requires
        n > 0,
    ensures
        nanos_of(r) <= nanos_of(d) / (n as nat),
        nanos_of(r) + 1 >= nanos_of(d) / (n as nat),
{
    d / n
}

/// `Duration::as_secs`: the whole seconds of the span.
#[verifier::external_body]
pub(crate) fn duration_secs(d: &Duration) -> (s: u64)
    ensures
        s == nanos_of(*d) / 1_000_000_000,
{
    d.as_secs()
}

/// `Duration::as_nanos`: the length of the span in nanoseconds, which is
/// its whole seconds, a 64-bit number, and less than a second beyond them.
#[verifier::external_body]
pub(crate) fn duration_nanos(d: &Duration) -> (n: u128)
    ensures
        n == nanos_of(*d),
        n <= longest_nanos(),
{
    d.as_nanos()
}

/// `Duration::from_millis`: the span of so many milliseconds.
#[verifier::external_body]
pub(crate) fn duration_from_millis(millis: u64) -> (d: Duration)
    ensures
        nanos_of(d) == millis * 1_000_000,
{
    Duration::from_millis(millis)
}

/// `Duration::new` on seconds and the nanoseconds of a second beyond them.
#[verifier::external_body]
pub(crate) fn duration_new(secs: u64, nanos: u32) -> (d: Duration)
    requires
        nanos < 1_000_000_000,
    ensures
        nanos_of(d) == secs * 1_000_000_000 + nanos,
{
    Duration::new(secs, nanos)
}

/// `Instant::now`: the current reading of the clock. Nothing is stated of
/// it.
#[verifier::external_body]
pub(crate) fn instant_now() -> (t: Instant) {
    Instant::now()
}

/// `Instant::elapsed`: the time since the reading was taken. Nothing is
/// stated of it.
#[verifier::external_body]
pub(crate) fn instant_elapsed(t: &Instant) -> (d: Duration) {
    t.elapsed()
}

} // verus!
