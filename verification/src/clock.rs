//! Monotonic time stamps, used for animations and object lifetimes.
use vstd::prelude::*;

verus! {

#[verifier::external_type_specification]
#[verifier::external_body]
pub struct ExInstant(std::time::Instant);

/// `Instant::clone`: `Instant` is `Copy`, so a clone is the same time.
pub assume_specification[ <std::time::Instant as Clone>::clone ](i: &std::time::Instant) -> (r: std::time::Instant)
    ensures
        r == *i,
;

/// `Instant::now`: the current time. Nothing is known of it.
#[verifier::external_body]
pub(crate) fn now() -> (t: std::time::Instant) {
    std::time::Instant::now()
}

/// `Instant::elapsed`: the time passed since `since`; it depends on the
/// clock, so nothing is stated of it.
#[verifier::external_body]
pub(crate) fn elapsed(since: &std::time::Instant) -> (d: std::time::Duration) {
    since.elapsed()
}

/// `Duration::as_millis`: the whole milliseconds of `d`. Every `Duration`
/// is at most `u64::MAX` seconds and 999 999 999 nanoseconds, which
/// bounds the result. A `Duration` is opaque here and not a plain value, so
/// the result is not named beyond that bound.
#[verifier::external_body]
pub(crate) fn as_millis(d: &std::time::Duration) -> (ms: u128)
    ensures
        ms <= 18446744073709551615999u128,
{
    d.as_millis()
}

} // verus!
