//! `core::time::Duration` as the library sees it: a number of nanoseconds,
//! named by `duration_as_nanos`.

use core::time::Duration;
use vstd::prelude::*;

verus! {

/// The largest number of nanoseconds a `Duration` can hold.
pub open spec fn max_duration_nanos() -> int {
    (u64::MAX as int) * 1_000_000_000 + 999_999_999
}

/// What `Duration::as_nanos` returns: the whole span in nanoseconds.
pub uninterp spec fn duration_as_nanos(d: Duration) -> u128;

/// `Duration::from_millis`: a span of `ms` milliseconds.
#[verifier::external_body]
pub(crate) fn duration_from_millis(ms: u64) -> (d: Duration)
    ensures
        duration_as_nanos(d) == ms as int * 1_000_000,
{
    Duration::from_millis(ms)
}

/// `Duration::new`: `secs` seconds and `nanos` nanoseconds, the excess
/// nanoseconds carried into seconds. The function panics when that carry
/// overflows the seconds, which `requires` rules out.
#[verifier::external_body]
pub(crate) fn duration_new(secs: u64, nanos: u32) -> (d: Duration)
    requires
        secs as int + nanos as int / 1_000_000_000 <= u64::MAX,
    ensures
        duration_as_nanos(d) == secs as int * 1_000_000_000 + nanos as int,
{
    Duration::new(secs, nanos)
}

/// `Duration::checked_mul`: the span multiplied by `k`, or `None` when the
/// product does not fit in a `Duration`.
#[verifier::external_body]
pub(crate) fn duration_checked_mul(d: Duration, k: u32) -> (r: Option<Duration>)
    ensures
        r is None <==> duration_as_nanos(d) as int * k as int > max_duration_nanos(),
        r matches Some(p) ==> duration_as_nanos(p) == duration_as_nanos(d) as int * k as int,
{
    d.checked_mul(k)
}

/// `Duration::as_nanos`: the whole span in nanoseconds.
#[verifier::external_body]
pub(crate) fn duration_nanos(d: Duration) -> (n: u128)
    ensures
        n == duration_as_nanos(d),
{
    d.as_nanos()
}

} // verus!
