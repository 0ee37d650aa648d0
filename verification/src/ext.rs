//! Units for byte counts and durations, as written in scenarios:
//! `10.kilobytes()`, `50.millis()`.

use crate::time::{duration_as_nanos, duration_checked_mul, duration_from_millis, max_duration_nanos};
use core::time::Duration;
use vstd::prelude::*;

verus! {

/// Byte counts in bytes, kilobytes, megabytes and gigabytes (powers of
/// 1000).
pub trait ByteExt {
    /// The number of bytes the value stands for.
    spec fn byte_count(&self) -> u64;

    fn bytes(&self) -> (n: u64)
        ensures
            n == self.byte_count(),
    ;

    fn kilobytes(&self) -> (n: u64)
        requires
            self.byte_count() * 1000 <= u64::MAX,
        ensures
            n == self.byte_count() * 1000,
    {
        self.bytes() * 1000
    }

    fn megabytes(&self) -> (n: u64)
        requires
            self.byte_count() * 1_000_000 <= u64::MAX,
        ensures
            n == self.byte_count() * 1_000_000,
    {
        self.kilobytes() * 1000
    }

    fn gigabytes(&self) -> (n: u64)
        requires
            self.byte_count() * 1_000_000_000 <= u64::MAX,
        ensures
            n == self.byte_count() * 1_000_000_000,
    {
        self.megabytes() * 1000
    }
}

impl ByteExt for i32 {
    /// The value as a `u64`; a negative value wraps around.
    open spec fn byte_count(&self) -> u64 {
        *self as u64
    }

    fn bytes(&self) -> (n: u64) {
        *self as u64
    }
}

impl ByteExt for u64 {
    open spec fn byte_count(&self) -> u64 {
        *self
    }

    fn bytes(&self) -> (n: u64) {
        *self
    }
}

/// Durations in milliseconds, seconds and minutes.
pub trait DurationExt {
    /// The number of milliseconds the value stands for.
    spec fn millis_count(&self) -> u64;

    fn millis(&self) -> (d: Duration)
        ensures
            duration_as_nanos(d) == self.millis_count() as int * 1_000_000,
    ;

    fn seconds(&self) -> (d: Duration)
        ensures
            duration_as_nanos(d) == self.millis_count() as int * 1_000_000_000,
    {
        let ms = self.millis();
        proof {
            assert(self.millis_count() as int * 1_000_000 * 1000 <= max_duration_nanos()) by (nonlinear_arith)
                requires
                    self.millis_count() <= u64::MAX,
            ;
        }
        duration_checked_mul(ms, 1000).unwrap()
    }

    fn minutes(&self) -> (d: Duration)
        requires
            self.millis_count() as int * 60_000_000_000 <= max_duration_nanos(),
        ensures
            duration_as_nanos(d) == self.millis_count() as int * 60_000_000_000,
    {
        let s = self.seconds();
        duration_checked_mul(s, 60).unwrap()
    }
}

impl DurationExt for i32 {
    /// The value as a `u64`; a negative value wraps around.
    open spec fn millis_count(&self) -> u64 {
        *self as u64
    }

    fn millis(&self) -> (d: Duration) {
        duration_from_millis(*self as u64)
    }
}

impl DurationExt for u64 {
    open spec fn millis_count(&self) -> u64 {
        *self
    }

    fn millis(&self) -> (d: Duration) {
        duration_from_millis(*self)
    }
}

} // verus!
