//! Limits of a network path: the smallest datagram QUIC may use and the
//! largest transmission unit a path may be configured with.

use crate::connection::trace::{decimal, push_decimal, push_str};
use vstd::prelude::*;

verus! {

/// QUIC must not be used on a path that cannot carry datagrams of at least
/// this many bytes.
pub const MINIMUM_MTU: u16 = 1200;

/// The length of a UDP header.
pub const UDP_HEADER_LEN: u16 = 8;

/// The shortest IPv4 header.
pub const IPV4_MIN_HEADER_LEN: u16 = 20;

/// The IPv6 header, without extensions.
pub const IPV6_MIN_HEADER_LEN: u16 = 40;

/// The shortest IP header of the paths in use (IPv4).
pub const IP_MIN_HEADER_LEN: u16 = 20;

/// The smallest transmission unit a path may be configured with: the
/// minimum datagram with its UDP and IP headers.
pub const MIN_ALLOWED_MAX_MTU: u16 = 1228;

/// The initial backoff of the probe timeout.
pub const INITIAL_PTO_BACKOFF: u32 = 1;

/// The transmission unit of a path when none is configured.
pub const DEFAULT_MAX_MTU_VALUE: u16 = 1500;

/// The largest transmission unit of a path, never below
/// `MIN_ALLOWED_MAX_MTU`.
#[derive(Clone, Copy, Debug)]
pub struct MaxMtu(u16);

/// Why a transmission unit was refused: it must be at least the value held.
#[derive(Debug)]
pub struct MaxMtuError(u16);

impl MaxMtu {
    /// The value in bytes.
    pub closed spec fn value(&self) -> u16 {
        self.0
    }

    /// The value is at least `MIN_ALLOWED_MAX_MTU`.
    pub closed spec fn wf(&self) -> bool {
        self.0 >= MIN_ALLOWED_MAX_MTU
    }

    /// The transmission unit `value`, refused below `MIN_ALLOWED_MAX_MTU`.
    pub fn try_from(value: u16) -> (r: core::result::Result<MaxMtu, MaxMtuError>)
        ensures
            value < MIN_ALLOWED_MAX_MTU ==> (r matches Err(e) && e.minimum() == MIN_ALLOWED_MAX_MTU),
            value >= MIN_ALLOWED_MAX_MTU ==> (r matches Ok(m) && m.value() == value && m.wf()),
    {
        if value < MIN_ALLOWED_MAX_MTU {
            return Err(MaxMtuError(MIN_ALLOWED_MAX_MTU));
        }
        Ok(MaxMtu(value))
    }

    /// The value in bytes.
    pub fn get(self) -> (v: u16)
        ensures
            v == self.value(),
    {
        self.0
    }

    /// The value in bytes, as a `usize`.
    pub fn as_usize(self) -> (v: usize)
        ensures
            v == self.value(),
    {
        self.0 as usize
    }
}

impl Default for MaxMtu {
    /// `DEFAULT_MAX_MTU_VALUE` bytes.
    fn default() -> (m: Self)
        ensures
            m.value() == DEFAULT_MAX_MTU_VALUE,
            m.wf(),
    {
        MaxMtu(DEFAULT_MAX_MTU_VALUE)
    }
}

impl MaxMtuError {
    /// The smallest value allowed.
    pub closed spec fn minimum(&self) -> u16 {
        self.0
    }

    /// The message of the error: `MaxMtu must be at least ` and the
    /// smallest value allowed.
    pub fn message(&self) -> (s: String)
        ensures
            s@ == "MaxMtu must be at least "@ + decimal(self.minimum() as nat),
    {
        let mut s = String::new();
        push_str(&mut s, "MaxMtu must be at least ");
        push_decimal(&mut s, self.0 as u64);
        s
    }
}

} // verus!
