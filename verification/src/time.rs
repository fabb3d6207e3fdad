//! Points in time, as the credential cache records them.

use vstd::prelude::*;

verus! {

/// Nanoseconds in a second.
pub const NANOS_PER_SECOND: i64 = 1_000_000_000;

/// An instant: whole seconds since the Unix epoch, and the nanoseconds
/// that follow.
#[derive(Clone, Copy, Debug, PartialEq, Eq, Structural)]
pub struct Timestamp {
    pub secs: i64,
    pub nanos: u32,
}

impl Timestamp {
    /// The instant as a number of nanoseconds since the epoch.
    pub open spec fn as_nanos(self) -> int {
        self.secs * NANOS_PER_SECOND + self.nanos
    }

    /// Whether `self` lies strictly after `other`.
    pub open spec fn after(self, other: Timestamp) -> bool {
        self.as_nanos() > other.as_nanos()
    }

    /// Whether `self` lies more than `margin_secs` seconds after `now`.
    pub open spec fn beyond(self, now: Timestamp, margin_secs: i64) -> bool {
        self.as_nanos() - now.as_nanos() > margin_secs * NANOS_PER_SECOND
    }

    pub fn new(secs: i64, nanos: u32) -> (t: Timestamp)
        ensures
            t.secs == secs,
            t.nanos == nanos,
    {
        Timestamp { secs, nanos }
    }

    fn nanos_since_epoch(&self) -> (n: i128)
        ensures
            n == self.as_nanos(),
            -0x8000_0000_0000_0000 * 1_000_000_000 <= n < 0x8000_0000_0000_0000 * 1_000_000_000
                + 0x1_0000_0000,
    {
        let whole: i128 = (self.secs as i128) * 1_000_000_000;
        whole + (self.nanos as i128)
    }

    /// Whether `self` lies strictly after `other`.
    pub fn is_after(&self, other: &Timestamp) -> (r: bool)
        ensures
            r == self.after(*other),
    {
        self.nanos_since_epoch() > other.nanos_since_epoch()
    }

    /// Whether `self` lies more than `margin_secs` seconds after `now`.
    pub fn is_beyond(&self, now: &Timestamp, margin_secs: i64) -> (r: bool)
        ensures
            r == self.beyond(*now, margin_secs),
    {
        let margin: i128 = (margin_secs as i128) * 1_000_000_000;
        self.nanos_since_epoch() - now.nanos_since_epoch() > margin
    }
}

} // verus!
