//! When the things that are done now and then are due.

use vstd::prelude::*;
use crate::time::Timestamp;

verus! {

pub const SECONDS_PER_DAY: i64 = 86_400;

/// The beginning of the Unix epoch.
pub open spec fn epoch() -> Timestamp {
    Timestamp { secs: 0, nanos: 0 }
}

/// The nanoseconds in `days` days.
pub open spec fn days_in_nanos(days: int) -> int {
    days * SECONDS_PER_DAY * crate::time::NANOS_PER_SECOND
}

/// The nanoseconds that have passed at `now` since `then`.
pub open spec fn since(now: Timestamp, then: Timestamp) -> int {
    now.as_nanos() - then.as_nanos()
}

fn nanos_since(now: &Timestamp, then: &Timestamp) -> (r: i128)
    ensures
        r == since(*now, *then),
        -0x1_0000_0000_0000_0000 * 1_000_000_000 - 0x1_0000_0000 <= r <= 0x1_0000_0000_0000_0000
            * 1_000_000_000 + 0x1_0000_0000,
{
    let a: i128 = (now.secs as i128) * 1_000_000_000 + (now.nanos as i128);
    let b: i128 = (then.secs as i128) * 1_000_000_000 + (then.nanos as i128);
    a - b
}

/// Whether a new version is to be looked for at `now`: more than
/// `every_days` days have passed since the last look.
pub fn version_check_due(last: &Timestamp, now: &Timestamp, every_days: u32) -> (r: bool)
    ensures
        r == (since(*now, *last) > days_in_nanos(every_days as int)),
{
    let span: i128 = (every_days as i128) * 86_400 * 1_000_000_000;
    nanos_since(now, last) > span
}

/// Whether the access key of the main profile is to be replaced at
/// `now`: `days` days or more have passed since it was last replaced, or
/// since the beginning of the epoch where it never was.
pub fn rotation_due(last: Option<Timestamp>, now: &Timestamp, days: i64) -> (r: bool)
    ensures
        r == (since(
            *now,
            match last {
                Some(t) => t,
                None => epoch(),
            },
        ) >= days_in_nanos(days as int)),
{
    let then = match last {
        Some(t) => t,
        None => Timestamp::new(0, 0),
    };
    let whole: i128 = (days as i128) * 86_400;
    let span: i128 = whole * 1_000_000_000;
    nanos_since(now, &then) >= span
}

} // verus!
