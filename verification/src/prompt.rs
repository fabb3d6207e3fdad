//! What the shell prompt says of the credentials of the current profile.

use vstd::prelude::*;
use crate::resolver::FRESHNESS_MARGIN_SECS;
use crate::time::Timestamp;

verus! {

/// How long credentials are still valid.
#[derive(Clone, Copy, Debug, PartialEq, Eq, Structural)]
pub enum Validity {
    /// No expiration is recorded: the credentials count as expired.
    Expired,
    /// The recorded expiration has come: nothing is shown.
    Over,
    /// The credentials are valid for `hours` hours and `minutes` minutes
    /// more; `soon` where that is no more than the freshness margin.
    Left { hours: i64, minutes: i64, soon: bool },
}

/// `a / b` rounded towards zero.
pub open spec fn truncated(a: int, b: int) -> int {
    if a >= 0 {
        a / b
    } else {
        -((-a) / b)
    }
}

/// The whole seconds from `now` to `at`, rounded towards zero.
pub open spec fn seconds_left(at: Timestamp, now: Timestamp) -> int {
    truncated(at.as_nanos() - now.as_nanos(), 1_000_000_000)
}

/// The whole hours from `now` to `at`.
pub open spec fn hours_left(at: Timestamp, now: Timestamp) -> int {
    truncated(seconds_left(at, now), 3600)
}

/// The whole minutes from `now` to `at` that make no whole hour. They
/// have the sign of the time that is left.
pub open spec fn minutes_left(at: Timestamp, now: Timestamp) -> int {
    let m = truncated(seconds_left(at, now), 60);
    m - 60 * truncated(m, 60)
}

/// What is shown of credentials that expire at `recorded`.
pub open spec fn validity_at(recorded: Option<Timestamp>, now: Timestamp) -> Validity {
    match recorded {
        None => Validity::Expired,
        Some(at) => if at.after(now) {
            Validity::Left {
                hours: hours_left(at, now) as i64,
                minutes: minutes_left(at, now) as i64,
                soon: !at.beyond(now, FRESHNESS_MARGIN_SECS),
            }
        } else {
            Validity::Over
        },
    }
}

/// The hours and the minutes from `now` to `at`.
pub fn time_left(at: &Timestamp, now: &Timestamp) -> (r: (i64, i64))
    ensures
        r.0 == hours_left(*at, *now),
        r.1 == minutes_left(*at, *now),
        -60 < r.1 < 60,
{
    let a: i128 = (at.secs as i128) * 1_000_000_000 + (at.nanos as i128);
    let b: i128 = (now.secs as i128) * 1_000_000_000 + (now.nanos as i128);
    let nanos: i128 = a - b;
    let seconds: i128 = nanos / 1_000_000_000;
    assert(seconds == seconds_left(*at, *now));
    let hours: i128 = seconds / 3600;
    let all_minutes: i128 = seconds / 60;
    let minutes: i128 = all_minutes % 60;
    assert(hours == truncated(seconds as int, 3600));
    assert(all_minutes == truncated(seconds as int, 60));
    assert(minutes == all_minutes - 60 * truncated(all_minutes as int, 60));
    (hours as i64, minutes as i64)
}

/// What is shown at `now` of credentials that expire at `recorded`.
pub fn validity(recorded: Option<Timestamp>, now: &Timestamp) -> (r: Validity)
    ensures
        r == validity_at(recorded, *now),
{
    match recorded {
        None => Validity::Expired,
        Some(at) => {
            if at.is_after(now) {
                let left = time_left(&at, now);
                Validity::Left {
                    hours: left.0,
                    minutes: left.1,
                    soon: !at.is_beyond(now, FRESHNESS_MARGIN_SECS),
                }
            } else {
                Validity::Over
            }
        },
    }
}

/// The character of a digit.
pub open spec fn digit(d: int) -> char {
    if d == 0 {
        '0'
    } else if d == 1 {
        '1'
    } else if d == 2 {
        '2'
    } else if d == 3 {
        '3'
    } else if d == 4 {
        '4'
    } else if d == 5 {
        '5'
    } else if d == 6 {
        '6'
    } else if d == 7 {
        '7'
    } else if d == 8 {
        '8'
    } else {
        '9'
    }
}

/// A number in decimal digits.
pub open spec fn decimal(n: nat) -> Seq<char>
    decreases n,
{
    if n < 10 {
        seq![digit(n as int)]
    } else {
        decimal(n / 10).push(digit((n % 10) as int))
    }
}

/// A number in decimal digits, with a minus sign where it is negative.
pub open spec fn signed(n: int) -> Seq<char> {
    if n < 0 {
        seq!['-'] + decimal((-n) as nat)
    } else {
        decimal(n as nat)
    }
}

/// Hours and minutes as they are shown: the hours, a colon, and the
/// minutes in two places at least.
pub open spec fn duration_text(hours: int, minutes: int) -> Seq<char> {
    signed(hours) + seq![':'] + if 0 <= minutes < 10 {
        seq!['0'] + decimal(minutes as nat)
    } else {
        signed(minutes)
    }
}

fn digit_of(d: u64) -> (c: char)
    requires
        d < 10,
    ensures
        c == digit(d as int),
{
    if d == 0 {
        '0'
    } else if d == 1 {
        '1'
    } else if d == 2 {
        '2'
    } else if d == 3 {
        '3'
    } else if d == 4 {
        '4'
    } else if d == 5 {
        '5'
    } else if d == 6 {
        '6'
    } else if d == 7 {
        '7'
    } else if d == 8 {
        '8'
    } else {
        '9'
    }
}

fn push_decimal(out: &mut String, n: u64)
    ensures
        final(out)@ == old(out)@ + decimal(n as nat),
    decreases n,
{
    if n >= 10 {
        push_decimal(out, n / 10);
    }
    out.push(digit_of(n % 10));
}

fn push_signed(out: &mut String, n: i64)
    ensures
        final(out)@ == old(out)@ + signed(n as int),
{
    if n < 0 {
        out.push('-');
        let ghost mid = out@;
        let magnitude: u64 = if n == i64::MIN {
            0x8000_0000_0000_0000
        } else {
            (-n) as u64
        };
        push_decimal(out, magnitude);
        assert(out@ == mid + decimal((-n) as nat));
        assert(old(out)@.push('-') + decimal((-n) as nat) == old(out)@ + (seq!['-'] + decimal(
            (-n) as nat,
        )));
    } else {
        push_decimal(out, n as u64);
    }
}

/// Hours and minutes as they are shown.
pub fn format_duration(hours: i64, minutes: i64) -> (r: String)
    ensures
        r@ == duration_text(hours as int, minutes as int),
{
    let mut r = String::new();
    push_signed(&mut r, hours);
    r.push(':');
    let ghost head = r@;
    if 0 <= minutes && minutes < 10 {
        r.push('0');
        push_decimal(&mut r, minutes as u64);
        assert(r@ == head + (seq!['0'] + decimal(minutes as nat)));
    } else {
        push_signed(&mut r, minutes);
    }
    assert(head == signed(hours as int) + seq![':']);
    r
}

} // verus!
