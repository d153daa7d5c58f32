//! Windows `FILETIME` to `TIMESTAMP` (UTC microseconds) resolution.
//!
//! The record parser decodes each on-disk `FILETIME` (a 64-bit count of
//! 100-nanosecond intervals since 1601-01-01 UTC) into an instant. This module
//! reduces an instant to the wire form, `Option<i64>` microseconds since the Unix
//! epoch, with the forensic convention that a zero `FILETIME` (the 1601 sentinel
//! that many records carry for an unset time) maps to `NULL`.

use vstd::prelude::*;

verus! {

/// Seconds from the Unix epoch back to the `FILETIME` epoch (1601-01-01 UTC).
/// A `FILETIME` of 0 decodes to exactly this instant; anything at or before it is
/// an unset time.
pub const FILETIME_EPOCH_UNIX_SECS: i64 = -11_644_473_600;

/// The first second that an instant can hold.
pub const MIN_SECOND: i64 = -377_705_023_201;

/// The last second that an instant can hold.
pub const MAX_SECOND: i64 = 253_402_207_200;

/// An instant, in microseconds since the Unix epoch.
#[derive(Clone, Copy, Debug, PartialEq, Eq, Structural)]
pub struct Timestamp {
    pub microsecond: i64,
}

/// `a` divided by `b`, rounded toward zero.
pub open spec fn truncated_div(a: int, b: int) -> int {
    if a >= 0 {
        a / b
    } else {
        -((-a) / b)
    }
}

impl Timestamp {
    /// The instant `second` seconds after the Unix epoch, if it is in range.
    pub fn from_second(second: i64) -> (r: Option<Timestamp>)
        ensures
            r == (if MIN_SECOND <= second <= MAX_SECOND {
                Some(Timestamp { microsecond: (second * 1_000_000) as i64 })
            } else {
                None
            }),
    {
        if MIN_SECOND <= second && second <= MAX_SECOND {
            Some(Timestamp { microsecond: second * 1_000_000 })
        } else {
            None
        }
    }

    /// Whole seconds since the Unix epoch, rounded toward zero.
    pub fn as_second(self) -> (r: i64)
        ensures
            r == truncated_div(self.microsecond as int, 1_000_000),
    {
        if self.microsecond >= 0 {
            self.microsecond / 1_000_000
        } else {
            // The quotient of the 1-based distance below zero never overflows.
            let below: i64 = -(self.microsecond + 1);
            let whole: i64 = below / 1_000_000;
            if below % 1_000_000 == 999_999 {
                -whole - 1
            } else {
                -whole
            }
        }
    }

    /// Microseconds since the Unix epoch.
    pub fn as_microsecond(self) -> (r: i64)
        ensures
            r == self.microsecond,
    {
        self.microsecond
    }
}

/// The wire form of an instant: `None` at or before the `FILETIME` epoch.
pub open spec fn micros(ts: Timestamp) -> Option<i64> {
    if truncated_div(ts.microsecond as int, 1_000_000) <= FILETIME_EPOCH_UNIX_SECS {
        None
    } else {
        Some(ts.microsecond)
    }
}

/// Convert a decoded NTFS timestamp to `Option<i64>` microseconds since the Unix
/// epoch. A zero `FILETIME` (an unset time) becomes `None`.
pub fn to_micros(ts: Timestamp) -> (r: Option<i64>)
    ensures
        r == micros(ts),
{
    if ts.as_second() <= FILETIME_EPOCH_UNIX_SECS {
        return None;
    }
    Some(ts.as_microsecond())
}

/// Whether a time is present and falls on a whole second.
pub open spec fn zero_subsecond(micros: Option<i64>) -> bool {
    micros matches Some(m) && m as int % 1_000_000 == 0
}

/// Whether a microsecond timestamp falls exactly on a whole second: the "zero
/// sub-second" anti-forensic tell. `None` (a null time) is not a tell.
pub fn is_zero_subsecond(micros: Option<i64>) -> (r: bool)
    ensures
        r == zero_subsecond(micros),
{
    match micros {
        Some(m) => {
            if m >= 0 {
                m % 1_000_000 == 0
            } else {
                // Remainders of a negative value have the sign reversed.
                (-(m + 1)) % 1_000_000 == 999_999
            }
        },
        None => false,
    }
}

/// A zero `FILETIME`, 1601-01-01, is an unset time, and so is anything before it; every
/// later instant is reported to the microsecond.
pub proof fn law_only_the_epoch_is_unset(ts: Timestamp)
    ensures
        ts.microsecond <= -11_644_473_600_000_000 ==> micros(ts) is None,
        ts.microsecond > -11_644_473_600_000_000 ==> micros(ts) == Some(ts.microsecond),
{
}

/// Whole seconds come back as themselves, in microseconds.
pub proof fn law_whole_second_in_micros(ts: Timestamp, second: int)
    requires
        ts.microsecond == second * 1_000_000,
        second > -11_644_473_600,
    ensures
        micros(ts) == Some(ts.microsecond),
        zero_subsecond(micros(ts)),
{
}

/// Shifting a time by whole seconds keeps the sub-second tell, and by anything else it
/// breaks it.
pub proof fn law_subsecond_tell_is_periodic(a: i64, b: i64)
    requires
        zero_subsecond(Some(a)),
    ensures
        zero_subsecond(Some(b)) <==> (b - a) % 1_000_000 == 0,
        zero_subsecond(Some(0i64)),
        !zero_subsecond(None),
{
    let d = (b - a) as int;
    vstd::arithmetic::div_mod::lemma_add_mod_noop(a as int, d, 1_000_000);
    assert(a as int % 1_000_000 == 0);
    assert((a + d) == b);
}

} // verus!
