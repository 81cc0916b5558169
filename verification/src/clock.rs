use std::time::{SystemTime, UNIX_EPOCH};

use chrono::{DateTime, Utc};
use vstd::prelude::*;

use crate::error::VaultError;

verus! {

/// Nanoseconds in a second.
pub const NANOS_PER_SECOND: u32 = 1_000_000_000;

/// The RFC 3339 text, in UTC, of the instant that lies `secs` seconds and
/// `nanos` nanoseconds after the Unix epoch; `None` where no date of the
/// calendar holds the instant, or the nanoseconds are none that a second of
/// the calendar has.
pub uninterp spec fn rfc3339_text(secs: int, nanos: int) -> Option<Seq<char>>;

/// Reads the system clock: whether it stands at or after the Unix epoch,
/// and how far from it, in whole seconds and nanoseconds.
///
/// Calls `SystemTime::now` of the standard library and measures the reading
/// against `UNIX_EPOCH` with `duration_since`, which gives the distance on
/// either side. Nothing is claimed of the reading but that the nanoseconds
/// are a fraction of a second, as `Duration::subsec_nanos` documents.
#[verifier::external_body]
fn read_clock() -> (r: (bool, u64, u32))
    ensures
        r.2 < NANOS_PER_SECOND,
{
    match SystemTime::now().duration_since(UNIX_EPOCH) {
        Ok(since) => (true, since.as_secs(), since.subsec_nanos()),
        Err(before) => (false, before.duration().as_secs(), before.duration().subsec_nanos()),
    }
}

/// Writes an instant as RFC 3339 text in UTC.
///
/// Calls `DateTime::from_timestamp` of the crate `chrono`, which returns
/// nothing for an instant outside its calendar, and `to_rfc3339` on what it
/// returns. The contract names the result.
#[verifier::external_body]
fn rfc3339_of(secs: i64, nanos: u32) -> (r: Option<String>)
    ensures
        match r {
            Some(text) => rfc3339_text(secs as int, nanos as int) == Some(text@),
            None => rfc3339_text(secs as int, nanos as int) is None,
        },
{
    match DateTime::<Utc>::from_timestamp(secs, nanos) {
        Some(instant) => Some(instant.to_rfc3339()),
        None => None,
    }
}

/// The whole seconds since the Unix epoch of a clock reading, rounded down,
/// and held at the ends of what a timestamp can hold.
pub open spec fn seconds_of(after_epoch: bool, secs: u64, nanos: u32) -> int {
    if after_epoch {
        if secs > i64::MAX {
            i64::MAX as int
        } else {
            secs as int
        }
    } else {
        let whole = if nanos == 0 {
            -(secs as int)
        } else {
            -(secs as int) - 1
        };
        if whole < i64::MIN {
            i64::MIN as int
        } else {
            whole
        }
    }
}

/// The nanoseconds past the whole second of a clock reading.
pub open spec fn nanos_of(after_epoch: bool, nanos: u32) -> int {
    if after_epoch || nanos == 0 {
        nanos as int
    } else {
        NANOS_PER_SECOND - nanos
    }
}

/// The instant of a clock reading, as seconds since the Unix epoch, rounded
/// down, and nanoseconds past that second. A reading before the epoch gives
/// negative seconds.
pub fn instant_of(after_epoch: bool, secs: u64, nanos: u32) -> (r: (i64, u32))
    requires
        nanos < NANOS_PER_SECOND,
    ensures
        r.0 == seconds_of(after_epoch, secs, nanos),
        r.1 == nanos_of(after_epoch, nanos),
        r.1 < NANOS_PER_SECOND,
{
    if after_epoch {
        if secs > i64::MAX as u64 {
            (i64::MAX, nanos)
        } else {
            (secs as i64, nanos)
        }
    } else {
        let back: i128 = if nanos == 0 {
            -(secs as i128)
        } else {
            -(secs as i128) - 1
        };
        let shown: u32 = if nanos == 0 {
            0
        } else {
            NANOS_PER_SECOND - nanos
        };
        if back < i64::MIN as i128 {
            (i64::MIN, shown)
        } else {
            (back as i64, shown)
        }
    }
}

/// The present instant, as seconds since the Unix epoch and nanoseconds
/// past that second.
pub(crate) fn now() -> (r: (i64, u32))
    ensures
        r.1 < NANOS_PER_SECOND,
{
    let (after_epoch, secs, nanos) = read_clock();
    instant_of(after_epoch, secs, nanos)
}

/// The RFC 3339 text of an instant, in UTC. Fails with `ClockOutOfRange`
/// where no date of the calendar holds the instant.
pub fn timestamp_text(secs: i64, nanos: u32) -> (r: Result<String, VaultError>)
    ensures
        match r {
            Ok(text) => rfc3339_text(secs as int, nanos as int) == Some(text@),
            Err(e) => e == VaultError::ClockOutOfRange && rfc3339_text(secs as int, nanos as int)
                is None,
        },
{
    match rfc3339_of(secs, nanos) {
        Some(text) => Ok(text),
        None => Err(VaultError::ClockOutOfRange),
    }
}

/// Whether a text is the RFC 3339 text of some instant, with nanoseconds
/// that are a fraction of a second.
pub open spec fn is_timestamp(text: Seq<char>) -> bool {
    exists|secs: i64, nanos: u32|
        nanos < NANOS_PER_SECOND && #[trigger] rfc3339_text(secs as int, nanos as int) == Some(
            text,
        )
}

/// The present instant as RFC 3339 text in UTC: the creation time of a new
/// entry.
pub fn created_now() -> (r: Result<String, VaultError>)
    ensures
        match r {
            Ok(text) => is_timestamp(text@),
            Err(e) => e == VaultError::ClockOutOfRange,
        },
{
    let (secs, nanos) = now();
    let r = timestamp_text(secs, nanos);
    proof {
        if r is Ok {
            assert(rfc3339_text(secs as int, nanos as int) == Some(r->Ok_0@));
        }
    }
    r
}

} // verus!
