//! Instants as the source records them, and the two places where the clock
//! library is asked for one.

use chrono::{TimeZone, Utc};
use vstd::prelude::*;

verus! {

/// An instant on the UTC time line: whole seconds since the Unix epoch and
/// the nanoseconds past that second.
#[derive(Clone, Copy, Debug, PartialEq, Eq, Structural)]
pub struct Timestamp {
    pub seconds: i64,
    pub nanoseconds: u32,
}

/// Milliseconds since the epoch of the earliest instant that the clock
/// library can hold, the first millisecond of the year -262143.
pub const MIN_UTC_MILLIS: i64 = -8_334_601_228_800_000;

/// Milliseconds since the epoch of the last whole millisecond that the clock
/// library can hold, at the end of the year 262142.
pub const MAX_UTC_MILLIS: i64 = 8_210_266_876_799_999;

/// The instant that lies `millis` milliseconds after the epoch, with the
/// second rounded towards the past.
pub open spec fn instant_of_millis(millis: int) -> Timestamp {
    Timestamp {
        seconds: (millis / 1000) as i64,
        nanoseconds: ((millis % 1000) * 1_000_000) as u32,
    }
}

/// What a count of milliseconds becomes: an instant where the clock library
/// can represent it, nothing otherwise.
pub open spec fn utc_of_millis(millis: i64) -> Option<Timestamp> {
    if MIN_UTC_MILLIS <= millis <= MAX_UTC_MILLIS {
        Some(instant_of_millis(millis as int))
    } else {
        None
    }
}

/// The signed number with the same 64 bits as `raw`.
pub open spec fn reinterpret_signed(raw: u64) -> i64 {
    if raw <= i64::MAX as u64 {
        raw as i64
    } else {
        (raw - 0x1_0000_0000_0000_0000) as i64
    }
}

/// The instant a broker's timestamp property stands for. The property is an
/// unsigned count; it is read as signed milliseconds, bit for bit.
pub open spec fn broker_instant(raw: Option<u64>) -> Option<Timestamp> {
    match raw {
        Some(raw) => utc_of_millis(reinterpret_signed(raw)),
        None => None,
    }
}

/// Calls `chrono::Utc.timestamp_millis_opt(millis).latest()`.
///
/// Trusted: chrono answers with the one instant `millis` milliseconds after
/// the epoch when that instant lies between `DateTime::<Utc>::MIN_UTC` and
/// `DateTime::<Utc>::MAX_UTC`, and with nothing outside that range. The two
/// bounds are stated as `MIN_UTC_MILLIS` and `MAX_UTC_MILLIS`. The instant is
/// handed back as its `timestamp()` and `timestamp_subsec_nanos()`: the
/// Euclidean quotient of `millis` by 1000, and the remainder in nanoseconds.
#[verifier::external_body]
pub(crate) fn utc_from_millis(millis: i64) -> (r: Option<Timestamp>)
    ensures
        r == utc_of_millis(millis),
{
    match Utc.timestamp_millis_opt(millis).latest() {
        Some(at) => Some(Timestamp { seconds: at.timestamp(), nanoseconds: at.timestamp_subsec_nanos() }),
        None => None,
    }
}

/// Calls `chrono::Utc::now()`.
///
/// Trusted: nothing is claimed of the instant that comes back. chrono panics
/// where the system clock stands before the Unix epoch.
#[verifier::external_body]
pub(crate) fn utc_now() -> Timestamp {
    let at = Utc::now();
    Timestamp { seconds: at.timestamp(), nanoseconds: at.timestamp_subsec_nanos() }
}

/// Reads the unsigned count as the signed number with the same bits.
pub(crate) fn to_signed(raw: u64) -> (r: i64)
    ensures
        r == reinterpret_signed(raw),
{
    if raw <= 0x7fff_ffff_ffff_ffff {
        raw as i64
    } else {
        let low: u64 = raw - 0x8000_0000_0000_0000;
        (low as i64) + i64::MIN
    }
}

impl Timestamp {
    /// The instant that the broker's timestamp property stands for, if the
    /// message carries one that can be represented.
    pub fn from_broker(raw: Option<u64>) -> (r: Option<Timestamp>)
        ensures
            r == broker_instant(raw),
    {
        match raw {
            Some(raw) => utc_from_millis(to_signed(raw)),
            None => None,
        }
    }
}

} // verus!
