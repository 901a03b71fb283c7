//! Wall-clock readings.
//!
//! The only two facts the library ever takes from the clock: today's
//! local calendar date, and the current Unix timestamp. Everything
//! downstream takes these as explicit values, so all other functions are
//! verified for every possible reading. Both wrappers read the clock
//! through `std::time::SystemTime` and handle every `duration_since`
//! outcome themselves, so a clock set before the Unix epoch yields a
//! clamped reading instead of the panic `chrono::Local::now` would
//! raise.

use vstd::prelude::*;

use crate::date::Date;

verus! {

/// Relies on `std::time::SystemTime::now` and
/// `SystemTime::duration_since(UNIX_EPOCH)`: seconds since the Unix
/// epoch. A clock set before the epoch reads as 0, and one beyond `i64`
/// seconds as `i64::MAX`; nothing more can be promised of a clock
/// reading.
#[verifier::external_body]
pub fn now_timestamp() -> i64 {
    match std::time::SystemTime::now().duration_since(std::time::UNIX_EPOCH) {
        Ok(since) => i64::try_from(since.as_secs()).unwrap_or(i64::MAX),
        Err(_) => 0,
    }
}

/// Relies on [`now_timestamp`]'s clamped reading and on
/// `chrono::DateTime::from_timestamp`, `DateTime::with_timezone` and the
/// `chrono::Datelike` accessors: the local calendar day of the current
/// instant, a valid Gregorian date (the clamped reading keeps it at
/// December 31, 1969 or later, and a defensive clamp pins the year at 0
/// or later). A reading beyond chrono's date range reads as January 1,
/// 1970. The time-zone conversion panics only if the system's time-zone
/// database yields no offset for the instant (corrupt tz data), a corner
/// no chrono-based local-time lookup can avoid.
#[verifier::external_body]
pub fn get_today_date() -> (d: Date)
    ensures
        d.wf(),
{
    match chrono::DateTime::<chrono::Utc>::from_timestamp(now_timestamp(), 0) {
        Some(utc) => {
            let local = utc.with_timezone(&chrono::Local);
            let (y, m) = (chrono::Datelike::year(&local), chrono::Datelike::month(&local) as i32);
            if y < 0 {
                Date { year: 0, month: 1, day: 1 }
            } else {
                Date { year: y, month: m, day: chrono::Datelike::day(&local) as i32 }
            }
        },
        None => Date { year: 1970, month: 1, day: 1 },
    }
}

} // verus!
