use chrono::Datelike;
use chrono::Timelike;
use vstd::prelude::*;

verus! {

/// Largest timestamp, in milliseconds since the Unix epoch, that the index
/// accepts: the last millisecond of year 9999. Everything the tree stores is
/// well inside the calendar range that the calendar library supports.
pub const MAX_INDEXABLE_MS: u64 = 253_402_300_799_999;

/// Largest whole second within [`MAX_INDEXABLE_MS`].
pub const MAX_INDEXABLE_SECS: u64 = 253_402_300_799;

/// The civil (proleptic Gregorian, UTC) decomposition of a Unix second:
/// year, month, day, hour, minute, second, in that order.
pub uninterp spec fn civil_of(secs: int) -> (int, int, int, int, int, int);

/// The Unix second at which the civil instant
/// `year-month-day hour:minute:second` (UTC) begins.
pub uninterp spec fn unix_of_civil(
    y: int,
    mo: int,
    d: int,
    h: int,
    mi: int,
    s: int,
) -> int;

/// Whether `year-month-day` is a real calendar date.
pub uninterp spec fn date_valid(y: int, mo: int, d: int) -> bool;

/// Relies on chrono's `DateTime::<Utc>::from_timestamp` and the `Datelike` /
/// `Timelike` accessors: a Unix second inside the supported range decomposes
/// into a unique civil date and time of day; the accessors return the month
/// and day 1-based and the time-of-day fields inside their clock ranges, and
/// the date they came from is a real calendar date.
#[verifier::external_body]
pub fn civil_from_unix(secs: u64) -> (r: (u32, u32, u32, u32, u32, u32))
    requires
        secs <= MAX_INDEXABLE_SECS,
    ensures
        (r.0 as int, r.1 as int, r.2 as int, r.3 as int, r.4 as int, r.5 as int)
            == civil_of(secs as int),
        1970 <= r.0 <= 9999,
        1 <= r.1 <= 12,
        1 <= r.2 <= 31,
        r.3 < 24,
        r.4 < 60,
        r.5 < 60,
        date_valid(r.0 as int, r.1 as int, r.2 as int),
{
    let dt = chrono::DateTime::from_timestamp(secs as i64, 0).unwrap();
    (dt.year() as u32, dt.month(), dt.day(), dt.hour(), dt.minute(), dt.second())
}

/// Relies on chrono's `NaiveDate::from_ymd_opt`, `NaiveDate::and_hms_opt` and
/// `DateTime::timestamp`: building a datetime succeeds exactly for a real
/// calendar date with an in-range time of day, and its timestamp is the
/// number of non-leap seconds since the Unix epoch, which for years 1970
/// through 9999 is non-negative and at most the last second of year 9999.
#[verifier::external_body]
pub fn unix_from_civil(y: u32, mo: u32, d: u32, h: u32, mi: u32, s: u32) -> (r: Option<u64>)
    requires
        1970 <= y <= 9999,
    ensures
        r is Some <==> (date_valid(y as int, mo as int, d as int) && h < 24 && mi < 60 && s < 60),
        (1 <= mo <= 12 && d == 1 && h < 24 && mi < 60 && s < 60) ==> r is Some,
        r is Some ==> r->0 as int
            == unix_of_civil(y as int, mo as int, d as int, h as int, mi as int, s as int),
        r is Some ==> r->0 <= MAX_INDEXABLE_SECS,
{
    match chrono::NaiveDate::from_ymd_opt(y as i32, mo, d) {
        Some(date) => match date.and_hms_opt(h, mi, s) {
            Some(dt) => Some(dt.and_utc().timestamp() as u64),
            None => None,
        },
        None => None,
    }
}

} // verus!
