//! Instants and calendar dates as plain integers.
use vstd::prelude::*;

verus! {

/// Seconds in one civil day.
pub const SECONDS_PER_DAY: i64 = 86400;

/// Day number (counted from 0001-01-01 as day 1) of 1970-01-01.
pub const UNIX_EPOCH_CE_DAY: i64 = 719163;

/// The earliest instant this library represents.
pub const MIN_INSTANT: i64 = -9223372036854775808;

/// The latest instant this library represents.
pub const MAX_INSTANT: i64 = 9223372036854775807;

/// The earliest instant `chrono::DateTime::from_timestamp` accepts
/// (`DateTime::<Utc>::MIN_UTC`).
pub const FORMATTABLE_MIN: i64 = -8334601228800;

/// The latest instant `chrono::DateTime::from_timestamp` accepts
/// (`DateTime::<Utc>::MAX_UTC`).
pub const FORMATTABLE_MAX: i64 = 8210266876799;

/// Whether an instant lies in chrono's range, and so has an RFC 3339 form.
pub open spec fn formattable(secs: i64) -> bool {
    FORMATTABLE_MIN <= secs <= FORMATTABLE_MAX
}

/// The day number, counted from 0001-01-01 as day 1, of a proleptic
/// Gregorian date, or `None` where the date does not exist.
pub uninterp spec fn ce_day_of(year: i32, month: u32, day: u32) -> Option<i32>;

/// The RFC 3339 text (`YYYY-MM-DDTHH:MM:SSZ`) of an instant given in seconds
/// since the Unix epoch.
pub uninterp spec fn rfc3339_of(secs: i64) -> Seq<char>;

/// Relies on `chrono::NaiveDate::from_ymd_opt` and `num_days_from_ce`: the
/// day number of the date, `None` for a date that does not exist.
#[verifier::external_body]
fn ce_day(year: i32, month: u32, day: u32) -> (r: Option<i32>)
    ensures
        r == ce_day_of(year, month, day),
        r is Some ==> 1 <= month <= 12 && 1 <= day <= 31,
{
    chrono::NaiveDate::from_ymd_opt(year, month, day).map(|d| chrono::Datelike::num_days_from_ce(&d))
}

/// Relies on `chrono::DateTime::from_timestamp` and `to_rfc3339_opts` with
/// whole seconds and a `Z` suffix: `from_timestamp` gives `None` exactly when
/// the day falls outside `NaiveDate::MIN ..= NaiveDate::MAX`, that is, outside
/// `MIN_UTC ..= MAX_UTC`.
#[verifier::external_body]
pub(crate) fn rfc3339_text(secs: i64) -> (r: Option<String>)
    ensures
        r is Some <==> formattable(secs),
        r matches Some(s) ==> s@ == rfc3339_of(secs),
{
    chrono::DateTime::from_timestamp(secs, 0).map(|t| t.to_rfc3339_opts(chrono::SecondsFormat::Secs, true))
}

/// A calendar date, held as its day number relative to 1970-01-01.
#[derive(Clone, Copy, Debug, PartialEq, Eq)]
pub struct Date {
    pub days_since_epoch: i32,
}

/// The instant at which a day begins.
pub open spec fn day_start(days: int) -> int {
    days * SECONDS_PER_DAY
}

impl Date {
    /// The date with the given year, month and day, or `None` where no such
    /// date exists or it lies outside the representable range.
    pub fn from_ymd(year: i32, month: u32, day: u32) -> (r: Option<Date>)
        ensures
            match ce_day_of(year, month, day) {
                Some(n) => {
                    let d = n - UNIX_EPOCH_CE_DAY;
                    if i32::MIN <= d <= i32::MAX {
                        r == Some(Date { days_since_epoch: d as i32 })
                    } else {
                        r is None
                    }
                },
                None => r is None,
            },
    {
        match ce_day(year, month, day) {
            Some(n) => {
                let d: i64 = n as i64 - UNIX_EPOCH_CE_DAY;
                if d >= i32::MIN as i64 && d <= i32::MAX as i64 {
                    Some(Date { days_since_epoch: d as i32 })
                } else {
                    None
                }
            },
            None => None,
        }
    }

    /// The first second of this date (00:00:00 UTC).
    pub fn first_second(&self) -> (r: i64)
        ensures
            r == day_start(self.days_since_epoch as int),
    {
        self.days_since_epoch as i64 * SECONDS_PER_DAY
    }

    /// The last whole second of this date (23:59:59 UTC).
    pub fn last_second(&self) -> (r: i64)
        ensures
            r == day_start(self.days_since_epoch as int) + SECONDS_PER_DAY - 1,
    {
        self.days_since_epoch as i64 * SECONDS_PER_DAY + (SECONDS_PER_DAY - 1)
    }

    /// The instant at `hour:minute:second` UTC on this date.
    pub fn at(&self, hour: u32, minute: u32, second: u32) -> (r: i64)
        requires
            hour < 24,
            minute < 60,
            second < 60,
        ensures
            r == day_start(self.days_since_epoch as int) + hour * 3600 + minute * 60 + second,
    {
        self.days_since_epoch as i64 * SECONDS_PER_DAY + hour as i64 * 3600 + minute as i64 * 60
            + second as i64
    }
}

} // verus!
