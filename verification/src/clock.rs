//! Reading dates and times, and turning local time into seconds since the
//! Unix epoch. The calendar arithmetic is chrono's; nothing here is proved of
//! it.

use chrono::Datelike;
use chrono::FixedOffset;
use chrono::NaiveDate;
use chrono::NaiveDateTime;
use chrono::NaiveTime;
use chrono::TimeZone;
use chrono::Timelike;
use vstd::prelude::*;

verus! {

/// What chrono's `NaiveDate::parse_from_str` reads from `text` in the format
/// `format`, as the number of days since the last day of the year 1 BCE;
/// `None` where it reports an error.
pub uninterp spec fn date_in_format(text: Seq<char>, format: Seq<char>) -> Option<i32>;

/// What chrono's `NaiveTime::parse_from_str` reads from `text` in the format
/// `format`, as the seconds since midnight and the nanoseconds since that
/// second; `None` where it reports an error.
pub uninterp spec fn time_in_format(text: Seq<char>, format: Seq<char>) -> Option<(u32, u32)>;

/// The seconds since the Unix epoch of the moment at which a clock that
/// stands `west` seconds west of UTC shows the day `days` and the time
/// `secs`, `nanos`, as chrono's `TimeZone::from_local_datetime` for its
/// `FixedOffset` gives it; `None` where chrono has no such day, time, offset
/// or moment.
pub uninterp spec fn utc_seconds(days: i32, secs: u32, nanos: u32, west: i32) -> Option<i64>;

/// Calls chrono's `NaiveDate::parse_from_str` and hands the date back as
/// chrono's `Datelike::num_days_from_ce` counts it. Claims only that the
/// result is a function of the two texts.
#[verifier::external_body]
pub(crate) fn parse_date(text: &str, format: &str) -> (days: Option<i32>)
    ensures
        days == date_in_format(text@, format@),
{
    match NaiveDate::parse_from_str(text, format) {
        Ok(date) => Some(date.num_days_from_ce()),
        Err(_) => None,
    }
}

/// Calls chrono's `NaiveTime::parse_from_str` and hands the time back as
/// chrono's `Timelike::num_seconds_from_midnight` and `Timelike::nanosecond`
/// give it. Claims only that the result is a function of the two texts.
#[verifier::external_body]
pub(crate) fn parse_time(text: &str, format: &str) -> (time: Option<(u32, u32)>)
    ensures
        time == time_in_format(text@, format@),
{
    match NaiveTime::parse_from_str(text, format) {
        Ok(time) => Some((time.num_seconds_from_midnight(), time.nanosecond())),
        Err(_) => None,
    }
}

/// Builds chrono's date and time from the numbers, reads them as local time
/// of chrono's `FixedOffset::west_opt(west)` through
/// `TimeZone::from_local_datetime`, takes the earliest moment that gives and
/// hands back its `DateTime::timestamp`. Claims only that the result is a
/// function of the four numbers.
#[verifier::external_body]
pub(crate) fn utc_seconds_of(days: i32, secs: u32, nanos: u32, west: i32) -> (seconds: Option<i64>)
    ensures
        seconds == utc_seconds(days, secs, nanos, west),
{
    let date = NaiveDate::from_num_days_from_ce_opt(days)?;
    let time = NaiveTime::from_num_seconds_from_midnight_opt(secs, nanos)?;
    let zone = FixedOffset::west_opt(west)?;
    let local = zone.from_local_datetime(&NaiveDateTime::new(date, time)).earliest()?;
    Some(local.timestamp())
}

} // verus!
