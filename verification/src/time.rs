//! Dates, instants and time zones.
//!
//! A date is a day number (chrono's `num_days_from_ce`: 0001-01-01 is day 1),
//! an instant is a count of seconds since the Unix epoch, and a time of day is
//! a count of seconds since local midnight. Time zones are IANA names resolved
//! through `chrono-tz`.
use vstd::prelude::*;
use chrono::{Datelike, Timelike, TimeZone as _};

verus! {

/// Seconds in a day.
pub const SECONDS_PER_DAY: i64 = 86_400;

/// A calendar date in some time zone.
#[derive(Clone, Copy, Debug, PartialEq, Eq, Structural, Hash)]
pub struct LocalDate {
    /// Days since the common era, 0001-01-01 being day 1.
    pub days_from_ce: i32,
}

/// The ISO weekday, 1 for Monday through 7 for Sunday. 0001-01-01 was a
/// Monday in the proleptic Gregorian calendar, so the weekday repeats every
/// seven day numbers from there.
pub open spec fn spec_iso_weekday(days_from_ce: int) -> int {
    (days_from_ce - 1) % 7 + 1
}

impl LocalDate {
    pub fn from_days(days_from_ce: i32) -> (date: Self)
        ensures
            date.days_from_ce == days_from_ce,
    {
        LocalDate { days_from_ce }
    }

    /// The ISO weekday, 1 for Monday through 7 for Sunday.
    pub fn iso_weekday(&self) -> (weekday: u8)
        ensures
            weekday == spec_iso_weekday(self.days_from_ce as int),
            1 <= weekday <= 7,
    {
        let shifted: i64 = self.days_from_ce as i64 - 1;
        let r: i64 = shifted % 7;
        let r: i64 = if r < 0 { r + 7 } else { r };
        assert(r == (self.days_from_ce as int - 1) % 7);
        (r + 1) as u8
    }

    /// The following day, if it is representable.
    pub fn next_day(&self) -> (next: Option<LocalDate>)
        ensures
            self.days_from_ce < i32::MAX ==> next == Some(LocalDate { days_from_ce: (self.days_from_ce + 1) as i32 }),
            self.days_from_ce == i32::MAX ==> next is None,
    {
        if self.days_from_ce < i32::MAX {
            Some(LocalDate { days_from_ce: self.days_from_ce + 1 })
        } else {
            None
        }
    }
}

/// The ISO-8601 week a date falls in, as `(iso_year, week)`; `None` when the
/// day number is outside chrono's calendar.
pub uninterp spec fn iso_week_key(days_from_ce: int) -> Option<(int, int)>;

/// The proleptic Gregorian `(year, month)` of a day number; `None` when it is
/// outside chrono's calendar.
pub uninterp spec fn civil_year_month(days_from_ce: int) -> Option<(int, int)>;

/// Whether an IANA time zone name is known to `chrono-tz`.
pub uninterp spec fn timezone_known(name: Seq<char>) -> bool;

/// The local `(day number, seconds since midnight)` of an instant in a time
/// zone; `None` when the instant, or its local time, is outside chrono's range.
pub uninterp spec fn local_clock_of(zone: Seq<char>, at: int) -> Option<(int, int)>;

/// How a local wall-clock time maps back to instants in a time zone.
#[derive(Clone, Copy, Debug, PartialEq, Eq, Structural)]
pub enum LocalMatch {
    /// Exactly one instant has this wall-clock time.
    Single(i64),
    /// The wall clock was set back: two instants, earlier first.
    Ambiguous(i64, i64),
    /// No instant has this wall-clock time: the wall clock skipped it, or
    /// taking the zone's offset off it leaves chrono's range.
    Skipped,
    /// The date or time lies outside chrono's range.
    OutOfRange,
}

/// The instants a local wall-clock time denotes in a time zone.
pub uninterp spec fn resolve_local_of(zone: Seq<char>, days_from_ce: int, seconds: int) -> LocalMatch;

/// `chrono`'s ISO week of a date: `NaiveDate::iso_week` on the date with the
/// given day number. Its result is taken as `iso_week_key` of the day number.
#[verifier::external_body]
fn chrono_iso_week(days_from_ce: i32) -> (week: Option<(i32, u32)>)
    ensures
        match week {
            Some((year, number)) => iso_week_key(days_from_ce as int) == Some((year as int, number as int)),
            None => iso_week_key(days_from_ce as int) is None,
        },
{
    let date = chrono::NaiveDate::from_num_days_from_ce_opt(days_from_ce)?;
    let week = date.iso_week();
    Some((week.year(), week.week()))
}

/// `chrono`'s year and month of a date: `NaiveDate::year` and
/// `NaiveDate::month`. Its result is taken as `civil_year_month`.
#[verifier::external_body]
fn chrono_year_month(days_from_ce: i32) -> (ym: Option<(i32, u32)>)
    ensures
        match ym {
            Some((year, month)) => civil_year_month(days_from_ce as int) == Some((year as int, month as int)),
            None => civil_year_month(days_from_ce as int) is None,
        },
{
    let date = chrono::NaiveDate::from_num_days_from_ce_opt(days_from_ce)?;
    Some((date.year(), date.month()))
}

/// `chrono-tz`'s parse of an IANA name (`str::parse::<Tz>`): whether it
/// succeeds is taken as `timezone_known`.
#[verifier::external_body]
fn chrono_tz_known(name: &str) -> (known: bool)
    ensures
        known == timezone_known(name@),
{
    name.parse::<chrono_tz::Tz>().is_ok()
}

/// An IANA time zone that `chrono-tz` knows.
#[derive(Clone, Debug, PartialEq, Eq)]
pub struct TimeZone {
    name: String,
}

impl View for TimeZone {
    type V = Seq<char>;

    closed spec fn view(&self) -> Seq<char> {
        self.name@
    }
}

impl TimeZone {
    /// The zone with this IANA name, if it is known.
    pub fn named(name: &str) -> (zone: Option<TimeZone>)
        ensures
            zone is Some <==> timezone_known(name@),
            zone matches Some(z) ==> z@ == name@,
    {
        if chrono_tz_known(name) {
            Some(TimeZone { name: name.to_owned() })
        } else {
            None
        }
    }

    pub fn name(&self) -> (name: &str)
        ensures
            name@ == self@,
    {
        self.name.as_str()
    }

}

/// `chrono-tz`'s local time of an instant: `DateTime::from_timestamp`, the
/// zone's offset at that instant (`offset_from_utc_datetime`), and
/// `NaiveDateTime::checked_add_offset`, which gives `None` rather than
/// panicking when the local time leaves chrono's range; read back as the local
/// date's day number and the seconds since local midnight. The result is taken as `local_clock_of`; the seconds
/// are below one day, as `NaiveTime::num_seconds_from_midnight` documents.
#[verifier::external_body]
pub(crate) fn local_clock(zone: &TimeZone, at: i64) -> (clock: Option<(LocalDate, u32)>)
    ensures
        match clock {
            Some((date, seconds)) => local_clock_of(zone@, at as int) == Some(
                (date.days_from_ce as int, seconds as int),
            ) && seconds < SECONDS_PER_DAY,
            None => local_clock_of(zone@, at as int) is None,
        },
{
    let tz = zone.name.parse::<chrono_tz::Tz>().ok()?;
    let utc = chrono::DateTime::from_timestamp(at, 0)?.naive_utc();
    let offset = chrono::Offset::fix(&chrono::TimeZone::offset_from_utc_datetime(&tz, &utc));
    let local = utc.checked_add_offset(offset)?;
    Some((LocalDate { days_from_ce: local.date().num_days_from_ce() }, local.time().num_seconds_from_midnight()))
}

/// `chrono-tz`'s resolution of a local wall-clock time
/// (`TimeZone::from_local_datetime`), each instant read as a Unix timestamp.
/// The result is taken as `resolve_local_of`.
#[verifier::external_body]
pub(crate) fn resolve_local(zone: &TimeZone, date: LocalDate, seconds: u32) -> (found: LocalMatch)
    ensures
        found == resolve_local_of(zone@, date.days_from_ce as int, seconds as int),
{
    let Ok(tz) = zone.name.parse::<chrono_tz::Tz>() else { return LocalMatch::OutOfRange };
    let Some(day) = chrono::NaiveDate::from_num_days_from_ce_opt(date.days_from_ce) else { return LocalMatch::OutOfRange };
    let Some(time) = chrono::NaiveTime::from_num_seconds_from_midnight_opt(seconds, 0) else { return LocalMatch::OutOfRange };
    match tz.from_local_datetime(&day.and_time(time)) {
        chrono::LocalResult::Single(at) => LocalMatch::Single(at.timestamp()),
        chrono::LocalResult::Ambiguous(earlier, later) => LocalMatch::Ambiguous(earlier.timestamp(), later.timestamp()),
        chrono::LocalResult::None => LocalMatch::Skipped,
    }
}

/// An ISO-8601 week key. The ISO year is not always the calendar year.
#[derive(Clone, Copy, Debug, PartialEq, Eq, Structural, Hash)]
pub struct IsoWeek {
    pub year: i32,
    pub week: u32,
}

/// The ISO week a date falls in, or `None` for a day number outside chrono's
/// calendar.
pub fn iso_week_of(local_date: LocalDate) -> (week: Option<IsoWeek>)
    ensures
        match week {
            Some(w) => iso_week_key(local_date.days_from_ce as int) == Some((w.year as int, w.week as int)),
            None => iso_week_key(local_date.days_from_ce as int) is None,
        },
{
    match chrono_iso_week(local_date.days_from_ce) {
        Some((year, week)) => Some(IsoWeek { year, week }),
        None => None,
    }
}

/// The calendar `(year, month)` of a date, or `None` outside chrono's
/// calendar.
pub fn year_month(local_date: LocalDate) -> (ym: Option<(i32, u32)>)
    ensures
        match ym {
            Some((year, month)) => civil_year_month(local_date.days_from_ce as int) == Some((year as int, month as int)),
            None => civil_year_month(local_date.days_from_ce as int) is None,
        },
{
    chrono_year_month(local_date.days_from_ce)
}

} // verus!
