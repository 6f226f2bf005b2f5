//! Day windows: which instants belong to a local day, given an enrollment's
//! time zone and the hour at which its day turns over.
use vstd::prelude::*;
use crate::time::{local_clock, local_clock_of, resolve_local, resolve_local_of, LocalDate, LocalMatch, TimeZone};

verus! {

#[derive(Clone, Copy, Debug, PartialEq, Eq, Structural)]
pub enum CalendarError {
    InvalidBoundaryHour,
    UnresolvableLocalTime,
}

/// The latest hour at which a day may turn over.
pub const MAX_BOUNDARY_HOUR: u32 = 4;

/// The instant a local day opens: the boundary hour on that date; the earlier
/// of two instants when the clock was set back; an hour later when the clock
/// skipped the boundary.
pub open spec fn spec_opens_at(zone: Seq<char>, date: int, boundary_hour: int) -> Option<int> {
    match resolve_local_of(zone, date, boundary_hour * 3600) {
        LocalMatch::Single(at) => Some(at as int),
        LocalMatch::Ambiguous(earlier, _) => Some(earlier as int),
        LocalMatch::Skipped => match resolve_local_of(zone, date, boundary_hour * 3600 + 3600) {
            LocalMatch::Single(at) => Some(at as int),
            _ => None,
        },
        LocalMatch::OutOfRange => None,
    }
}

/// The `[opens, closes)` window of a local day: it opens per `spec_opens_at`
/// and closes exactly one day of instants later.
pub open spec fn spec_day_window(zone: Seq<char>, date: int, boundary_hour: int) -> Result<(i64, i64), CalendarError> {
    if boundary_hour > MAX_BOUNDARY_HOUR {
        Err(CalendarError::InvalidBoundaryHour)
    } else {
        match spec_opens_at(zone, date, boundary_hour) {
            Some(opens) => if opens + 86_400 <= i64::MAX {
                Ok((opens as i64, (opens + 86_400) as i64))
            } else {
                Err(CalendarError::UnresolvableLocalTime)
            },
            None => Err(CalendarError::UnresolvableLocalTime),
        }
    }
}

pub fn day_window(local_date: LocalDate, boundary_hour: u32, zone: &TimeZone) -> (window: Result<(i64, i64), CalendarError>)
    ensures
        window == spec_day_window(zone@, local_date.days_from_ce as int, boundary_hour as int),
{
    if boundary_hour > MAX_BOUNDARY_HOUR {
        return Err(CalendarError::InvalidBoundaryHour);
    }
    let seconds: u32 = boundary_hour * 3600;
    let opens: i64 = match resolve_local(zone, local_date, seconds) {
        LocalMatch::Single(at) => at,
        LocalMatch::Ambiguous(earlier, _later) => earlier,
        LocalMatch::Skipped => match resolve_local(zone, local_date, seconds + 3600) {
            LocalMatch::Single(at) => at,
            _ => return Err(CalendarError::UnresolvableLocalTime),
        },
        LocalMatch::OutOfRange => return Err(CalendarError::UnresolvableLocalTime),
    };
    if opens > i64::MAX - 86_400 {
        return Err(CalendarError::UnresolvableLocalTime);
    }
    Ok((opens, opens + 86_400))
}

/// The enrollment's current local day: the local date of `now` shifted back by
/// the boundary hour.
pub open spec fn spec_enrollment_today(zone: Seq<char>, now: int, boundary_hour: int) -> Result<LocalDate, CalendarError> {
    if boundary_hour > MAX_BOUNDARY_HOUR {
        Err(CalendarError::InvalidBoundaryHour)
    } else if now - boundary_hour * 3600 < i64::MIN {
        Err(CalendarError::UnresolvableLocalTime)
    } else {
        match local_clock_of(zone, now - boundary_hour * 3600) {
            Some((date, _)) => Ok(LocalDate { days_from_ce: date as i32 }),
            None => Err(CalendarError::UnresolvableLocalTime),
        }
    }
}

pub fn enrollment_today(now: i64, boundary_hour: u32, zone: &TimeZone) -> (today: Result<LocalDate, CalendarError>)
    ensures
        today == spec_enrollment_today(zone@, now as int, boundary_hour as int),
{
    if boundary_hour > MAX_BOUNDARY_HOUR {
        return Err(CalendarError::InvalidBoundaryHour);
    }
    let shift: i64 = boundary_hour as i64 * 3600;
    if now < i64::MIN + shift {
        return Err(CalendarError::UnresolvableLocalTime);
    }
    match local_clock(zone, now - shift) {
        Some((date, _)) => Ok(date),
        None => Err(CalendarError::UnresolvableLocalTime),
    }
}

/// Whatever the zone, a day window is exactly one day of instants long.
pub proof fn lemma_window_is_one_day(zone: Seq<char>, date: int, boundary_hour: int)
    ensures
        spec_day_window(zone, date, boundary_hour) matches Ok((opens, closes)) ==> closes - opens == 86_400,
{
}

} // verus!
