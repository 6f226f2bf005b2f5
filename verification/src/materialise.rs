//! Materialising an enrollment's days ahead of time: which days to create,
//! when the program is over, and which templates put a task on each day.
use vstd::prelude::*;
use crate::cadence::{spec_fires_on, Cadence, CadenceView};
use crate::time::{spec_iso_weekday, LocalDate};

verus! {

/// Why materialising stopped.
#[derive(Clone, Debug, PartialEq, Eq)]
pub enum MaterialiseError {
    /// A stored cadence could not be read; says what was wrong.
    InvalidCadence(String),
    DateOutOfRange,
    DayIndexOutOfRange,
}

/// What materialising reads of an enrollment.
#[derive(Clone, Copy, Debug, PartialEq, Eq, Structural)]
pub struct EnrollmentSchedule {
    pub start_date: LocalDate,
    pub materialised_through: Option<LocalDate>,
    pub is_standing: bool,
}

pub open spec fn spec_next_date(e: EnrollmentSchedule) -> LocalDate {
    match e.materialised_through {
        Some(d) => if d.days_from_ce < i32::MAX {
            LocalDate { days_from_ce: (d.days_from_ce + 1) as i32 }
        } else {
            e.start_date
        },
        None => e.start_date,
    }
}

/// The first day not yet materialised: the day after the last one, or the
/// start date when none was.
pub fn next_date_to_materialise(enrollment: &EnrollmentSchedule) -> (next: LocalDate)
    ensures
        next == spec_next_date(*enrollment),
{
    match enrollment.materialised_through {
        Some(d) => match d.next_day() {
            Some(n) => n,
            None => enrollment.start_date,
        },
        None => enrollment.start_date,
    }
}

pub open spec fn spec_day_index(start_date: LocalDate, local_date: LocalDate) -> Result<i32, MaterialiseError> {
    let days = local_date.days_from_ce as int - start_date.days_from_ce as int;
    if i32::MIN <= days <= i32::MAX {
        Ok(days as i32)
    } else {
        Err(MaterialiseError::DayIndexOutOfRange)
    }
}

/// How many days after the start date a date is.
pub fn day_index(start_date: LocalDate, local_date: LocalDate) -> (index: Result<i32, MaterialiseError>)
    ensures
        index == spec_day_index(start_date, local_date),
{
    let days: i64 = local_date.days_from_ce as i64 - start_date.days_from_ce as i64;
    if days < -2147483648 || days > 2147483647 {
        Err(MaterialiseError::DayIndexOutOfRange)
    } else {
        Ok(days as i32)
    }
}

/// A stored cadence as the JSON holds it: the `type` when it is a string,
/// `days` when it is an array (each entry when it is a non-negative
/// integer), and `count` and `day_offset` when they are non-negative
/// integers.
#[derive(Clone, Debug, PartialEq, Eq)]
pub struct StoredCadence {
    pub kind: Option<String>,
    pub days: Option<Vec<Option<u64>>>,
    pub count: Option<u64>,
    pub day_offset: Option<u64>,
}

pub struct StoredCadenceView {
    pub kind: Option<Seq<char>>,
    pub days: Option<Seq<Option<u64>>>,
    pub count: Option<u64>,
    pub day_offset: Option<u64>,
}

impl View for StoredCadence {
    type V = StoredCadenceView;

    open spec fn view(&self) -> StoredCadenceView {
        StoredCadenceView {
            kind: match self.kind {
                Some(k) => Some(k@),
                None => None,
            },
            days: match self.days {
                Some(d) => Some(d@),
                None => None,
            },
            count: self.count,
            day_offset: self.day_offset,
        }
    }
}

/// Why a stored cadence could not be read.
pub enum CadenceProblem {
    MissingType,
    MissingDays,
    InvalidWeekday,
    MissingCount,
    MissingDayOffset,
    UnknownType(Seq<char>),
}

pub open spec fn weekday_values(days: Seq<Option<u64>>) -> Seq<u8> {
    days.map_values(|d: Option<u64>| d->Some_0 as u8)
}

pub open spec fn all_weekdays_fit(days: Seq<Option<u64>>) -> bool {
    forall|i: int| 0 <= i < days.len() ==> ((#[trigger] days[i]) matches Some(d) && d <= u8::MAX)
}

/// The cadence a stored value describes, or what is wrong with it.
pub open spec fn spec_parse_cadence(c: StoredCadenceView) -> Result<CadenceView, CadenceProblem> {
    match c.kind {
        None => Err(CadenceProblem::MissingType),
        Some(k) => if k == "daily"@ {
            Ok(CadenceView::Daily)
        } else if k == "weekly_days"@ {
            match c.days {
                None => Err(CadenceProblem::MissingDays),
                Some(days) => if all_weekdays_fit(days) {
                    Ok(CadenceView::WeeklyDays { days: weekday_values(days) })
                } else {
                    Err(CadenceProblem::InvalidWeekday)
                },
            }
        } else if k == "n_per_week"@ {
            match c.count {
                Some(n) => if n <= u8::MAX {
                    Ok(CadenceView::NPerWeek { count: n as u8 })
                } else {
                    Err(CadenceProblem::MissingCount)
                },
                None => Err(CadenceProblem::MissingCount),
            }
        } else if k == "once"@ {
            match c.day_offset {
                Some(n) => if n <= u32::MAX {
                    Ok(CadenceView::Once { day_offset: n as u32 })
                } else {
                    Err(CadenceProblem::MissingDayOffset)
                },
                None => Err(CadenceProblem::MissingDayOffset),
            }
        } else {
            Err(CadenceProblem::UnknownType(k))
        },
    }
}

pub open spec fn problem_message(p: CadenceProblem) -> Seq<char> {
    match p {
        CadenceProblem::MissingType => "missing type"@,
        CadenceProblem::MissingDays => "weekly_days.days missing"@,
        CadenceProblem::InvalidWeekday => "invalid weekday"@,
        CadenceProblem::MissingCount => "n_per_week.count missing"@,
        CadenceProblem::MissingDayOffset => "once.day_offset missing"@,
        CadenceProblem::UnknownType(k) => "unknown cadence type "@ + k,
    }
}

fn invalid(message: &str) -> (e: MaterialiseError)
    ensures
        e matches MaterialiseError::InvalidCadence(m) && m@ == message@,
{
    MaterialiseError::InvalidCadence(message.to_owned())
}

fn is_named(kind: &String, name: &str) -> (same: bool)
    ensures
        same == (kind@ == name@),
{
    let chars = crate::text::chars_of(kind.as_str());
    assert(chars@.subrange(0, chars@.len() as int) == chars@);
    crate::text::range_equals(chars.as_slice(), 0, chars.len(), name)
}

/// Read a stored cadence.
pub fn parse_cadence(value: &StoredCadence) -> (cadence: Result<Cadence, MaterialiseError>)
    ensures
        match cadence {
            Ok(c) => spec_parse_cadence(value@) == Ok::<CadenceView, CadenceProblem>(c@),
            Err(e) => spec_parse_cadence(value@) matches Err(p) && e matches MaterialiseError::InvalidCadence(m) && m@
                == problem_message(p),
        },
{
    let kind = match &value.kind {
        Some(k) => k,
        None => {
            return Err(invalid("missing type"));
        },
    };
    if is_named(kind, "daily") {
        return Ok(Cadence::Daily);
    }
    if is_named(kind, "weekly_days") {
        let raw = match &value.days {
            Some(d) => d,
            None => {
                return Err(invalid("weekly_days.days missing"));
            },
        };
        let mut days: Vec<u8> = Vec::new();
        let mut i: usize = 0;
        let ghost outcome = spec_parse_cadence(value@);
        assert(outcome == (if all_weekdays_fit(raw@) {
            Ok::<CadenceView, CadenceProblem>(CadenceView::WeeklyDays { days: weekday_values(raw@) })
        } else {
            Err(CadenceProblem::InvalidWeekday)
        }));
        while i < raw.len()
            invariant
                outcome == spec_parse_cadence(value@),
                outcome == (if all_weekdays_fit(raw@) {
                    Ok::<CadenceView, CadenceProblem>(CadenceView::WeeklyDays { days: weekday_values(raw@) })
                } else {
                    Err(CadenceProblem::InvalidWeekday)
                }),
                i <= raw@.len(),
                days@.len() == i,
                forall|j: int| 0 <= j < i ==> ((#[trigger] raw@[j]) matches Some(d) && d <= u8::MAX && days@[j] == d as u8),
            decreases raw.len() - i,
        {
            match raw[i] {
                Some(d) => {
                    if d > 255 {
                        assert(!all_weekdays_fit(raw@));
                        return Err(invalid("invalid weekday"));
                    }
                    days.push(d as u8);
                },
                None => {
                    assert(!all_weekdays_fit(raw@));
                    return Err(invalid("invalid weekday"));
                },
            }
            i += 1;
        }
        assert(days@ =~= weekday_values(raw@));
        let c = Cadence::WeeklyDays { days };
        return Ok(c);
    }
    if is_named(kind, "n_per_week") {
        return match value.count {
            Some(n) => if n <= 255 {
                Ok(Cadence::NPerWeek { count: n as u8 })
            } else {
                Err(invalid("n_per_week.count missing"))
            },
            None => Err(invalid("n_per_week.count missing")),
        };
    }
    if is_named(kind, "once") {
        return match value.day_offset {
            Some(n) => if n <= 4294967295 {
                Ok(Cadence::Once { day_offset: n as u32 })
            } else {
                Err(invalid("once.day_offset missing"))
            },
            None => Err(invalid("once.day_offset missing")),
        };
    }
    let mut message = String::new();
    crate::text::append(&mut message, "unknown cadence type ");
    crate::text::append(&mut message, kind.as_str());
    Err(MaterialiseError::InvalidCadence(message))
}

/// The days to create from `cursor` through `target`, each with its index,
/// and whether the run reached the end of a bounded program; an unreadable
/// index or an unrepresentable next day is an error.
pub open spec fn plan_from(
    cursor: LocalDate,
    target: LocalDate,
    e: EnrollmentSchedule,
    duration_days: Option<i32>,
) -> Result<(Seq<(LocalDate, i32)>, bool), MaterialiseError>
    decreases target.days_from_ce - cursor.days_from_ce + 1,
{
    if cursor.days_from_ce > target.days_from_ce {
        Ok((Seq::<(LocalDate, i32)>::empty(), false))
    } else {
        match spec_day_index(e.start_date, cursor) {
            Err(err) => Err(err),
            Ok(index) => if !e.is_standing && (duration_days matches Some(d) && index >= d) {
                Ok((Seq::<(LocalDate, i32)>::empty(), true))
            } else if cursor.days_from_ce == i32::MAX {
                Err(MaterialiseError::DateOutOfRange)
            } else {
                match plan_from(
                    LocalDate { days_from_ce: (cursor.days_from_ce + 1) as i32 },
                    target,
                    e,
                    duration_days,
                ) {
                    Err(err) => Err(err),
                    Ok((rest, done)) => Ok((seq![(cursor, index)] + rest, done)),
                }
            },
        }
    }
}

/// What one materialising run does for an enrollment.
#[derive(Clone, Debug, PartialEq, Eq)]
pub struct MaterialisePlan {
    /// The days to create, in order, with their index.
    pub days: Vec<(LocalDate, i32)>,
    /// Whether the bounded program is over and the enrollment completes.
    pub completes: bool,
}

/// Days are materialised up to two days past today.
pub open spec fn spec_materialise_plan(today: LocalDate, e: EnrollmentSchedule, duration_days: Option<i32>) -> Result<
    (Seq<(LocalDate, i32)>, bool),
    MaterialiseError,
> {
    if today.days_from_ce > i32::MAX - 2 {
        Err(MaterialiseError::DateOutOfRange)
    } else {
        plan_from(spec_next_date(e), LocalDate { days_from_ce: (today.days_from_ce + 2) as i32 }, e, duration_days)
    }
}

pub fn materialise_plan(today: LocalDate, enrollment: &EnrollmentSchedule, duration_days: Option<i32>) -> (plan: Result<
    MaterialisePlan,
    MaterialiseError,
>)
    ensures
        match plan {
            Ok(p) => spec_materialise_plan(today, *enrollment, duration_days) == Ok::<
                (Seq<(LocalDate, i32)>, bool),
                MaterialiseError,
            >((p.days@, p.completes)),
            Err(e) => spec_materialise_plan(today, *enrollment, duration_days) == Err::<
                (Seq<(LocalDate, i32)>, bool),
                MaterialiseError,
            >(e),
        },
{
    if today.days_from_ce > i32::MAX - 2 {
        return Err(MaterialiseError::DateOutOfRange);
    }
    let target = LocalDate { days_from_ce: today.days_from_ce + 2 };
    let mut cursor = next_date_to_materialise(enrollment);
    let ghost whole = plan_from(cursor, target, *enrollment, duration_days);
    let mut days: Vec<(LocalDate, i32)> = Vec::new();
    let mut completes = false;
    loop
        invariant_except_break
            !completes,
        invariant
            whole == plan_from(spec_next_date(*enrollment), target, *enrollment, duration_days),
            today.days_from_ce <= i32::MAX - 2,
            target == (LocalDate { days_from_ce: (today.days_from_ce + 2) as i32 }),
            match plan_from(cursor, target, *enrollment, duration_days) {
                Ok((rest, done)) => whole == Ok::<(Seq<(LocalDate, i32)>, bool), MaterialiseError>(
                    (days@ + rest, done),
                ),
                Err(err) => whole == Err::<(Seq<(LocalDate, i32)>, bool), MaterialiseError>(err),
            },
        ensures
            whole == Ok::<(Seq<(LocalDate, i32)>, bool), MaterialiseError>((days@, completes)),
        decreases target.days_from_ce - cursor.days_from_ce + 1,
    {
        if cursor.days_from_ce > target.days_from_ce {
            assert(days@ + Seq::<(LocalDate, i32)>::empty() == days@);
            break;
        }
        let index = match day_index(enrollment.start_date, cursor) {
            Ok(i) => i,
            Err(e) => {
                return Err(e);
            },
        };
        let over = match duration_days {
            Some(d) => index >= d,
            None => false,
        };
        if !enrollment.is_standing && over {
            completes = true;
            assert(days@ + Seq::<(LocalDate, i32)>::empty() == days@);
            break;
        }
        if cursor.days_from_ce == i32::MAX {
            return Err(MaterialiseError::DateOutOfRange);
        }
        let ghost before = days@;
        days.push((cursor, index));
        cursor = LocalDate { days_from_ce: cursor.days_from_ce + 1 };
        proof {
            match plan_from(cursor, target, *enrollment, duration_days) {
                Ok((rest, done)) => {
                    assert(before + (seq![(days@.last().0, days@.last().1)] + rest) == days@ + rest);
                },
                Err(_) => {},
            }
        }
    }
    Ok(MaterialisePlan { days, completes })
}

/// The templates that put a task on a day, in order, with whether the task
/// floats within its week.
pub open spec fn spec_firing(cadences: Seq<CadenceView>, index: i32, date: LocalDate) -> Seq<(int, bool)>
    decreases cadences.len(),
{
    if cadences.len() == 0 {
        Seq::<(int, bool)>::empty()
    } else {
        let prev = spec_firing(cadences.drop_last(), index, date);
        let c = cadences.last();
        if spec_fires_on(c, index as u32 as int, spec_iso_weekday(date.days_from_ce as int)) {
            prev.push((cadences.len() - 1, c is NPerWeek))
        } else {
            prev
        }
    }
}

pub open spec fn cadence_views(cadences: Seq<Cadence>) -> Seq<CadenceView> {
    cadences.map_values(|c: Cadence| c@)
}

/// Which templates fire on a materialised day.
pub fn firing_templates(cadences: &[Cadence], index: i32, date: LocalDate) -> (firing: Vec<(usize, bool)>)
    ensures
        firing@.map_values(|f: (usize, bool)| (f.0 as int, f.1)) == spec_firing(cadence_views(cadences@), index, date),
{
    let ghost all = cadence_views(cadences@);
    let mut firing: Vec<(usize, bool)> = Vec::new();
    let mut i: usize = 0;
    while i < cadences.len()
        invariant
            i <= cadences@.len(),
            all == cadence_views(cadences@),
            firing@.map_values(|f: (usize, bool)| (f.0 as int, f.1)) == spec_firing(all.take(i as int), index, date),
        decreases cadences.len() - i,
    {
        let ghost before = firing@;
        assert(all.take(i + 1).drop_last() == all.take(i as int));
        assert(all.take(i + 1).last() == cadences@[i as int]@);
        if cadences[i].fires_on(index as u32, date) {
            firing.push((i, cadences[i].is_floating()));
            assert(firing@.map_values(|f: (usize, bool)| (f.0 as int, f.1)) =~= before.map_values(
                |f: (usize, bool)| (f.0 as int, f.1),
            ).push((i as int, cadences@[i as int]@ is NPerWeek)));
        }
        i += 1;
    }
    assert(all.take(cadences@.len() as int) == all);
    firing
}

/// A bounded program's run stops at its duration: every planned day's index
/// is below it, and the indexes count up one day at a time.
pub proof fn lemma_plan_stays_within_duration(
    cursor: LocalDate,
    target: LocalDate,
    e: EnrollmentSchedule,
    duration_days: Option<i32>,
)
    ensures
        plan_from(cursor, target, e, duration_days) matches Ok((days, _)) ==> {
            &&& forall|k: int|
                0 <= k < days.len() ==> (!e.is_standing && duration_days is Some ==> (#[trigger] days[k]).1 < duration_days->Some_0)
            &&& forall|k: int|
                0 <= k < days.len() ==> (#[trigger] days[k]).0.days_from_ce == cursor.days_from_ce + k
                    && days[k].1 == days[k].0.days_from_ce - e.start_date.days_from_ce
        },
    decreases target.days_from_ce - cursor.days_from_ce + 1,
{
    if cursor.days_from_ce <= target.days_from_ce && cursor.days_from_ce < i32::MAX {
        let next = LocalDate { days_from_ce: (cursor.days_from_ce + 1) as i32 };
        lemma_plan_stays_within_duration(next, target, e, duration_days);
        if let Ok((days, _)) = plan_from(cursor, target, e, duration_days) {
            if let Ok(index) = spec_day_index(e.start_date, cursor) {
                if !(!e.is_standing && (duration_days matches Some(d) && index >= d)) {
                    let rest = plan_from(next, target, e, duration_days)->Ok_0.0;
                    assert forall|k: int| 0 <= k < days.len() implies (#[trigger] days[k]).0.days_from_ce
                        == cursor.days_from_ce + k && days[k].1 == days[k].0.days_from_ce - e.start_date.days_from_ce by {
                        if k > 0 {
                            assert(days[k] == rest[k - 1]);
                        }
                    }
                    assert(days[0] == (cursor, index));
                    assert forall|k: int| 0 <= k < days.len() implies (!e.is_standing && duration_days is Some
                        ==> (#[trigger] days[k]).1 < duration_days->Some_0) by {
                        if k > 0 {
                            assert(days[k] == rest[k - 1]);
                        }
                    }
                }
            }
        }
    }
}

} // verus!
