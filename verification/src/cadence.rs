//! When a task template fires.
use vstd::prelude::*;
use crate::time::{spec_iso_weekday, LocalDate};

verus! {

/// When a task template fires.
///
/// Serialised as `{"type":"daily"}`, `{"type":"weekly_days","days":[1,3,5]}`,
/// `{"type":"n_per_week","count":3}` and `{"type":"once","day_offset":12}`.
#[derive(Clone, Debug, PartialEq, Eq)]
pub enum Cadence {
    Daily,
    /// Fires on these ISO weekdays, 1 for Monday through 7 for Sunday.
    WeeklyDays { days: Vec<u8> },
    /// Floats over the ISO week: `count` sessions on days the user picks.
    NPerWeek { count: u8 },
    /// Fires once, on this day of the program.
    Once { day_offset: u32 },
}

/// A cadence as a mathematical value.
pub enum CadenceView {
    Daily,
    WeeklyDays { days: Seq<u8> },
    NPerWeek { count: u8 },
    Once { day_offset: u32 },
}

impl View for Cadence {
    type V = CadenceView;

    open spec fn view(&self) -> CadenceView {
        match self {
            Cadence::Daily => CadenceView::Daily,
            Cadence::WeeklyDays { days } => CadenceView::WeeklyDays { days: days@ },
            Cadence::NPerWeek { count } => CadenceView::NPerWeek { count: *count },
            Cadence::Once { day_offset } => CadenceView::Once { day_offset: *day_offset },
        }
    }
}

#[derive(Clone, Copy, Debug, PartialEq, Eq, Structural)]
pub enum CadenceError {
    InvalidWeekday,
    InvalidWeeklyCount,
    OnceCadenceOnStandingProgram,
}

/// Whether a cadence fires on the given program day, which falls on the given
/// ISO weekday.
pub open spec fn spec_fires_on(cadence: CadenceView, day_index: int, weekday: int) -> bool {
    match cadence {
        CadenceView::Daily => true,
        CadenceView::WeeklyDays { days } => days.contains(weekday as u8),
        CadenceView::NPerWeek { count } => count > 0,
        CadenceView::Once { day_offset } => day_offset == day_index,
    }
}

/// A cadence is valid when its weekdays are a non-empty list within 1..=7, its
/// weekly count is within 1..=7, and it is not a one-off on the standing list.
pub open spec fn spec_validate(cadence: CadenceView, is_standing: bool) -> Result<(), CadenceError> {
    match cadence {
        CadenceView::Daily => Ok(()),
        CadenceView::WeeklyDays { days } => if days.len() == 0 || exists|i: int|
            0 <= i < days.len() && !(1 <= #[trigger] days[i] <= 7) {
            Err(CadenceError::InvalidWeekday)
        } else {
            Ok(())
        },
        CadenceView::NPerWeek { count } => if !(1 <= count <= 7) {
            Err(CadenceError::InvalidWeeklyCount)
        } else {
            Ok(())
        },
        CadenceView::Once { .. } => if is_standing {
            Err(CadenceError::OnceCadenceOnStandingProgram)
        } else {
            Ok(())
        },
    }
}

pub fn contains_u8(values: &[u8], wanted: u8) -> (found: bool)
    ensures
        found == values@.contains(wanted),
{
    let mut i: usize = 0;
    while i < values.len()
        invariant
            i <= values.len(),
            forall|j: int| 0 <= j < i ==> values@[j] != wanted,
        decreases values.len() - i,
    {
        if values[i] == wanted {
            return true;
        }
        i += 1;
    }
    false
}

impl Cadence {
    pub fn fires_on(&self, day_index: u32, local_date: LocalDate) -> (fires: bool)
        ensures
            fires == spec_fires_on(self@, day_index as int, spec_iso_weekday(local_date.days_from_ce as int)),
    {
        match self {
            Cadence::Daily => true,
            Cadence::WeeklyDays { days } => contains_u8(days.as_slice(), local_date.iso_weekday()),
            Cadence::NPerWeek { count } => *count > 0,
            Cadence::Once { day_offset } => *day_offset == day_index,
        }
    }

    pub fn validate_for_program(&self, is_standing: bool) -> (result: Result<(), CadenceError>)
        ensures
            result == spec_validate(self@, is_standing),
    {
        match self {
            Cadence::Daily => Ok(()),
            Cadence::WeeklyDays { days } => {
                if days.len() == 0 {
                    return Err(CadenceError::InvalidWeekday);
                }
                let mut i: usize = 0;
                while i < days.len()
                    invariant
                        i <= days.len(),
                        self@ == (CadenceView::WeeklyDays { days: days@ }),
                        forall|j: int| 0 <= j < i ==> 1 <= #[trigger] days@[j] <= 7,
                    decreases days.len() - i,
                {
                    if days[i] < 1 || days[i] > 7 {
                        assert(!(1 <= days@[i as int] <= 7));
                        assert(self@ == CadenceView::WeeklyDays { days: days@ });
                        return Err(CadenceError::InvalidWeekday);
                    }
                    i += 1;
                }
                Ok(())
            },
            Cadence::NPerWeek { count } => {
                if *count < 1 || *count > 7 {
                    return Err(CadenceError::InvalidWeeklyCount);
                }
                Ok(())
            },
            Cadence::Once { .. } => {
                if is_standing {
                    Err(CadenceError::OnceCadenceOnStandingProgram)
                } else {
                    Ok(())
                }
            },
        }
    }

    /// The same cadence, held in a value of its own.
    pub fn duplicate(&self) -> (copy: Cadence)
        ensures
            copy@ == self@,
    {
        match self {
            Cadence::Daily => Cadence::Daily,
            Cadence::WeeklyDays { days } => Cadence::WeeklyDays { days: days.clone() },
            Cadence::NPerWeek { count } => Cadence::NPerWeek { count: *count },
            Cadence::Once { day_offset } => Cadence::Once { day_offset: *day_offset },
        }
    }

    pub fn is_floating(&self) -> (floating: bool)
        ensures
            floating == (self@ is NPerWeek),
    {
        match self {
            Cadence::NPerWeek { .. } => true,
            _ => false,
        }
    }
}

/// Whether two cadences are the same cadence.
pub fn same_cadence(a: &Cadence, b: &Cadence) -> (same: bool)
    ensures
        same == (a@ == b@),
{
    match (a, b) {
        (Cadence::Daily, Cadence::Daily) => true,
        (Cadence::WeeklyDays { days: x }, Cadence::WeeklyDays { days: y }) => {
            if x.len() != y.len() {
                assert(x@.len() != y@.len());
                return false;
            }
            let mut i: usize = 0;
            while i < x.len()
                invariant
                    i <= x.len(),
                    x.len() == y.len(),
                    a@ == (CadenceView::WeeklyDays { days: x@ }),
                    b@ == (CadenceView::WeeklyDays { days: y@ }),
                    forall|j: int| 0 <= j < i ==> x@[j] == y@[j],
                decreases x.len() - i,
            {
                if x[i] != y[i] {
                    assert(x@[i as int] != y@[i as int]);
                    assert(x@ != y@);
                    assert(a@ == CadenceView::WeeklyDays { days: x@ });
                    assert(b@ == CadenceView::WeeklyDays { days: y@ });
                    return false;
                }
                i += 1;
            }
            assert(x@ == y@);
            true
        },
        (Cadence::NPerWeek { count: x }, Cadence::NPerWeek { count: y }) => *x == *y,
        (Cadence::Once { day_offset: x }, Cadence::Once { day_offset: y }) => *x == *y,
        _ => false,
    }
}

} // verus!
