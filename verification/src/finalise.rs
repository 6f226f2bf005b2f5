//! Settling a day: its score decides its status, the status steps the
//! streak, and both are turned into what is written back.
use vstd::prelude::*;
use crate::records::{DayStatus as StoredDayStatus, NewStreakState, StreakState as StoredStreakState, StreakStateRow};
use crate::scoring::{
    day_score, day_score_within, spec_day_score, spec_status_from_score, status_from_score, DayStatus,
    DAY_SCORE_EXACT_LIMIT,
};
use crate::streak::{spec_step, step, step_fits, DayOutcome, Streak, StreakState};
use crate::time::{civil_year_month, year_month, LocalDate};

verus! {

#[derive(Clone, Copy, Debug, PartialEq, Eq, Structural)]
pub enum FinaliseError {
    /// A stored counter did not fit the domain type, or the other way round.
    IntegerConversion,
}

pub fn i32_to_u32(value: i32) -> (result: Result<u32, FinaliseError>)
    ensures
        value >= 0 ==> result == Ok::<u32, FinaliseError>(value as u32),
        value < 0 ==> result == Err::<u32, FinaliseError>(FinaliseError::IntegerConversion),
{
    if value < 0 {
        Err(FinaliseError::IntegerConversion)
    } else {
        Ok(value as u32)
    }
}

pub fn u32_to_i32(value: u32) -> (result: Result<i32, FinaliseError>)
    ensures
        value <= i32::MAX ==> result == Ok::<i32, FinaliseError>(value as i32),
        value > i32::MAX ==> result == Err::<i32, FinaliseError>(FinaliseError::IntegerConversion),
{
    if value > i32::MAX as u32 {
        Err(FinaliseError::IntegerConversion)
    } else {
        Ok(value as i32)
    }
}

pub fn i16_to_u8(value: i16) -> (result: Result<u8, FinaliseError>)
    ensures
        0 <= value <= u8::MAX ==> result == Ok::<u8, FinaliseError>(value as u8),
        !(0 <= value <= u8::MAX) ==> result == Err::<u8, FinaliseError>(FinaliseError::IntegerConversion),
{
    if value < 0 || value > 255 {
        Err(FinaliseError::IntegerConversion)
    } else {
        Ok(value as u8)
    }
}

pub fn u8_to_i16(value: u8) -> (wide: i16)
    ensures
        wide == value,
{
    value as i16
}

pub open spec fn spec_outcome(status: DayStatus) -> DayOutcome {
    match status {
        DayStatus::Complete => DayOutcome::Complete,
        DayStatus::Partial => DayOutcome::Partial,
        DayStatus::Missed => DayOutcome::Missed,
        DayStatus::Rest => DayOutcome::Rest,
    }
}

/// The streak outcome a scored day counts as.
pub fn outcome_from_core_status(status: DayStatus) -> (outcome: DayOutcome)
    ensures
        outcome == spec_outcome(status),
{
    match status {
        DayStatus::Complete => DayOutcome::Complete,
        DayStatus::Partial => DayOutcome::Partial,
        DayStatus::Missed => DayOutcome::Missed,
        DayStatus::Rest => DayOutcome::Rest,
    }
}

pub open spec fn spec_stored_status(status: DayStatus, rewritten: Option<DayOutcome>) -> StoredDayStatus {
    if rewritten == Some(DayOutcome::Rest) {
        StoredDayStatus::Frozen
    } else {
        match status {
            DayStatus::Complete => StoredDayStatus::Complete,
            DayStatus::Partial => StoredDayStatus::Partial,
            DayStatus::Missed => StoredDayStatus::Missed,
            DayStatus::Rest => StoredDayStatus::Rest,
        }
    }
}

/// The status written for a day: a miss that a freeze rewrote into a rest
/// day is stored as frozen, so the record stays honest about it.
pub fn stored_day_status(status: DayStatus, rewritten: Option<DayOutcome>) -> (stored: StoredDayStatus)
    ensures
        stored == spec_stored_status(status, rewritten),
{
    if matches!(rewritten, Some(DayOutcome::Rest)) {
        return StoredDayStatus::Frozen;
    }
    match status {
        DayStatus::Complete => StoredDayStatus::Complete,
        DayStatus::Partial => StoredDayStatus::Partial,
        DayStatus::Missed => StoredDayStatus::Missed,
        DayStatus::Rest => StoredDayStatus::Rest,
    }
}

pub open spec fn spec_core_state(state: StoredStreakState) -> StreakState {
    match state {
        StoredStreakState::Active => StreakState::Active,
        StoredStreakState::AtRisk => StreakState::AtRisk,
        StoredStreakState::Repairable => StreakState::Repairable,
        StoredStreakState::Broken => StreakState::Broken,
    }
}

pub open spec fn spec_stored_state(state: StreakState) -> StoredStreakState {
    match state {
        StreakState::Active => StoredStreakState::Active,
        StreakState::AtRisk => StoredStreakState::AtRisk,
        StreakState::Repairable => StoredStreakState::Repairable,
        StreakState::Broken => StoredStreakState::Broken,
    }
}

pub fn core_streak_state(state: StoredStreakState) -> (core: StreakState)
    ensures
        core == spec_core_state(state),
{
    match state {
        StoredStreakState::Active => StreakState::Active,
        StoredStreakState::AtRisk => StreakState::AtRisk,
        StoredStreakState::Repairable => StreakState::Repairable,
        StoredStreakState::Broken => StreakState::Broken,
    }
}

pub fn db_streak_state(state: StreakState) -> (stored: StoredStreakState)
    ensures
        stored == spec_stored_state(state),
{
    match state {
        StreakState::Active => StoredStreakState::Active,
        StreakState::AtRisk => StoredStreakState::AtRisk,
        StreakState::Repairable => StoredStreakState::Repairable,
        StreakState::Broken => StoredStreakState::Broken,
    }
}

/// Every stored streak state reads back as itself.
pub proof fn lemma_streak_state_round_trip(state: StreakState, stored: StoredStreakState)
    ensures
        spec_core_state(spec_stored_state(state)) == state,
        spec_stored_state(spec_core_state(stored)) == stored,
{
}

/// Whether every stored counter fits the domain type.
pub open spec fn row_fits(row: StreakStateRow) -> bool {
    &&& row.current >= 0
    &&& row.longest >= 0
    &&& 0 <= row.freezes <= u8::MAX
    &&& 0 <= row.clean_run <= u8::MAX
}

pub open spec fn spec_streak_of(row: StreakStateRow) -> Streak {
    Streak {
        current: row.current as u32,
        longest: row.longest as u32,
        freezes: row.freezes as u8,
        clean_run: row.clean_run as u8,
        state: spec_core_state(row.state),
    }
}

/// The domain streak a stored row holds; a negative or oversized counter is
/// refused rather than wrapped.
pub fn streak_from_row(row: &StreakStateRow) -> (result: Result<Streak, FinaliseError>)
    ensures
        row_fits(*row) ==> result == Ok::<Streak, FinaliseError>(spec_streak_of(*row)),
        !row_fits(*row) ==> result == Err::<Streak, FinaliseError>(FinaliseError::IntegerConversion),
{
    let current = match i32_to_u32(row.current) {
        Ok(v) => v,
        Err(e) => {
            return Err(e);
        },
    };
    let longest = match i32_to_u32(row.longest) {
        Ok(v) => v,
        Err(e) => {
            return Err(e);
        },
    };
    let freezes = match i16_to_u8(row.freezes) {
        Ok(v) => v,
        Err(e) => {
            return Err(e);
        },
    };
    let clean_run = match i16_to_u8(row.clean_run) {
        Ok(v) => v,
        Err(e) => {
            return Err(e);
        },
    };
    Ok(Streak { current, longest, freezes, clean_run, state: core_streak_state(row.state) })
}

/// Whether a streak fits the stored columns.
pub open spec fn streak_fits(streak: Streak) -> bool {
    streak.current <= i32::MAX && streak.longest <= i32::MAX
}

/// The row to write back after a day on `local_date` was counted.
pub fn new_streak_state(
    enrollment_id: uuid::Uuid,
    local_date: LocalDate,
    streak: &Streak,
    repair_used_month: Option<LocalDate>,
) -> (result: Result<NewStreakState, FinaliseError>)
    ensures
        streak_fits(*streak) ==> (result matches Ok(row) && row.enrollment_id == enrollment_id && row.current
            == streak.current && row.longest == streak.longest && row.freezes == streak.freezes && row.clean_run
            == streak.clean_run && row.last_counted_date == Some(local_date) && row.repair_used_month
            == repair_used_month && row.state == spec_stored_state(streak.state)),
        !streak_fits(*streak) ==> result == Err::<NewStreakState, FinaliseError>(FinaliseError::IntegerConversion),
{
    let current = match u32_to_i32(streak.current) {
        Ok(v) => v,
        Err(e) => {
            return Err(e);
        },
    };
    let longest = match u32_to_i32(streak.longest) {
        Ok(v) => v,
        Err(e) => {
            return Err(e);
        },
    };
    Ok(
        NewStreakState {
            enrollment_id,
            current,
            longest,
            freezes: u8_to_i16(streak.freezes),
            clean_run: u8_to_i16(streak.clean_run),
            last_counted_date: Some(local_date),
            repair_used_month,
            state: db_streak_state(streak.state),
        },
    )
}

/// A repair may be used once per calendar month: it is available unless the
/// last one was used in the same year and month as `local_date`.
pub open spec fn spec_repair_available(repair_used_month: Option<LocalDate>, local_date: LocalDate) -> bool {
    match repair_used_month {
        None => true,
        Some(used) => !(civil_year_month(used.days_from_ce as int) is Some && civil_year_month(used.days_from_ce as int)
            == civil_year_month(local_date.days_from_ce as int)),
    }
}

pub fn repair_available(streak: &StreakStateRow, local_date: LocalDate) -> (available: bool)
    ensures
        available == spec_repair_available(streak.repair_used_month, local_date),
{
    match streak.repair_used_month {
        None => true,
        Some(used) => {
            let used_ym = year_month(used);
            let day_ym = year_month(local_date);
            match (used_ym, day_ym) {
                (Some((uy, um)), Some((dy, dm))) => uy != dy || um != dm,
                _ => true,
            }
        },
    }
}

/// How a day settles: the status stored for it and the streak after it.
#[derive(Clone, Debug, PartialEq, Eq, Structural)]
pub struct Settlement {
    pub status: StoredDayStatus,
    pub streak: Streak,
}

/// How a day with this score settles.
pub open spec fn spec_settle_scored(before: Streak, score: int, rest_declared: bool) -> Settlement {
    let status = spec_status_from_score(score, rest_declared);
    let (after, rewritten) = spec_step(before, spec_outcome(status));
    Settlement { status: spec_stored_status(status, rewritten), streak: after }
}

/// How a day settles with the score `spec_day_score` gives it.
pub open spec fn spec_settle(before: Streak, earned_points: i32, available_points: i32, rest_declared: bool) -> Settlement {
    spec_settle_scored(before, spec_day_score(earned_points as int, available_points as int), rest_declared)
}

/// Every score the day can receive steps the streak without overflow.
pub open spec fn settle_fits(before: Streak, earned_points: i32, available_points: i32, rest_declared: bool) -> bool {
    forall|score: int|
        #[trigger] day_score_within(earned_points as int, available_points as int, score) ==> step_fits(
            before,
            spec_outcome(spec_status_from_score(score, rest_declared)),
        )
}

/// Settle a finalised day: score it, step the streak with its outcome, and
/// store a freeze-absorbed miss as frozen.
pub fn settle_day(before: &Streak, earned_points: i32, available_points: i32, rest_declared: bool) -> (settlement: Settlement)
    requires
        settle_fits(*before, earned_points, available_points, rest_declared),
    ensures
        exists|score: int|
            #[trigger] day_score_within(earned_points as int, available_points as int, score) && settlement
                == spec_settle_scored(*before, score, rest_declared),
        available_points <= DAY_SCORE_EXACT_LIMIT ==> settlement == spec_settle(
            *before,
            earned_points,
            available_points,
            rest_declared,
        ),
{
    let score = day_score(earned_points, available_points);
    let status = status_from_score(score, rest_declared);
    let outcome = outcome_from_core_status(status);
    let (after, rewritten) = step(before, outcome);
    let settlement = Settlement { status: stored_day_status(status, rewritten), streak: after };
    assert(day_score_within(earned_points as int, available_points as int, score as int));
    assert(settlement == spec_settle_scored(*before, score as int, rest_declared));
    settlement
}

/// For a streak with no freeze waiting to be banked (as every stepped streak
/// is), a declared rest day is stored as rest and leaves the streak as it
/// was; and a day is stored as frozen exactly when it scored as a miss and a banked
/// freeze absorbed it, which spends that freeze.
pub proof fn lemma_settle_rest_and_freeze(before: Streak, score: int, rest_declared: bool)
    requires
        before.clean_run < crate::streak::CLEAN_RUN_FOR_FREEZE || before.freezes >= crate::streak::MAX_FREEZES,
    ensures
        ({
            let s = spec_settle_scored(before, score, rest_declared);
            let status = spec_status_from_score(score, rest_declared);
            &&& rest_declared ==> s.status == StoredDayStatus::Rest && s.streak == before
            &&& (s.status == StoredDayStatus::Frozen) <==> (status == DayStatus::Missed && before.freezes > 0)
            &&& s.status == StoredDayStatus::Frozen ==> s.streak.freezes == before.freezes - 1
        }),
{
}

} // verus!
