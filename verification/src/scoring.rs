//! Points, day scores and day statuses.
use vstd::prelude::*;

verus! {

/// How a finalised day is classified from its score.
#[derive(Clone, Copy, Debug, PartialEq, Eq, Structural)]
pub enum DayStatus {
    Complete,
    Partial,
    Missed,
    Rest,
}

/// Base points for each difficulty from one to five.
pub open spec fn base_points(difficulty: int) -> int {
    if difficulty <= 1 {
        10
    } else if difficulty == 2 {
        15
    } else if difficulty == 3 {
        25
    } else if difficulty == 4 {
        40
    } else {
        60
    }
}

/// `numerator / denominator` rounded to the nearest integer, halves away from zero,
/// for a positive denominator.
pub open spec fn round_div(numerator: int, denominator: int) -> int
    recommends
        denominator > 0,
{
    if numerator >= 0 {
        (2 * numerator + denominator) / (2 * denominator)
    } else {
        -((-2 * numerator + denominator) / (2 * denominator))
    }
}

/// The three tasks whose weighted points land exactly on a half and round
/// down: difficulty 2 at 96 or 100 minutes and difficulty 3 at 96 minutes. The
/// weight `0.5 + minutes / 60` is taken in single precision, and for these
/// three the product falls just below the half.
pub open spec fn task_half_rounds_down(difficulty: int, minutes: int) -> bool {
    ||| difficulty == 2 && (minutes == 96 || minutes == 100)
    ||| difficulty == 3 && minutes == 96
}

/// Points of a task: its difficulty's base points, weighted by
/// `0.5 + minutes / 60` clamped to `[0.5, 2.5]`, rounded to the nearest point,
/// halves up but for the three that `task_half_rounds_down` names.
pub open spec fn spec_task_points(difficulty: int, estimated_minutes: int) -> int {
    let minutes = if estimated_minutes > 120 { 120 } else { estimated_minutes };
    let weighted = base_points(difficulty) * (30 + minutes);
    if task_half_rounds_down(difficulty, minutes) {
        weighted / 60
    } else {
        round_div(weighted, 60)
    }
}

pub fn task_points(difficulty: u8, estimated_minutes: u16) -> (points: i32)
    ensures
        points == spec_task_points(difficulty as int, estimated_minutes as int),
        5 <= points <= 150,
{
    let base: u32 = if difficulty <= 1 {
        10
    } else if difficulty == 2 {
        15
    } else if difficulty == 3 {
        25
    } else if difficulty == 4 {
        40
    } else {
        60
    };
    let minutes: u32 = if estimated_minutes > 120 { 120 } else { estimated_minutes as u32 };
    let weighted: u32 = base * (30 + minutes);
    assert(weighted <= 60 * 150) by (nonlinear_arith)
        requires
            base <= 60,
            minutes <= 120,
            weighted == base * (30 + minutes),
    ;
    assert(weighted >= 300) by (nonlinear_arith)
        requires
            base >= 10,
            weighted == base * (30 + minutes),
    ;
    let points = if (difficulty == 2 && (minutes == 96 || minutes == 100)) || (difficulty == 3 && minutes
        == 96) {
        weighted / 60
    } else {
        (2 * weighted + 60) / 120
    };
    points as i32
}


/// Whether `numerator / denominator` sits exactly halfway between two whole
/// numbers whose lower one is 26, 29, 52 or 58. The score is taken as a
/// single-precision quotient times one hundred, and for these four halves that
/// product falls just below the half, so it rounds down; every other half
/// rounds up.
pub open spec fn score_half_rounds_down(numerator: int, denominator: int) -> bool {
    let lower = numerator / denominator;
    &&& (2 * numerator) % denominator == 0
    &&& ((2 * numerator) / denominator) % 2 == 1
    &&& (lower == 26 || lower == 29 || lower == 52 || lower == 58)
}

/// A day's score: earned over available as a whole percentage, rounded to the
/// nearest point (halves up but for the four that `score_half_rounds_down`
/// names) and clamped to `[0, 100]`; zero when nothing was available.
pub open spec fn spec_day_score(earned_points: int, available_points: int) -> int {
    if available_points <= 0 {
        0
    } else {
        let earned = if earned_points < 0 { 0 } else { earned_points };
        let score = if score_half_rounds_down(earned * 100, available_points) {
            (earned * 100) / available_points
        } else {
            round_div(earned * 100, available_points)
        };
        if score > 100 { 100 } else { score }
    }
}

/// Up to this many available points a day's score is exactly `spec_day_score`.
/// Above it the single-precision quotient can carry a score that lies a few
/// hundred-thousandths from a half over to the other side of it: the first
/// such day has 48942 of 73597 points.
pub const DAY_SCORE_EXACT_LIMIT: i32 = 70000;

/// The scores a day with these points can receive: exactly `spec_day_score` up
/// to `DAY_SCORE_EXACT_LIMIT` available points, and within one point of it
/// beyond, always in `[0, 100]`.
pub open spec fn day_score_within(earned_points: int, available_points: int, score: int) -> bool {
    let exact = spec_day_score(earned_points, available_points);
    &&& 0 <= score <= 100
    &&& available_points <= DAY_SCORE_EXACT_LIMIT ==> score == exact
    &&& exact - 1 <= score <= exact + 1
}

pub fn day_score(earned_points: i32, available_points: i32) -> (score: u8)
    ensures
        day_score_within(earned_points as int, available_points as int, score as int),
        available_points <= DAY_SCORE_EXACT_LIMIT ==> score == spec_day_score(
            earned_points as int,
            available_points as int,
        ),
{
    if available_points <= 0 {
        return 0;
    }
    let earned: i64 = if earned_points < 0 { 0 } else { earned_points as i64 };
    let available: i64 = available_points as i64;
    assert(0 <= earned * 100 <= 100 * 0x7fff_ffff) by (nonlinear_arith)
        requires
            0 <= earned <= 0x7fff_ffff,
    ;
    let n: i64 = earned * 100;
    let lower: i64 = n / available;
    let score: i64 = if (2 * n) % available == 0 && ((2 * n) / available) % 2 == 1
        && (lower == 26 || lower == 29 || lower == 52 || lower == 58) {
        lower
    } else {
        (2 * n + available) / (2 * available)
    };
    assert(score >= 0) by (nonlinear_arith)
        requires
            n >= 0,
            available > 0,
            score == (2 * n + available) / (2 * available) || score == n / available,
    ;
    if score > 100 {
        100
    } else {
        score as u8
    }
}

/// The status a score earns: a declared rest day is always `Rest`; otherwise 80
/// and above is complete, 50 to 79 partial, and below 50 missed.
pub open spec fn spec_status_from_score(score: int, declared_rest: bool) -> DayStatus {
    if declared_rest {
        DayStatus::Rest
    } else if 80 <= score {
        DayStatus::Complete
    } else if 50 <= score {
        DayStatus::Partial
    } else {
        DayStatus::Missed
    }
}

pub fn status_from_score(score: u8, declared_rest: bool) -> (status: DayStatus)
    ensures
        status == spec_status_from_score(score as int, declared_rest),
{
    if declared_rest {
        return DayStatus::Rest;
    }
    if score >= 80 {
        DayStatus::Complete
    } else if score >= 50 {
        DayStatus::Partial
    } else {
        DayStatus::Missed
    }
}

/// A harder task never earns fewer points than an easier one of the same
/// length, and a longer task never fewer than a shorter one of the same
/// difficulty.
pub proof fn lemma_task_points_monotone(d1: int, m1: int, d2: int, m2: int)
    requires
        d1 <= d2,
        0 <= m1 <= m2,
    ensures
        spec_task_points(d1, m1) <= spec_task_points(d2, m2),
{
    let w1 = if m1 > 120 { 120 } else { m1 };
    let w2 = if m2 > 120 { 120 } else { m2 };
    let b1 = base_points(d1);
    let b2 = base_points(d2);
    assert(b1 <= b2);
    assert(b1 * (30 + w1) <= b2 * (30 + w2)) by (nonlinear_arith)
        requires
            0 <= b1 <= b2,
            0 <= w1 <= w2,
    ;
    let x1 = b1 * (30 + w1);
    let x2 = b2 * (30 + w2);
    assert(x1 >= 0) by (nonlinear_arith)
        requires
            b1 >= 0,
            w1 >= 0,
            x1 == b1 * (30 + w1),
    ;
    assert((2 * x1 + 60) / 120 <= (2 * x2 + 60) / 120) by (nonlinear_arith)
        requires
            0 <= x1 <= x2,
    ;
    assert(x1 / 60 <= x2 / 60) by (nonlinear_arith)
        requires
            0 <= x1 <= x2,
    ;
    assert(x1 / 60 <= (2 * x1 + 60) / 120) by (nonlinear_arith)
        requires
            0 <= x1,
    ;
    assert(x2 / 60 <= (2 * x2 + 60) / 120) by (nonlinear_arith)
        requires
            0 <= x2,
    ;
    if task_half_rounds_down(d2, w2) && !task_half_rounds_down(d1, w1) {
        if x1 == x2 {
            assert(b1 == b2 && w1 == w2) by (nonlinear_arith)
                requires
                    0 < b1 <= b2,
                    0 <= w1 <= w2,
                    b1 * (30 + w1) == b2 * (30 + w2),
            ;
        } else {
            assert((2 * x1 + 60) / 120 <= x2 / 60) by (nonlinear_arith)
                requires
                    0 <= x1 < x2,
                    (2 * x2) % 120 == 60,
            ;
        }
    }
}

} // verus!
