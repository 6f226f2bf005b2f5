use chrono::{Datelike, NaiveDate, TimeZone as _, Utc};
use tracking::artifact::{compile, ArtifactError, Cell, DaySummary};
use tracking::cadence::{Cadence, CadenceError};
use tracking::calendar::{day_window, enrollment_today, CalendarError};
use tracking::notify::{plan, Candidate, Dropped, NotificationKind, Plan, QuietHours, MAX_PER_24_HOURS};
use tracking::scoring::{day_score, status_from_score, task_points, DayStatus};
use tracking::stats::{completion_rate, consistency, momentum, totals, DayTotals, WeekTotals};
use tracking::streak::{fold, fold_from, step, DayOutcome, Streak, StreakState};
use tracking::time::{iso_week_of, year_month, IsoWeek, LocalDate, TimeZone};
use tracking::weekly::{day_available_points, day_earned_points, InstancePoints, WeekBucket, WeeklyError};

fn date(year: i32, month: u32, day: u32) -> LocalDate {
    LocalDate::from_days(NaiveDate::from_ymd_opt(year, month, day).expect("test date is valid").num_days_from_ce())
}

fn utc_at(year: i32, month: u32, day: u32, hour: u32, minute: u32) -> i64 {
    Utc.with_ymd_and_hms(year, month, day, hour, minute, 0).single().expect("test instant is valid").timestamp()
}

fn zone(name: &str) -> TimeZone {
    TimeZone::named(name).expect("test zone is known")
}

// --- scoring ----------------------------------------------------------------

#[test]
fn computes_task_points_from_prd_formula() {
    assert_eq!(task_points(1, 0), 5);
    assert_eq!(task_points(1, 30), 10);
    assert_eq!(task_points(3, 60), 38);
    assert_eq!(task_points(5, 480), 150);
}

#[test]
fn clamps_invalid_difficulty() {
    assert_eq!(task_points(0, 30), task_points(1, 30));
    assert_eq!(task_points(6, 30), task_points(5, 30));
}

#[test]
fn derives_day_score_and_status() {
    assert_eq!(day_score(4, 5), 80);
    assert_eq!(status_from_score(80, false), DayStatus::Complete);
    assert_eq!(status_from_score(79, false), DayStatus::Partial);
    assert_eq!(status_from_score(49, false), DayStatus::Missed);
    assert_eq!(status_from_score(100, true), DayStatus::Rest);
}

#[test]
fn task_points_round_half_away_from_zero() {
    // Difficulty 2 is 15 base points: 15 * (30 + 30) / 60 = 15 exactly,
    // 15 * (30 + 4) / 60 = 8.5 and 15 * (30 + 40) / 60 = 17.5.
    assert_eq!(task_points(2, 30), 15);
    assert_eq!(task_points(2, 4), 9);
    assert_eq!(task_points(2, 40), 18);
    // Minutes past two hours count as two hours.
    assert_eq!(task_points(5, 120), task_points(5, 480));
}

#[test]
fn task_points_follow_single_precision_at_three_halves() {
    // 15 * 126 / 60 = 31.5, 15 * 130 / 60 = 32.5 and 25 * 126 / 60 = 52.5
    // land just below the half and round down; neighbouring halves round up.
    assert_eq!(task_points(2, 96), 31);
    assert_eq!(task_points(2, 100), 32);
    assert_eq!(task_points(3, 96), 52);
    assert_eq!(task_points(2, 97), 32);
    assert_eq!(task_points(3, 60), 38);
}

#[test]
fn day_scores_round_four_halves_down() {
    assert_eq!(day_score(53, 200), 26);
    assert_eq!(day_score(59, 200), 29);
    assert_eq!(day_score(21, 40), 52);
    assert_eq!(day_score(117, 200), 58);
    assert_eq!(day_score(1, 8), 13);
    assert_eq!(day_score(113, 200), 57);
}

#[test]
fn a_day_with_nothing_available_scores_zero() {
    assert_eq!(day_score(10, 0), 0);
    assert_eq!(day_score(7, 5), 100);
    assert_eq!(status_from_score(50, false), DayStatus::Partial);
}

// --- stats ------------------------------------------------------------------

#[test]
fn completion_rate_distinguishes_nothing_from_zero() {
    assert_eq!(completion_rate(0, 0), None);
    assert_eq!(completion_rate(0, 40), Some(0));
    assert_eq!(completion_rate(20, 40), Some(50));
    assert_eq!(completion_rate(40, 40), Some(100));
}

#[test]
fn completion_rate_cannot_exceed_one_hundred() {
    assert_eq!(completion_rate(90, 40), Some(100));
}

#[test]
fn completion_rates_round_four_halves_down() {
    assert_eq!(completion_rate(57, 200), Some(28));
    assert_eq!(completion_rate(29, 200), Some(14));
    assert_eq!(completion_rate(113, 200), Some(56));
    assert_eq!(completion_rate(59, 200), Some(30));
    assert_eq!(completion_rate(1, 8), Some(13));
    assert_eq!(completion_rate(-5, 8), Some(0));
}

#[test]
fn rest_days_leave_the_denominator() {
    let days = [DayTotals::new(50, 100), DayTotals::rest(), DayTotals::new(50, 100)];
    assert_eq!(consistency(&days, &[]), Some(50));
}

#[test]
fn a_rest_day_cannot_lower_consistency() {
    let worked = [DayTotals::new(80, 100)];
    let worked_then_rested = [DayTotals::new(80, 100), DayTotals::rest()];
    assert_eq!(consistency(&worked, &[]), consistency(&worked_then_rested, &[]));
}

#[test]
fn a_frozen_day_still_counts_against_consistency() {
    let rested = [DayTotals::new(100, 100), DayTotals::rest()];
    let frozen = [DayTotals::new(100, 100), DayTotals::frozen(100)];
    assert_eq!(consistency(&rested, &[]), Some(100));
    assert_eq!(consistency(&frozen, &[]), Some(50));
}

#[test]
fn consistency_is_none_before_there_is_anything_to_measure() {
    assert_eq!(consistency(&[], &[]), None);
    assert_eq!(consistency(&[DayTotals::rest()], &[]), None);
}

#[test]
fn weekly_buckets_join_both_sides_of_the_ratio() {
    let days = [DayTotals::new(50, 100)];
    let mut bucket = WeekBucket::new(3, 30);
    bucket.complete_one().expect("one of three");
    assert_eq!(consistency(&days, &[bucket]), Some(42));
}

#[test]
fn totals_sum_what_counts() {
    let days = [DayTotals::new(50, 100), DayTotals::rest(), DayTotals::frozen(100)];
    assert_eq!(totals(&days), (50, 200));
}

fn week(earned: i32, available: i32) -> WeekTotals {
    WeekTotals { earned, available }
}

#[test]
fn momentum_is_signed_percentage_points_against_the_last_four_weeks() {
    let previous = [week(50, 100), week(60, 100), week(70, 100), week(80, 100)];
    assert_eq!(momentum(week(90, 100), &previous), Some(25));
}

#[test]
fn momentum_can_be_negative() {
    assert_eq!(momentum(week(30, 100), &[week(80, 100)]), Some(-50));
}

#[test]
fn momentum_uses_only_the_four_most_recent_baseline_weeks() {
    let previous =
        [week(0, 100), week(0, 100), week(50, 100), week(50, 100), week(50, 100), week(50, 100)];
    assert_eq!(momentum(week(50, 100), &previous), Some(0));
}

#[test]
fn momentum_is_none_in_the_first_week() {
    assert_eq!(momentum(week(90, 100), &[]), None);
    assert_eq!(momentum(week(90, 100), &[WeekTotals::default()]), None);
}

#[test]
fn momentum_is_none_before_this_week_has_any_work() {
    assert_eq!(momentum(WeekTotals::default(), &[week(80, 100)]), None);
}

#[test]
fn week_rate_is_a_rounded_percentage() {
    assert_eq!(week(1, 3).rate(), Some(33));
    assert_eq!(week(2, 3).rate(), Some(67));
    assert_eq!(week(0, 0).rate(), None);
}

// --- streak -----------------------------------------------------------------

#[test]
fn complete_days_increment_current_and_longest() {
    let streak = fold(&[DayOutcome::Complete, DayOutcome::Complete]);
    assert_eq!(streak.current, 2);
    assert_eq!(streak.longest, 2);
}

#[test]
fn seven_clean_days_earn_one_freeze() {
    let streak = fold(&[DayOutcome::Complete; 7]);
    assert_eq!(streak.current, 7);
    assert_eq!(streak.freezes, 1);
    assert_eq!(streak.clean_run, 0);
}

#[test]
fn miss_consumes_freeze_and_rewrites_to_rest() {
    let seeded = Streak { current: 7, longest: 7, freezes: 1, clean_run: 0, state: StreakState::Active };
    let (next, rewritten) = step(&seeded, DayOutcome::Missed);
    assert_eq!(next.current, 7);
    assert_eq!(next.freezes, 0);
    assert_eq!(rewritten, Some(DayOutcome::Rest));
}

#[test]
fn miss_without_freeze_becomes_repairable_without_resetting_longest() {
    let streak = fold(&[DayOutcome::Complete, DayOutcome::Missed]);
    assert_eq!(streak.current, 1);
    assert_eq!(streak.longest, 1);
    assert_eq!(streak.state, StreakState::Repairable);
}

#[test]
fn fold_resumes_from_a_split() {
    let days = [
        DayOutcome::Complete,
        DayOutcome::Partial,
        DayOutcome::Missed,
        DayOutcome::Complete,
        DayOutcome::Rest,
        DayOutcome::Complete,
    ];
    for split in 0..=days.len() {
        assert_eq!(fold(&days), fold_from(fold(&days[..split]), &days[split..]));
    }
}

#[test]
fn longest_never_falls_below_current() {
    let streak = fold(&[DayOutcome::Complete, DayOutcome::Complete, DayOutcome::Missed, DayOutcome::Complete]);
    assert!(streak.longest >= streak.current);
    assert_eq!(Streak::default(), fold(&[]));
}

#[test]
fn banked_freezes_stop_at_three() {
    let streak = fold(&[DayOutcome::Complete; 35]);
    assert_eq!(streak.freezes, 3);
    assert_eq!(streak.current, 35);
}

#[test]
fn every_step_keeps_the_streak_well_formed() {
    let outcomes = [DayOutcome::Complete, DayOutcome::Partial, DayOutcome::Missed, DayOutcome::Rest];
    let mut states = vec![Streak::default()];
    for round in 0..40 {
        let s = states.last().expect("a state").clone();
        for outcome in outcomes {
            let (next, _) = step(&s, outcome);
            assert!(next.longest >= next.current);
            assert!(next.longest >= s.longest);
            assert!(next.freezes <= 3);
            assert!(next.clean_run < 7 || next.freezes == 3);
        }
        let (next, _) = step(&s, outcomes[if round % 9 == 8 { 2 } else { round % 2 }]);
        states.push(next);
    }
}

// --- weekly -----------------------------------------------------------------

#[test]
fn iso_week_year_is_not_the_calendar_year_at_the_boundary() {
    assert_eq!(iso_week_of(date(2027, 1, 1)), Some(IsoWeek { year: 2026, week: 53 }));
    assert_eq!(iso_week_of(date(2026, 7, 31)), Some(IsoWeek { year: 2026, week: 31 }));
}

#[test]
fn a_week_is_one_bucket_regardless_of_which_days_are_used() {
    let monday = date(2026, 7, 27);
    for offset in 0..7 {
        let day = LocalDate::from_days(monday.days_from_ce + offset);
        assert_eq!(iso_week_of(day), iso_week_of(monday));
    }
}

#[test]
fn floating_tasks_stay_out_of_the_day_denominator() {
    let instances = [
        InstancePoints { points: 25, is_floating: false },
        InstancePoints { points: 40, is_floating: true },
    ];
    assert_eq!(day_available_points(&instances), 25);
}

#[test]
fn the_row_disappears_once_the_quota_is_met() {
    let mut bucket = WeekBucket::new(3, 30);
    assert!(bucket.shows_today());
    assert_eq!(bucket.remaining(), 3);
    bucket.complete_one().expect("first of three");
    bucket.complete_one().expect("second of three");
    assert!(bucket.shows_today());
    bucket.complete_one().expect("third of three");
    assert!(!bucket.shows_today());
    assert_eq!(bucket.remaining(), 0);
    assert_eq!(bucket.complete_one(), Err(WeeklyError::QuotaAlreadyMet));
}

#[test]
fn unticking_frees_the_slot_again() {
    let mut bucket = WeekBucket::new(2, 30);
    bucket.complete_one().expect("first of two");
    bucket.complete_one().expect("second of two");
    assert!(!bucket.shows_today());
    bucket.uncomplete_one();
    assert!(bucket.shows_today());
    assert_eq!(bucket.completed, 1);
    bucket.uncomplete_one();
    bucket.uncomplete_one();
    assert_eq!(bucket.completed, 0);
}

fn run_week(session_days: [bool; 7]) -> (WeekBucket, i32, i32, u32) {
    let mut bucket = WeekBucket::new(3, 30);
    let mut daily_available = 0;
    let mut daily_earned = 0;
    let mut days_the_row_was_shown = 0;
    for did_session in session_days {
        let instances = [
            InstancePoints { points: 25, is_floating: false },
            InstancePoints { points: 30, is_floating: true },
        ];
        if bucket.shows_today() {
            days_the_row_was_shown += 1;
        }
        daily_available += day_available_points(&instances);
        daily_earned += day_earned_points(&instances[..1]);
        if did_session && bucket.shows_today() {
            bucket.complete_one().expect("quota was checked first");
        }
    }
    (bucket, daily_earned, daily_available, days_the_row_was_shown)
}

#[test]
fn monday_wednesday_friday_scores_the_same_as_friday_saturday_sunday() {
    let (mwf_bucket, mwf_earned, mwf_available, _) = run_week([true, false, true, false, true, false, false]);
    let (fss_bucket, fss_earned, fss_available, _) = run_week([false, false, false, false, true, true, true]);
    assert_eq!(
        (mwf_earned + mwf_bucket.earned_points(), mwf_available + mwf_bucket.available_points()),
        (fss_earned + fss_bucket.earned_points(), fss_available + fss_bucket.available_points())
    );
    assert_eq!(mwf_bucket.earned_points(), 90);
    assert_eq!(mwf_available, 7 * 25);
}

#[test]
fn finishing_early_retires_the_row_for_the_rest_of_the_week() {
    let (bucket, _, _, shown_on) = run_week([true, true, true, false, false, false, false]);
    assert!(bucket.quota_met());
    assert_eq!(shown_on, 3);
}

#[test]
fn a_partly_done_week_is_scored_proportionally() {
    let mut bucket = WeekBucket::new(3, 30);
    bucket.complete_one().expect("one of three");
    assert_eq!(bucket.earned_points(), 30);
    assert_eq!(bucket.available_points(), 90);
}

#[test]
fn bucket_points_saturate_rather_than_wrap() {
    let bucket = WeekBucket::new(u32::MAX, i32::MAX);
    assert_eq!(bucket.available_points(), i32::MAX);
    assert_eq!(WeekBucket::new(2, i32::MIN).available_points(), i32::MIN);
}

// --- cadence ----------------------------------------------------------------

#[test]
fn daily_fires_every_day() {
    assert!(Cadence::Daily.fires_on(99, date(2026, 7, 31)));
}

#[test]
fn weekly_days_uses_iso_weekdays() {
    let friday = date(2026, 7, 31);
    assert!(Cadence::WeeklyDays { days: vec![5] }.fires_on(0, friday));
    assert!(!Cadence::WeeklyDays { days: vec![1] }.fires_on(0, friday));
}

#[test]
fn n_per_week_is_floating_and_visible_until_bucket_logic_hides_it() {
    assert!(Cadence::NPerWeek { count: 3 }.fires_on(0, date(2026, 7, 31)));
    assert!(!Cadence::NPerWeek { count: 0 }.fires_on(0, date(2026, 7, 31)));
}

#[test]
fn once_fires_only_on_matching_day_index() {
    let cadence = Cadence::Once { day_offset: 12 };
    assert!(cadence.fires_on(12, date(2026, 8, 12)));
    assert!(!cadence.fires_on(11, date(2026, 8, 11)));
}

#[test]
fn rejects_invalid_cadence_shapes() {
    assert_eq!(Cadence::WeeklyDays { days: vec![0] }.validate_for_program(false), Err(CadenceError::InvalidWeekday));
    assert_eq!(Cadence::NPerWeek { count: 8 }.validate_for_program(false), Err(CadenceError::InvalidWeeklyCount));
    assert_eq!(
        Cadence::Once { day_offset: 1 }.validate_for_program(true),
        Err(CadenceError::OnceCadenceOnStandingProgram)
    );
}

#[test]
fn valid_cadences_pass() {
    assert_eq!(Cadence::WeeklyDays { days: vec![1, 7] }.validate_for_program(true), Ok(()));
    assert_eq!(Cadence::WeeklyDays { days: vec![] }.validate_for_program(false), Err(CadenceError::InvalidWeekday));
    assert_eq!(Cadence::Once { day_offset: 1 }.validate_for_program(false), Ok(()));
}

// --- calendar ---------------------------------------------------------------

#[test]
fn computes_lagos_midnight_window() {
    let (opens, closes) = day_window(date(2026, 7, 31), 0, &zone("Africa/Lagos")).expect("window resolves");
    assert_eq!(opens, utc_at(2026, 7, 30, 23, 0));
    assert_eq!(closes, utc_at(2026, 7, 31, 23, 0));
}

#[test]
fn chooses_earlier_in_fall_back_ambiguity() {
    let (opens, _) = day_window(date(2026, 11, 1), 1, &zone("America/New_York")).expect("ambiguous window resolves");
    assert_eq!(opens, utc_at(2026, 11, 1, 5, 0));
}

#[test]
fn shifts_forward_in_spring_gap() {
    let (opens, _) = day_window(date(2026, 3, 8), 2, &zone("America/New_York")).expect("gap window resolves");
    assert_eq!(opens, utc_at(2026, 3, 8, 7, 0));
}

#[test]
fn computes_today_with_boundary_shift() {
    let now = utc_at(2026, 7, 31, 1, 30);
    assert_eq!(enrollment_today(now, 3, &zone("Africa/Lagos")).expect("today resolves"), date(2026, 7, 30));
}

#[test]
fn rejects_invalid_boundary_hour() {
    assert_eq!(day_window(date(2026, 7, 31), 5, &zone("UTC")), Err(CalendarError::InvalidBoundaryHour));
    assert_eq!(enrollment_today(0, 5, &zone("UTC")), Err(CalendarError::InvalidBoundaryHour));
}

#[test]
fn unknown_zones_are_refused_and_months_are_civil() {
    assert!(TimeZone::named("Mars/Olympus_Mons").is_none());
    assert_eq!(zone("Africa/Lagos").name(), "Africa/Lagos");
    assert_eq!(year_month(date(2026, 7, 31)), Some((2026, 7)));
    assert_eq!(date(2026, 7, 31).iso_weekday(), 5);
    assert_eq!(date(2026, 7, 31).next_day(), Some(date(2026, 8, 1)));
}

// --- notify -----------------------------------------------------------------

fn utc(day: u32, hour: u32, minute: u32) -> i64 {
    utc_at(2026, 8, day, hour, minute)
}

fn candidate(kind: NotificationKind, day: u32, hour: u32) -> Candidate {
    Candidate { kind, at: utc(day, hour, 0) }
}

fn time(hour: u32, minute: u32) -> u32 {
    hour * 3600 + minute * 60
}

fn lagos() -> TimeZone {
    zone("Africa/Lagos")
}

#[test]
fn every_unsuppressed_candidate_is_sent_or_dropped_exactly_once() {
    let candidates = [
        candidate(NotificationKind::MorningCard, 1, 7),
        candidate(NotificationKind::StreakAtRisk, 1, 17),
        candidate(NotificationKind::StreakAtRisk, 1, 17),
        candidate(NotificationKind::EveningCheckIn, 1, 19),
        candidate(NotificationKind::RepairAvailable, 1, 20),
        candidate(NotificationKind::MorningCard, 1, 8),
    ];
    let result = plan(&candidates, None, &lagos(), &[], &[NotificationKind::RepairAvailable]);
    let mut out: Vec<(i64, NotificationKind)> = result.send.iter().map(|c| (c.at, c.kind)).collect();
    out.extend(result.dropped.iter().map(|(c, _)| (c.at, c.kind)));
    out.sort();
    let mut expected: Vec<(i64, NotificationKind)> = candidates
        .iter()
        .filter(|c| c.kind != NotificationKind::RepairAvailable)
        .map(|c| (c.at, c.kind))
        .collect();
    expected.sort();
    assert_eq!(out, expected);
}

#[test]
fn two_enrollments_at_risk_produce_one_notification() {
    let candidates =
        [candidate(NotificationKind::StreakAtRisk, 1, 17), candidate(NotificationKind::StreakAtRisk, 1, 17)];
    let result = plan(&candidates, None, &lagos(), &[], &[]);
    assert_eq!(result.send.len(), 1);
    assert_eq!(
        result.dropped,
        vec![(candidate(NotificationKind::StreakAtRisk, 1, 17), Dropped::ComposedIntoAnother)]
    );
}

#[test]
fn different_kinds_are_not_composed_together() {
    let candidates =
        [candidate(NotificationKind::MorningCard, 1, 6), candidate(NotificationKind::EveningCheckIn, 1, 19)];
    let result = plan(&candidates, None, &lagos(), &[], &[]);
    assert_eq!(result.send.len(), 2);
}

#[test]
fn quiet_hours_wrapping_midnight_silence_the_night() {
    let quiet = QuietHours { start: time(23, 0), end: time(6, 0) };
    assert!(quiet.contains(time(23, 30)));
    assert!(quiet.contains(time(0, 15)));
    assert!(quiet.contains(time(5, 59)));
    assert!(!quiet.contains(time(6, 0)), "the window is half open");
    assert!(!quiet.contains(time(12, 0)));
}

#[test]
fn quiet_hours_within_one_day_also_work() {
    let quiet = QuietHours { start: time(13, 0), end: time(14, 0) };
    assert!(quiet.contains(time(13, 30)));
    assert!(!quiet.contains(time(12, 59)));
    assert!(!quiet.contains(time(14, 0)));
}

#[test]
fn an_empty_quiet_window_silences_nothing() {
    let quiet = QuietHours { start: time(22, 0), end: time(22, 0) };
    assert!(!quiet.contains(time(22, 0)));
    assert!(!quiet.contains(time(3, 0)));
}

#[test]
fn quiet_hours_are_evaluated_in_the_users_timezone_not_utc() {
    let quiet = QuietHours { start: time(23, 0), end: time(6, 0) };
    let candidates = [candidate(NotificationKind::CohortPulse, 1, 23)];
    let result = plan(&candidates, Some(quiet), &lagos(), &[], &[]);
    assert!(result.send.is_empty(), "delivered inside quiet hours");
    assert_eq!(result.dropped[0].1, Dropped::QuietHours);
}

#[test]
fn no_more_than_three_land_in_a_day_and_the_least_valuable_go_first() {
    let candidates = [
        candidate(NotificationKind::CohortPulse, 1, 12),
        candidate(NotificationKind::MorningCard, 1, 6),
        candidate(NotificationKind::StandingDrift, 1, 13),
        candidate(NotificationKind::EveningCheckIn, 1, 19),
        candidate(NotificationKind::RepairAvailable, 1, 9),
    ];
    let result = plan(&candidates, None, &lagos(), &[], &[]);
    assert_eq!(result.send.len(), MAX_PER_24_HOURS);
    let kinds: Vec<NotificationKind> = result.send.iter().map(|c| c.kind).collect();
    assert_eq!(
        kinds,
        vec![NotificationKind::MorningCard, NotificationKind::RepairAvailable, NotificationKind::EveningCheckIn],
        "sent list is chronological"
    );
    assert!(result.dropped.iter().all(|(_, reason)| *reason == Dropped::DailyCapReached));
}

#[test]
fn notifications_already_sent_count_toward_the_cap() {
    let already = [utc(1, 6, 0), utc(1, 12, 0)];
    let candidates =
        [candidate(NotificationKind::EveningCheckIn, 1, 19), candidate(NotificationKind::CohortPulse, 1, 20)];
    let result = plan(&candidates, None, &lagos(), &already, &[]);
    assert_eq!(result.send.len(), 1, "only one slot was left");
    assert_eq!(result.send[0].kind, NotificationKind::EveningCheckIn);
}

#[test]
fn the_cap_is_a_rolling_window_not_a_calendar_day() {
    let already = [utc(1, 21, 0), utc(1, 22, 0), utc(1, 23, 0)];
    let result = plan(&[candidate(NotificationKind::MorningCard, 2, 6)], None, &lagos(), &already, &[]);
    assert!(result.send.is_empty());
    let result = plan(&[candidate(NotificationKind::MorningCard, 3, 6)], None, &lagos(), &already, &[]);
    assert_eq!(result.send.len(), 1);
}

#[test]
fn each_scheduled_notification_is_independently_suppressible() {
    let candidates =
        [candidate(NotificationKind::MorningCard, 1, 6), candidate(NotificationKind::EveningCheckIn, 1, 19)];
    let result = plan(&candidates, None, &lagos(), &[], &[NotificationKind::MorningCard]);
    assert_eq!(result.send.len(), 1);
    assert_eq!(result.send[0].kind, NotificationKind::EveningCheckIn);
    assert!(result.dropped.is_empty());
}

#[test]
fn nothing_in_produces_nothing_out() {
    assert_eq!(plan(&[], None, &lagos(), &[], &[]), Plan::default());
}

#[test]
fn a_plan_never_exceeds_the_cap_whatever_is_thrown_at_it() {
    let kinds = [
        NotificationKind::RepairAvailable,
        NotificationKind::StreakAtRisk,
        NotificationKind::MorningCard,
        NotificationKind::EveningCheckIn,
        NotificationKind::StandingDrift,
        NotificationKind::CohortPulse,
    ];
    let candidates: Vec<Candidate> = kinds
        .iter()
        .flat_map(|kind| [Candidate { kind: *kind, at: utc(1, 8, 0) }, Candidate { kind: *kind, at: utc(1, 20, 0) }])
        .collect();
    let result = plan(&candidates, None, &lagos(), &[], &[]);
    assert!(result.send.len() <= MAX_PER_24_HOURS);
    assert_eq!(result.send.len() + result.dropped.len(), candidates.len());
    let mut kinds_sent: Vec<NotificationKind> = result.send.iter().map(|c| c.kind).collect();
    let before = kinds_sent.len();
    kinds_sent.sort();
    kinds_sent.dedup();
    assert_eq!(before, kinds_sent.len(), "a kind was sent twice");
}

#[test]
fn priorities_rank_what_the_user_would_lose() {
    assert_eq!(NotificationKind::RepairAvailable.priority(), 0);
    assert_eq!(NotificationKind::CohortPulse.priority(), 5);
}

// --- artifact ---------------------------------------------------------------

fn day(day_of_month: u32, cell: Cell, earned: i32, available: i32) -> DaySummary {
    DaySummary {
        local_date: date(2026, 8, day_of_month),
        cell,
        earned_points: earned,
        available_points: available,
        tasks_completed: if earned > 0 { 2 } else { 0 },
        minutes_invested: if earned > 0 { 45 } else { 0 },
        note: None,
    }
}

#[test]
fn the_standing_list_never_produces_an_artifact() {
    let days = [day(1, Cell::Complete, 100, 100)];
    assert_eq!(compile("Standing", true, &days, 41), Err(ArtifactError::StandingEnrollment));
}

#[test]
fn an_empty_program_produces_nothing_rather_than_an_empty_artifact() {
    assert_eq!(compile("P", false, &[], 0), Err(ArtifactError::NoDays));
}

#[test]
fn composes_the_headline_numbers() {
    let days = [day(1, Cell::Complete, 100, 100), day(2, Cell::Partial, 60, 100), day(3, Cell::Missed, 0, 100)];
    let artifact = compile("8 Week 5K Plan", false, &days, 27).expect("compiles");
    assert_eq!(artifact.title, "8 Week 5K Plan");
    assert_eq!(artifact.started_on, date(2026, 8, 1));
    assert_eq!(artifact.finished_on, date(2026, 8, 3));
    assert_eq!(artifact.days_total, 3);
    assert_eq!(artifact.days_logged, 2);
    assert_eq!(artifact.completion_rate, Some(53));
    assert_eq!(artifact.longest_streak, 27);
    assert_eq!(artifact.tasks_completed, 4);
    assert_eq!(artifact.hours_invested, 2);
}

#[test]
fn declared_rest_days_leave_the_denominator_but_frozen_days_do_not() {
    let rested = [day(1, Cell::Complete, 100, 100), day(2, Cell::Rest, 0, 0)];
    let frozen = [day(1, Cell::Complete, 100, 100), day(2, Cell::Frozen, 0, 100)];
    assert_eq!(compile("P", false, &rested, 1).expect("compiles").completion_rate, Some(100));
    assert_eq!(compile("P", false, &frozen, 1).expect("compiles").completion_rate, Some(50));
}

#[test]
fn days_are_ordered_by_date_whatever_order_they_arrive_in() {
    let days = [day(3, Cell::Complete, 100, 100), day(1, Cell::Complete, 100, 100), day(2, Cell::Missed, 0, 100)];
    let artifact = compile("P", false, &days, 2).expect("compiles");
    let dates: Vec<LocalDate> = artifact.cells.iter().map(|(date, _)| *date).collect();
    assert_eq!(dates, vec![date(2026, 8, 1), date(2026, 8, 2), date(2026, 8, 3)]);
    assert_eq!(artifact.started_on, date(2026, 8, 1));
    assert_eq!(artifact.finished_on, date(2026, 8, 3));
}

#[test]
fn notes_compile_in_order_and_blank_ones_are_omitted() {
    let mut days = [day(1, Cell::Complete, 100, 100), day(2, Cell::Complete, 100, 100), day(3, Cell::Complete, 100, 100)];
    days[0].note = Some("Felt strong.".to_owned());
    days[1].note = Some("   ".to_owned());
    days[2].note = Some("  Hard, but done.  ".to_owned());
    let artifact = compile("P", false, &days, 3).expect("compiles");
    assert_eq!(
        artifact.notes,
        vec![(date(2026, 8, 1), "Felt strong.".to_owned()), (date(2026, 8, 3), "Hard, but done.".to_owned())]
    );
}

#[test]
fn the_heatmap_keeps_every_state_distinguishable() {
    let days = [
        day(1, Cell::Complete, 100, 100),
        day(2, Cell::Partial, 60, 100),
        day(3, Cell::Missed, 0, 100),
        day(4, Cell::Rest, 0, 0),
        day(5, Cell::Frozen, 0, 100),
    ];
    let artifact = compile("P", false, &days, 1).expect("compiles");
    let cells: Vec<Cell> = artifact.cells.iter().map(|(_, cell)| *cell).collect();
    assert_eq!(cells, vec![Cell::Complete, Cell::Partial, Cell::Missed, Cell::Rest, Cell::Frozen]);
}

#[test]
fn a_program_with_nothing_available_reports_a_dash_not_a_zero() {
    let days = [day(1, Cell::Rest, 0, 0)];
    assert_eq!(compile("P", false, &days, 0).expect("compiles").completion_rate, None);
}

#[test]
fn same_day_entries_keep_their_order_and_hours_round_to_nearest() {
    let mut first = day(2, Cell::Complete, 100, 100);
    first.minutes_invested = 89;
    let mut second = day(2, Cell::Missed, 0, 100);
    second.minutes_invested = 0;
    let artifact = compile("P", false, &[first, second], 0).expect("compiles");
    assert_eq!(artifact.cells, vec![(date(2026, 8, 2), Cell::Complete), (date(2026, 8, 2), Cell::Missed)]);
    assert_eq!(artifact.hours_invested, 1);
    assert!(!Cell::Rest.counts_toward_completion());
    assert!(Cell::Frozen.counts_toward_completion());
}

#[test]
fn no_day_long_window_around_a_delivery_holds_more_than_three() {
    // Deliveries spread over several days: whichever day-long window holds a
    // sent one, the history and the sent ones in it number three at most.
    let already = [utc(1, 9, 0), utc(1, 20, 0), utc(2, 7, 0)];
    let candidates = [
        candidate(NotificationKind::MorningCard, 2, 8),
        candidate(NotificationKind::EveningCheckIn, 2, 19),
        candidate(NotificationKind::StreakAtRisk, 3, 6),
        candidate(NotificationKind::RepairAvailable, 3, 21),
    ];
    let result = plan(&candidates, None, &lagos(), &already, &[]);
    assert!(!result.send.is_empty());
    let mut all: Vec<i64> = already.to_vec();
    all.extend(result.send.iter().map(|c| c.at));
    for sent in &result.send {
        for lo in [sent.at - 86_399, sent.at - 43_200, sent.at] {
            let inside = all.iter().filter(|t| lo <= **t && **t < lo + 86_400).count();
            assert!(inside <= MAX_PER_24_HOURS, "{inside} deliveries in one day");
        }
    }
}

#[test]
fn an_instant_at_the_end_of_the_calendar_is_refused_not_a_panic() {
    let last = chrono::NaiveDateTime::MAX.and_utc().timestamp();
    assert_eq!(enrollment_today(last, 0, &zone("Asia/Tokyo")), Err(CalendarError::UnresolvableLocalTime));
    let result = plan(&[Candidate { kind: NotificationKind::MorningCard, at: last }], None, &zone("Asia/Tokyo"), &[], &[]);
    assert_eq!(result.send.len() + result.dropped.len(), 1);
}
