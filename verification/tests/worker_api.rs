use chrono::{Datelike, NaiveDate};
use tracking::cadence::Cadence;
use tracking::commands::{parse_command, WorkerCommand};
use tracking::finalise::{
    core_streak_state, db_streak_state, i16_to_u8, i32_to_u32, repair_available, settle_day, stored_day_status,
    FinaliseError,
};
use tracking::handlers::{
    day_task_counts,
    cell_from_status, cell_name, command_text, extraction_for, i64_to_u32, map_normalise_error, upload_extension,
    Extractor, SummaryError,
};
use tracking::materialise::{
    day_index, firing_templates, materialise_plan, next_date_to_materialise, parse_cadence, EnrollmentSchedule,
    MaterialiseError, StoredCadence,
};
use tracking::notify::NotificationKind;
use tracking::pipeline::{
    accept_source, after_failure, classify_source, generation_mode, infer_duration_days, ingest_error_code,
    intensity_from_db, model_input, GenerationMode, IngestRequestError, JobFailure, MODEL_SOURCE_CHARS,
};
use tracking::planner::compile;
use tracking::program_request::{
    check_day_boundary, draft_ready, focus_allows, plan_templates, validate_program_body, CreateProgramBody,
    CreateTaskBody, IntensityBody, ProgramKindBody, ProgramRequestError,
};
use tracking::records::{
    advisory_lock_key, idempotency_decision, DayStatus as StoredDayStatus, IdempotencyDecision,
    StreakState as StoredStreakState, StreakStateRow, WeekBucketRow,
};
use tracking::reminders::{
    drafts_for, due_now, kind_value, notifications_for_user, quiet_hours, EventDraft, ReminderSettings,
};
use tracking::enrollments::{validate_enrollment_patch, PatchEnrollmentBody, PatchEnrollmentError};
use tracking::scale_down::{
    clamped_day_offset, drop_count, plan_scale_down, scaled_duration_days, scaled_summary, worst_template_ids,
    ProgramForScaleDown, ScaleDownError, TemplateForScaleDown, TemplatePerformance,
};
use tracking::scoring::DayStatus;
use tracking::session::{affected_days, apply_order, session_defaults, standing_seed};
use tracking::source::NormaliseError;
use tracking::streak::{DayOutcome, Streak, StreakState};
use tracking::time::{LocalDate, TimeZone};
use tracking::types::{Intensity, ProgramKind};
use uuid::Uuid;

fn date(year: i32, month: u32, day: u32) -> LocalDate {
    LocalDate::from_days(NaiveDate::from_ymd_opt(year, month, day).expect("test date is valid").num_days_from_ce())
}

fn seconds(hour: u32, minute: u32, second: u32) -> u32 {
    hour * 3600 + minute * 60 + second
}

// --- finalising a day ---------------------------------------------------------

#[test]
fn frozen_status_wins_when_freeze_rewrites_a_miss() {
    assert_eq!(stored_day_status(DayStatus::Missed, Some(DayOutcome::Rest)), StoredDayStatus::Frozen);
}

#[test]
fn repair_is_available_once_per_calendar_month() {
    let row = StreakStateRow {
        enrollment_id: Uuid::now_v7(),
        current: 0,
        longest: 0,
        freezes: 0,
        clean_run: 0,
        last_counted_date: None,
        repair_used_month: Some(date(2026, 7, 1)),
        state: StoredStreakState::Active,
    };

    assert!(!repair_available(&row, date(2026, 7, 31)));
    assert!(repair_available(&row, date(2026, 8, 1)));
}

#[test]
fn a_streak_never_repaired_can_be_repaired() {
    let row = StreakStateRow {
        enrollment_id: Uuid::nil(),
        current: 4,
        longest: 9,
        freezes: 1,
        clean_run: 2,
        last_counted_date: Some(date(2026, 3, 3)),
        repair_used_month: None,
        state: StoredStreakState::Repairable,
    };
    assert!(repair_available(&row, date(2026, 3, 4)));
}

#[test]
fn stored_statuses_follow_the_score_when_nothing_is_rewritten() {
    assert_eq!(stored_day_status(DayStatus::Complete, None), StoredDayStatus::Complete);
    assert_eq!(stored_day_status(DayStatus::Partial, None), StoredDayStatus::Partial);
    assert_eq!(stored_day_status(DayStatus::Missed, None), StoredDayStatus::Missed);
    assert_eq!(stored_day_status(DayStatus::Rest, None), StoredDayStatus::Rest);
}

#[test]
fn streak_states_round_trip_through_storage() {
    for state in [StreakState::Active, StreakState::AtRisk, StreakState::Repairable, StreakState::Broken] {
        assert_eq!(core_streak_state(db_streak_state(state)), state);
    }
    assert_eq!(db_streak_state(StreakState::AtRisk), StoredStreakState::AtRisk);
}

#[test]
fn stored_integers_that_do_not_fit_are_refused() {
    assert_eq!(i32_to_u32(-1), Err(FinaliseError::IntegerConversion));
    assert_eq!(i32_to_u32(12), Ok(12));
    assert_eq!(i16_to_u8(300), Err(FinaliseError::IntegerConversion));
    assert_eq!(i16_to_u8(3), Ok(3));
}

#[test]
fn settling_a_full_day_extends_the_streak() {
    let before = Streak { current: 2, longest: 5, freezes: 0, clean_run: 2, state: StreakState::Active };
    let settled = settle_day(&before, 40, 40, false);
    assert_eq!(settled.status, StoredDayStatus::Complete);
    assert_eq!(settled.streak.current, 3);
    assert_eq!(settled.streak.longest, 5);
}

#[test]
fn settling_a_miss_with_a_freeze_stores_it_as_frozen() {
    let before = Streak { current: 8, longest: 8, freezes: 1, clean_run: 0, state: StreakState::Active };
    let settled = settle_day(&before, 0, 40, false);
    assert_eq!(settled.status, StoredDayStatus::Frozen);
    assert_eq!(settled.streak.freezes, 0);
    assert_eq!(settled.streak.current, 8);
}

#[test]
fn settling_a_miss_without_a_freeze_makes_the_streak_repairable() {
    let before = Streak { current: 8, longest: 8, freezes: 0, clean_run: 0, state: StreakState::Active };
    let settled = settle_day(&before, 0, 40, false);
    assert_eq!(settled.status, StoredDayStatus::Missed);
    assert_eq!(settled.streak.state, StreakState::Repairable);
    assert_eq!(settled.streak.longest, 8);
}

// --- ingestion heuristics -------------------------------------------------------

#[test]
fn classifies_routine_markers() {
    let classification = classify_source("Run daily\nLift on Monday Wednesday Friday", None);
    assert_eq!(classification.kind, ProgramKind::Routine);
}

#[test]
fn classifies_curriculum_and_project_shapes() {
    assert_eq!(classify_source("Day 1: ownership\nDay 2: borrowing", None).kind, ProgramKind::Curriculum);
    assert_eq!(classify_source("Ship the landing page", None).kind, ProgramKind::Project);
    assert_eq!(classify_source("Ship it", Some("every day")).kind, ProgramKind::Routine);
}

#[test]
fn markers_are_found_whatever_their_case() {
    assert_eq!(classify_source("Train on MONDAY and FRIDAY", None).kind, ProgramKind::Routine);
    assert_eq!(classify_source("A 3 WEEK sprint", None).suggested_duration_days, Some(21));
    assert_eq!(infer_duration_days("A 3 WEEK sprint"), None);
}

#[test]
fn infers_duration_from_weeks() {
    assert_eq!(infer_duration_days("8 week 5k plan"), Some(56));
}

#[test]
fn infers_duration_from_hyphenated_days() {
    assert_eq!(infer_duration_days("10-day beginner Rust learning plan"), Some(10));
}

#[test]
fn no_duration_is_invented() {
    assert_eq!(infer_duration_days("Learn Rust"), None);
}

#[test]
fn roadmap_topics_become_atomic_tasks() {
    let classification = classify_source("Day 1: ownership\nDay 2: borrowing", None);
    let generated = compile(
        "Day 1: ownership\nDay 2: borrowing",
        None,
        classification.kind,
        classification.suggested_duration_days,
        Intensity::Standard,
    );

    assert_eq!(generated.duration_days, 2);
    assert_eq!(generated.tasks.len(), 6);
    assert!(generated.tasks.iter().all(|task| task.description.is_some()));
    assert!(generated.tasks.iter().any(|task| task.title.starts_with("Practice")));
}

#[test]
fn vague_goal_gets_a_multi_day_plan_without_ai() {
    let classification = classify_source("Learn Rust", None);
    let generated = compile("Learn Rust", None, classification.kind, classification.suggested_duration_days, Intensity::Standard);

    assert!(generated.duration_days > 1);
    assert!(generated.tasks.len() > 3);
    assert!(generated.tasks.iter().all(|task| task.description.is_some()));
}

#[test]
fn intensity_changes_action_duration() {
    let classification = classify_source("Learn Rust", None);
    let light = compile("Learn Rust", None, classification.kind, classification.suggested_duration_days, Intensity::Light);
    let heavy = compile("Learn Rust", None, classification.kind, classification.suggested_duration_days, Intensity::Heavy);

    assert!(light
        .tasks
        .iter()
        .zip(heavy.tasks.iter())
        .all(|(light, heavy)| light.estimated_minutes < heavy.estimated_minutes));
}

#[test]
fn listed_source_is_expanded_instead_of_copied() {
    let classification = classify_source("- Run 30 min\n- Stretch", None);
    let generated = compile(
        "- Run 30 min\n- Stretch",
        None,
        classification.kind,
        classification.suggested_duration_days,
        Intensity::Standard,
    );

    assert_eq!(generated.tasks.len(), 6);
    assert!(generated.tasks[0].title.contains("Run 30 min"));
    assert!(generated.tasks.iter().any(|task| task.title.starts_with("Check")));
}

#[test]
fn failure_messages_map_to_error_codes() {
    assert_eq!(ingest_error_code(NormaliseError::NeedsOcr.message()), "needs_ocr");
    assert_eq!(ingest_error_code(NormaliseError::Empty.message()), "empty_source");
    assert_eq!(ingest_error_code(NormaliseError::UnsupportedMime.message()), "ingest_failed");
}

#[test]
fn stored_intensity_defaults_to_standard() {
    assert_eq!(intensity_from_db("light"), Intensity::Light);
    assert_eq!(intensity_from_db("heavy"), Intensity::Heavy);
    assert_eq!(intensity_from_db("standard"), Intensity::Standard);
    assert_eq!(intensity_from_db("extreme"), Intensity::Standard);
}

#[test]
fn a_job_is_retried_until_its_attempts_run_out() {
    assert_eq!(after_failure(1, 3), JobFailure::RetryLater);
    assert_eq!(after_failure(3, 3), JobFailure::GiveUp);
}

#[test]
fn a_model_runs_only_with_a_real_key() {
    assert_eq!(generation_mode(Some("sk-test"), None), GenerationMode::Model);
    assert_eq!(generation_mode(Some("   "), Some("deterministic")), GenerationMode::Deterministic);
    assert_eq!(generation_mode(None, Some("other")), GenerationMode::NotConfigured);
    assert_eq!(generation_mode(None, None), GenerationMode::NotConfigured);
}

#[test]
fn the_model_is_shown_the_direction_shape_and_source() {
    let input = model_input(Some("Go slow"), ProgramKind::Routine, 45, Some(14), "Run daily");
    assert_eq!(
        input,
        "User direction: Go slow\nProgram shape: Routine\nDaily capacity: 45 minutes\nDuration hint: Some(14)\n\nSOURCE CONTEXT:\nRun daily"
    );
    let plain = model_input(None, ProgramKind::Project, 60, None, "x");
    assert!(plain.starts_with("User direction: No extra direction\n"));
    assert!(plain.contains("Duration hint: None\n"));
}

#[test]
fn a_long_source_is_cut_for_the_model() {
    let source = "a".repeat(MODEL_SOURCE_CHARS + 10);
    let input = model_input(None, ProgramKind::Project, 60, None, &source);
    let shown = input.split("SOURCE CONTEXT:\n").nth(1).expect("source section");
    assert_eq!(shown.len(), MODEL_SOURCE_CHARS);
}

#[test]
fn a_short_source_is_reported_as_empty_and_a_real_one_is_hashed() {
    assert_eq!(
        accept_source("too short", None).err(),
        Some(IngestRequestError::Normalise(NormaliseError::Empty))
    );
    let (_, _, normalised) = accept_source("Learn Rust in ten days", Some("text/markdown")).expect("accepted");
    assert_eq!(normalised.text, "Learn Rust in ten days");
    assert_ne!(normalised.content_hash, [0u8; 32]);
}

#[test]
fn day_counts_default_to_zero() {
    let rows = vec![(1u128, Some(2), Some(5)), (2, None, Some(3))];
    assert_eq!(day_task_counts(&rows, 1), (2, 5));
    assert_eq!(day_task_counts(&rows, 2), (0, 3));
    assert_eq!(day_task_counts(&rows, 3), (0, 0));
}

#[test]
fn ingestion_requests_are_checked_before_any_work() {
    assert_eq!(accept_source("   ", None).err(), Some(IngestRequestError::SourceTextRequired));
    assert_eq!(accept_source("Learn Rust", Some("application/zip")).err(), Some(IngestRequestError::UnsupportedSourceType));
    let (mime, _, normalised) = accept_source("Learn Rust", None).expect("accepted");
    assert_eq!(mime, "text/plain");
    assert_eq!(normalised.text, "Learn Rust");
}

// --- materialising ---------------------------------------------------------------

fn stored(kind: &str) -> StoredCadence {
    StoredCadence { kind: Some(kind.to_string()), days: None, count: None, day_offset: None }
}

#[test]
fn parses_cadence_shapes_from_db_json() {
    assert_eq!(parse_cadence(&stored("daily")).expect("valid"), Cadence::Daily);
    assert_eq!(
        parse_cadence(&StoredCadence { days: Some(vec![Some(1), Some(3), Some(5)]), ..stored("weekly_days") })
            .expect("valid"),
        Cadence::WeeklyDays { days: vec![1, 3, 5] }
    );
    assert_eq!(
        parse_cadence(&StoredCadence { count: Some(3), ..stored("n_per_week") }).expect("valid"),
        Cadence::NPerWeek { count: 3 }
    );
    assert_eq!(
        parse_cadence(&StoredCadence { day_offset: Some(12), ..stored("once") }).expect("valid"),
        Cadence::Once { day_offset: 12 }
    );
}

#[test]
fn malformed_stored_cadences_are_refused() {
    assert!(parse_cadence(&StoredCadence { kind: None, days: None, count: None, day_offset: None }).is_err());
    assert!(parse_cadence(&stored("weekly_days")).is_err());
    assert!(parse_cadence(&stored("n_per_week")).is_err());
    assert!(parse_cadence(&stored("fortnightly")).is_err());
    assert!(parse_cadence(&StoredCadence { days: Some(vec![Some(1), None]), ..stored("weekly_days") }).is_err());
}

#[test]
fn next_date_starts_at_start_date_when_never_materialised() {
    let start_date = date(2026, 5, 24);
    let enrollment = EnrollmentSchedule { start_date, materialised_through: None, is_standing: false };

    assert_eq!(next_date_to_materialise(&enrollment), start_date);
}

#[test]
fn next_date_follows_the_last_materialised_day() {
    let enrollment =
        EnrollmentSchedule { start_date: date(2026, 5, 24), materialised_through: Some(date(2026, 5, 30)), is_standing: false };
    assert_eq!(next_date_to_materialise(&enrollment), date(2026, 5, 31));
}

#[test]
fn day_indexes_count_from_the_start() {
    assert_eq!(day_index(date(2026, 5, 24), date(2026, 5, 24)), Ok(0));
    assert_eq!(day_index(date(2026, 5, 24), date(2026, 6, 2)), Ok(9));
}

#[test]
fn materialising_runs_two_days_ahead_and_stops_at_the_end() {
    let enrollment = EnrollmentSchedule { start_date: date(2026, 5, 24), materialised_through: None, is_standing: false };
    let plan = materialise_plan(date(2026, 5, 24), &enrollment, Some(30)).expect("plan");
    assert_eq!(
        plan.days,
        vec![(date(2026, 5, 24), 0), (date(2026, 5, 25), 1), (date(2026, 5, 26), 2)]
    );
    assert!(!plan.completes);

    let short = materialise_plan(date(2026, 5, 24), &enrollment, Some(2)).expect("plan");
    assert_eq!(short.days, vec![(date(2026, 5, 24), 0), (date(2026, 5, 25), 1)]);
    assert!(short.completes);
}

#[test]
fn firing_templates_mark_floating_cadences() {
    let cadences = vec![Cadence::Daily, Cadence::Once { day_offset: 3 }, Cadence::NPerWeek { count: 2 }];
    let firing = firing_templates(&cadences, 0, date(2026, 5, 25));
    assert_eq!(firing, vec![(0, false), (2, true)]);
    let later = firing_templates(&cadences, 3, date(2026, 5, 28));
    assert_eq!(later, vec![(0, false), (1, false), (2, true)]);
}

#[test]
fn a_day_index_that_does_not_fit_is_refused() {
    assert_eq!(
        day_index(LocalDate::from_days(i32::MIN), LocalDate::from_days(i32::MAX)),
        Err(MaterialiseError::DayIndexOutOfRange)
    );
}

// --- reminders -------------------------------------------------------------------

#[test]
fn due_window_is_half_open() {
    let scheduled = seconds(7, 30, 0);
    assert!(due_now(scheduled, scheduled, 900));
    assert!(due_now(seconds(7, 44, 59), scheduled, 900));
    assert!(!due_now(seconds(7, 45, 0), scheduled, 900));
    assert!(!due_now(seconds(7, 29, 59), scheduled, 900));
}

#[test]
fn kind_values_match_database_check_constraint() {
    assert_eq!(kind_value(NotificationKind::MorningCard), "morning_card");
    assert_eq!(kind_value(NotificationKind::RepairAvailable), "repair_available");
}

#[test]
fn quiet_hours_need_both_ends() {
    assert!(quiet_hours(Some(seconds(22, 0, 0)), None).is_none());
    assert!(quiet_hours(Some(seconds(22, 0, 0)), Some(seconds(7, 0, 0))).is_some());
}

#[test]
fn reminder_bodies_count_what_is_left() {
    assert_eq!(EventDraft::morning(0, 1).body, "1 task waiting today");
    assert_eq!(EventDraft::morning(0, 4).body, "4 tasks waiting today");
    assert_eq!(EventDraft::evening(0, 0, 0).body, "Today is logged.");
    assert_eq!(EventDraft::evening(0, 2, 0).body, "2 tasks left today");
    assert_eq!(EventDraft::evening(0, 2, 1).body, "A streak is at risk. Finish what matters.");
}

#[test]
fn the_evening_window_brings_an_at_risk_alert_and_repairs_are_always_offered() {
    let settings = ReminderSettings {
        morning_at: seconds(7, 30, 0),
        evening_at: seconds(20, 0, 0),
        quiet_start: None,
        quiet_end: None,
    };
    let evening = drafts_for(1000, seconds(20, 5, 0), settings, 2, 1, 1);
    let kinds: Vec<NotificationKind> = evening.iter().map(|d| d.kind).collect();
    assert_eq!(
        kinds,
        vec![NotificationKind::EveningCheckIn, NotificationKind::StreakAtRisk, NotificationKind::RepairAvailable]
    );
    let midday = drafts_for(1000, seconds(12, 0, 0), settings, 2, 1, 0);
    assert!(midday.is_empty());
}

#[test]
fn reminders_follow_the_users_local_clock() {
    let settings = ReminderSettings {
        morning_at: seconds(7, 30, 0),
        evening_at: seconds(20, 0, 0),
        quiet_start: None,
        quiet_end: None,
    };
    let lagos = TimeZone::named("Africa/Lagos").expect("zone is known");
    // 06:35 UTC is 07:35 in Lagos: the morning card is due there.
    let now = NaiveDate::from_ymd_opt(2025, 3, 10)
        .expect("date")
        .and_hms_opt(6, 35, 0)
        .expect("time")
        .and_utc()
        .timestamp();
    let events = notifications_for_user(now, settings, 3, 0, 0, &lagos, &[]).expect("clock in range");
    assert_eq!(events.len(), 1);
    assert_eq!(events[0].kind, "morning_card");
    assert_eq!(events[0].status, "queued");
    assert_eq!(events[0].scheduled_at, now);
    // The same instant is 06:35 in UTC, before the morning window.
    let utc = TimeZone::named("UTC").expect("zone is known");
    assert!(notifications_for_user(now, settings, 3, 0, 0, &utc, &[]).expect("clock in range").is_empty());
    // An instant chrono cannot place has no local clock.
    assert!(notifications_for_user(i64::MAX, settings, 3, 0, 0, &lagos, &[]).is_none());
}

// --- storage -----------------------------------------------------------------------

#[test]
fn advisory_lock_key_is_stable_for_an_enrollment() {
    let enrollment_id = Uuid::parse_str("018ff9c0-0000-7000-8000-000000000401").expect("test uuid is valid");

    assert_eq!(advisory_lock_key(*enrollment_id.as_bytes()), 112583118736617472);
}

fn row(required: i32, completed: i32) -> WeekBucketRow {
    WeekBucketRow {
        enrollment_id: Uuid::nil(),
        iso_year: 2026,
        iso_week: 31,
        template_id: Uuid::nil(),
        required,
        completed,
        points_each: 30,
    }
}

#[test]
fn a_stored_row_lifts_into_the_domain_type() {
    assert!(!row(3, 1).to_domain().quota_met());
    assert!(row(3, 3).to_domain().quota_met());
    assert_eq!(row(3, 1).to_domain().earned_points(), 30);
    assert_eq!(row(3, 1).to_domain().available_points(), 90);
}

#[test]
fn negative_stored_values_do_not_wrap_into_enormous_quotas() {
    let domain = row(-1, -5).to_domain();
    assert_eq!(domain.required, 0);
    assert_eq!(domain.completed, 0);
    assert!(domain.quota_met(), "a zero quota is trivially met");
}

#[test]
fn over_delivery_cannot_push_a_bucket_past_its_quota() {
    let domain = row(3, 4).to_domain();
    assert_eq!(domain.earned_points(), domain.available_points());
}

#[test]
fn an_idempotency_key_replays_only_its_own_request() {
    assert_eq!(idempotency_decision(None, b"abc"), IdempotencyDecision::Missing);
    assert_eq!(idempotency_decision(Some(b"abc"), b"abc"), IdempotencyDecision::Replay);
    assert_eq!(idempotency_decision(Some(b"abd"), b"abc"), IdempotencyDecision::Conflict);
    assert_eq!(idempotency_decision(Some(b"ab"), b"abc"), IdempotencyDecision::Conflict);
}

// --- scaling down after a lapse ----------------------------------------------------

#[test]
fn a_quarter_of_the_tasks_are_dropped_but_never_all() {
    assert_eq!(drop_count(0), Err(ScaleDownError::NoRemovableTasks));
    assert_eq!(drop_count(1), Err(ScaleDownError::NoRemovableTasks));
    assert_eq!(drop_count(2), Ok(1));
    assert_eq!(drop_count(8), Ok(2));
    assert_eq!(drop_count(9), Ok(2));
}

#[test]
fn the_least_completed_templates_go_first() {
    let templates = vec![
        TemplateForScaleDown { id: 1, title: "Read".to_string() },
        TemplateForScaleDown { id: 2, title: "Run".to_string() },
        TemplateForScaleDown { id: 3, title: "Write".to_string() },
    ];
    let performance = vec![
        TemplatePerformance { template_id: 1, available_count: Some(10), completed_count: Some(9) },
        TemplatePerformance { template_id: 2, available_count: Some(10), completed_count: Some(2) },
        TemplatePerformance { template_id: 3, available_count: Some(4), completed_count: Some(2) },
    ];
    assert_eq!(worst_template_ids(&templates, &performance, 2), vec![2, 3]);
    assert_eq!(worst_template_ids(&templates, &performance, 1), vec![2]);
}

#[test]
fn a_scale_down_keeps_the_rest_in_order() {
    let templates: Vec<TemplateForScaleDown> = (1..=5)
        .map(|id| TemplateForScaleDown { id, title: format!("Task {id}") })
        .collect();
    let performance = vec![
        TemplatePerformance { template_id: 4, available_count: Some(10), completed_count: Some(1) },
        TemplatePerformance { template_id: 2, available_count: Some(10), completed_count: Some(5) },
    ];
    let plan = plan_scale_down(&templates, &performance).expect("plan");
    assert_eq!(plan.drop_count, 1);
    assert_eq!(plan.dropped, vec![4]);
    assert_eq!(plan.kept, vec![0, 1, 2, 4]);
    assert_eq!(plan_scale_down(&templates[..1], &performance), Err(ScaleDownError::NoRemovableTasks));
}

#[test]
fn enrollment_changes_are_checked_before_they_are_stored() {
    let patch = |status: Option<&str>, hour: Option<i16>| PatchEnrollmentBody {
        status: status.map(str::to_owned),
        timezone: None,
        day_boundary_hour: hour,
    };
    assert_eq!(validate_enrollment_patch(&patch(Some("paused"), Some(4))), Ok(()));
    assert_eq!(validate_enrollment_patch(&patch(None, None)), Ok(()));
    assert_eq!(validate_enrollment_patch(&patch(Some("archived"), None)), Err(PatchEnrollmentError::InvalidStatus));
    assert_eq!(validate_enrollment_patch(&patch(Some("archived"), Some(5))), Err(PatchEnrollmentError::InvalidBoundary));
    assert_eq!(PatchEnrollmentError::InvalidStatus.message(), "invalid enrollment status");
}

#[test]
fn the_scaled_run_keeps_what_is_left_of_the_program() {
    assert_eq!(scaled_duration_days(None, date(2026, 1, 1), date(2026, 1, 5)), Err(ScaleDownError::StandingProgram));
    assert_eq!(scaled_duration_days(Some(30), date(2026, 1, 1), date(2026, 1, 11)), Ok(20));
    assert_eq!(scaled_duration_days(Some(30), date(2026, 1, 1), date(2026, 3, 1)), Ok(1));
    assert_eq!(scaled_duration_days(Some(30), date(2026, 1, 10), date(2026, 1, 1)), Ok(30));
}

#[test]
fn the_scaled_summary_says_what_changed() {
    let program = ProgramForScaleDown {
        title: "Rust".to_string(),
        summary: None,
        kind: "curriculum".to_string(),
        duration_days: Some(30),
        intensity: None,
    };
    assert_eq!(
        scaled_summary(&program, 2, 6).as_deref(),
        Some("Scaled return plan. Scaled down after a lapse: dropped 2 low-completion task(s), kept 6 task(s).")
    );
}

#[test]
fn a_pinned_day_stays_inside_the_shorter_run() {
    assert_eq!(clamped_day_offset(None, 10), 0);
    assert_eq!(clamped_day_offset(Some(-3), 10), 0);
    assert_eq!(clamped_day_offset(Some(25), 10), 9);
    assert_eq!(clamped_day_offset(Some(4), 10), 4);
}

// --- program requests ----------------------------------------------------------------

fn task(title: &str, difficulty: u8, minutes: u16, cadence: Cadence) -> CreateTaskBody {
    CreateTaskBody {
        title: title.to_string(),
        description: None,
        category: None,
        difficulty,
        estimated_minutes: minutes,
        cadence,
    }
}

fn body(duration_days: i32, tasks: Vec<CreateTaskBody>) -> CreateProgramBody {
    CreateProgramBody {
        title: "Rust".to_string(),
        summary: None,
        kind: ProgramKindBody::Curriculum,
        duration_days,
        intensity: IntensityBody::Standard,
        start_date: date(2026, 1, 1),
        timezone: None,
        day_boundary_hour: None,
        tasks,
    }
}

#[test]
fn a_program_request_is_validated_task_by_task() {
    assert_eq!(validate_program_body(&body(0, vec![task("Read", 1, 10, Cadence::Daily)])), Err(ProgramRequestError::InvalidDuration));
    assert_eq!(validate_program_body(&body(10, vec![])), Err(ProgramRequestError::NoTasks));
    assert_eq!(validate_program_body(&body(10, vec![task("  ", 1, 10, Cadence::Daily)])), Err(ProgramRequestError::MissingTitle));
    assert_eq!(validate_program_body(&body(10, vec![task("Read", 6, 10, Cadence::Daily)])), Err(ProgramRequestError::InvalidDifficulty));
    assert_eq!(validate_program_body(&body(10, vec![task("Read", 1, 481, Cadence::Daily)])), Err(ProgramRequestError::InvalidTaskDuration));
    assert_eq!(
        validate_program_body(&body(10, vec![task("Read", 1, 10, Cadence::WeeklyDays { days: vec![] })])),
        Err(ProgramRequestError::InvalidCadence)
    );
    assert_eq!(validate_program_body(&body(10, vec![task("Read", 1, 10, Cadence::Daily)])), Ok(()));
}

#[test]
fn request_checks_answer_with_their_own_errors() {
    assert_eq!(draft_ready("ready"), Ok(()));
    assert_eq!(draft_ready("running"), Err(ProgramRequestError::DraftNotReady));
    assert_eq!(check_day_boundary(4), Ok(()));
    assert_eq!(check_day_boundary(5), Err(ProgramRequestError::InvalidBoundary));
    assert_eq!(focus_allows(false, 1), Err(ProgramRequestError::FocusConflict));
    assert_eq!(focus_allows(true, 1), Ok(()));
    assert_eq!(ProgramRequestError::FocusConflict.message(), "pause or finish the active program first");
}

#[test]
fn templates_are_numbered_from_one_with_their_points() {
    let plans = plan_templates(&[task("Read", 1, 30, Cadence::Daily), task("Build", 3, 60, Cadence::Daily)]).expect("plans");
    assert_eq!(plans.len(), 2);
    assert_eq!((plans[0].position, plans[0].points), (1, 10));
    assert_eq!((plans[1].position, plans[1].points), (2, 38));
}

// --- sessions and commands --------------------------------------------------------------

#[test]
fn a_new_session_falls_back_to_defaults() {
    assert_eq!(session_defaults(None, Some("  ")), ("Africa/Lagos".to_string(), "Dapper".to_string()));
    assert_eq!(session_defaults(Some("Europe/Paris"), Some("Ada")), ("Europe/Paris".to_string(), "Ada".to_string()));
}

#[test]
fn the_standing_list_is_seeded_with_two_habits() {
    let seed = standing_seed();
    assert_eq!(seed.len(), 2);
    assert_eq!(seed[0].title, "Take vitamins");
    assert_eq!(seed[1].position, 2);
}

#[test]
fn offline_changes_apply_in_client_time_order() {
    assert_eq!(apply_order(&[(30, 0), (10, 5), (10, 2), (30, 0)]), vec![2, 1, 0, 3]);
}

#[test]
fn each_touched_day_is_recomputed_once() {
    assert_eq!(affected_days(&[9, 3, 9, 1, 3]), vec![1, 3, 9]);
}

#[test]
fn the_worker_reads_its_command() {
    assert_eq!(parse_command(None), Ok(WorkerCommand::RunOnce));
    assert_eq!(parse_command(Some("notify")), Ok(WorkerCommand::Notify));
    assert!(parse_command(Some("sweep")).is_err());
}

// --- request handlers ----------------------------------------------------------------------

#[test]
fn an_open_day_has_no_heatmap_cell() {
    assert_eq!(cell_from_status(StoredDayStatus::Open), Err(SummaryError::OpenDay));
    assert_eq!(cell_name(cell_from_status(StoredDayStatus::Frozen).expect("cell")), "frozen");
    assert_eq!(i64_to_u32(-1), Err(SummaryError::ValueOutOfRange));
    assert_eq!(i64_to_u32(7), Ok(7));
}

#[test]
fn uploads_route_to_the_right_extractor() {
    assert_eq!(extraction_for("text/plain; charset=utf-8", "notes.bin"), Extractor::Utf8Text);
    assert_eq!(extraction_for("application/octet-stream", "Plan.PDF"), Extractor::PdfScript);
    assert_eq!(extraction_for("image/png", "scan.png"), Extractor::ImageScript);
    assert_eq!(extraction_for("application/octet-stream", "plan.docx"), Extractor::Textutil);
    assert_eq!(extraction_for("application/zip", "plan.zip"), Extractor::Unsupported);
}

#[test]
fn extraction_output_is_trimmed_or_explained() {
    assert_eq!(command_text(true, "", "  hello \n", "failed"), Ok("hello".to_string()));
    assert_eq!(command_text(true, "", "   ", "failed"), Err("file did not contain readable text".to_string()));
    assert_eq!(command_text(false, " boom ", "", "failed"), Err("boom".to_string()));
    assert_eq!(command_text(false, "", "", "failed"), Err("failed".to_string()));
}

#[test]
fn upload_extensions_are_kept_only_when_plain() {
    assert_eq!(upload_extension("plan.v2.pdf"), "pdf");
    assert_eq!(upload_extension("plan"), "upload");
    assert_eq!(upload_extension("plan.p-f"), "upload");
}

#[test]
fn normalisation_errors_read_as_messages() {
    assert_eq!(map_normalise_error(NormaliseError::Empty), "source produced no usable text");
}

#[test]
fn projects_and_routines_differ_in_kind() {
    assert_ne!(ProgramKind::Project, ProgramKind::Routine);
}
