use sha2::Digest;
use tracking::cadence::Cadence;
use tracking::calibrate::{calibrate, project};
use tracking::classify::strip_code_fence;
use tracking::generate::{merge, validate, GenerateError, GeneratedProgram, MAX_ESTIMATED_MINUTES};
use tracking::planner::{
    category_for, compact, compile, difficulty_for, extract_topics, fallback_topics, is_numbered,
    is_schedule_label, scale_minutes, strip_number, title_for,
};
use tracking::source::{
    chunk, looks_scanned, normalise, Extracted, NormaliseError, SourceKind,
};
use tracking::types::{ClampedField, GeneratedTask, Intensity, ProgramKind, Warning};

// --- types ------------------------------------------------------------------

#[test]
fn intensity_caps_match_the_product_spec() {
    assert_eq!(Intensity::Light.daily_cap_minutes(), 20);
    assert_eq!(Intensity::Standard.daily_cap_minutes(), 45);
    assert_eq!(Intensity::Heavy.daily_cap_minutes(), 90);
}

#[test]
fn tolerance_is_twenty_percent_over_the_cap() {
    assert_eq!(Intensity::Light.tolerated_minutes(), 24);
    assert_eq!(Intensity::Standard.tolerated_minutes(), 54);
    assert_eq!(Intensity::Heavy.tolerated_minutes(), 108);
}

#[test]
fn only_a_once_cadence_pins_a_day() {
    assert_eq!(task("x", 10, Cadence::Once { day_offset: 4 }).pinned_day(), Some(4));
    assert_eq!(task("x", 10, Cadence::Daily).pinned_day(), None);
}

// --- source -----------------------------------------------------------------

fn extracted(text: &str) -> Extracted {
    Extracted { text: text.to_owned(), pages: None }
}

#[test]
fn routes_mime_types_to_extractors() {
    assert_eq!(SourceKind::from_mime("application/pdf"), Some(SourceKind::Pdf));
    assert_eq!(SourceKind::from_mime("text/plain; charset=utf-8"), Some(SourceKind::Text));
    assert_eq!(SourceKind::from_mime("image/png"), Some(SourceKind::Image));
    assert_eq!(SourceKind::from_mime("audio/mpeg"), Some(SourceKind::Audio));
    assert_eq!(SourceKind::from_mime("application/zip"), None);
}

#[test]
fn other_mime_types_route_as_documented() {
    assert_eq!(SourceKind::from_mime("  text/markdown  "), Some(SourceKind::Markdown));
    assert_eq!(SourceKind::from_mime("text/x-markdown"), Some(SourceKind::Markdown));
    assert_eq!(SourceKind::from_mime("text/html"), Some(SourceKind::Url));
    assert_eq!(
        SourceKind::from_mime("application/vnd.openxmlformats-officedocument.wordprocessingml.document"),
        Some(SourceKind::Docx)
    );
    assert!(SourceKind::Pdf.needs_external_extraction());
    assert!(!SourceKind::Text.needs_external_extraction());
}

#[test]
fn normalisation_makes_the_content_hash_stable() {
    let a = normalise(&extracted("Day 1: run  \r\nDay 2: rest\r\n\r\n\r\n"), SourceKind::Text).expect("normalises");
    let b = normalise(&extracted("Day 1: run\nDay 2: rest"), SourceKind::Text).expect("normalises");
    assert_eq!(a.content_hash, b.content_hash);
    assert_eq!(a.text, "Day 1: run\nDay 2: rest");
}

#[test]
fn different_content_hashes_differently() {
    let a = normalise(&extracted("Day 1: run a mile"), SourceKind::Text).expect("normalises");
    let b = normalise(&extracted("Day 1: run two miles"), SourceKind::Text).expect("normalises");
    assert_ne!(a.content_hash, b.content_hash);
    assert_eq!(a.hash_hex().len(), 64);
}

#[test]
fn the_content_hash_is_the_sha256_of_the_text() {
    let n = normalise(&extracted("Day 1: run a mile"), SourceKind::Text).expect("normalises");
    let expected: [u8; 32] = sha2::Sha256::digest("Day 1: run a mile".as_bytes()).into();
    assert_eq!(n.content_hash, expected);
    let hex: String = expected.iter().map(|byte| format!("{byte:02x}")).collect();
    assert_eq!(n.hash_hex(), hex);
}

#[test]
fn control_characters_are_stripped_but_tabs_survive() {
    let result = normalise(&extracted("Day 1:\tspeed work\u{0}\u{7}"), SourceKind::Text).expect("normalises");
    assert_eq!(result.text, "Day 1:\tspeed work");
}

#[test]
fn blank_line_runs_collapse_to_one() {
    let result = normalise(&extracted("Week 1\n\n\n\nWeek 2\r\rWeek 3"), SourceKind::Text).expect("normalises");
    assert_eq!(result.text, "Week 1\n\nWeek 2\n\nWeek 3");
}

#[test]
fn a_short_typed_plan_is_not_rejected_as_empty() {
    for plan in ["Run 5k in 8 weeks", "Learn Rust in 100 days", "Physio: 3x a week"] {
        assert!(normalise(&extracted(plan), SourceKind::Text).is_ok(), "rejected a legitimate plan: {plan}");
    }
}

#[test]
fn an_empty_source_is_refused_rather_than_sent_to_a_model() {
    assert_eq!(normalise(&extracted("   \n\n  "), SourceKind::Text), Err(NormaliseError::Empty));
}

#[test]
fn a_sparse_pdf_is_routed_to_ocr_not_reported_as_empty() {
    let scan = Extracted { text: "Chapter 1 ".repeat(3), pages: Some(40) };
    assert_eq!(normalise(&scan, SourceKind::Pdf), Err(NormaliseError::NeedsOcr));
    let unpaged = Extracted { text: "Chapter 1 ".repeat(3), pages: None };
    assert!(normalise(&unpaged, SourceKind::Pdf).is_ok());
}

#[test]
fn a_dense_pdf_extracts_normally() {
    let real = Extracted { text: "Week 1 session detail. ".repeat(500), pages: Some(10) };
    assert!(normalise(&real, SourceKind::Pdf).is_ok());
}

#[test]
fn scanned_means_under_a_hundred_characters_a_page() {
    assert!(looks_scanned(&"x".repeat(199), Some(2)));
    assert!(!looks_scanned(&"x".repeat(200), Some(2)));
    assert!(!looks_scanned("x", Some(0)));
    assert!(!looks_scanned("x", None));
    assert_eq!(NormaliseError::NeedsOcr.message(), "source looks like a scan and needs OCR");
}

#[test]
fn short_text_is_a_single_chunk() {
    assert_eq!(chunk("Day 1: run", 1000), vec!["Day 1: run".to_owned()]);
    assert!(chunk("", 1000).is_empty());
}

#[test]
fn long_text_splits_on_paragraph_boundaries() {
    let text = (1..=10)
        .map(|n| format!("Week {n}\n{}", "session detail. ".repeat(20)))
        .collect::<Vec<_>>()
        .join("\n\n");
    let chunks = chunk(&text, 1000);
    assert!(chunks.len() > 1);
    for piece in &chunks {
        assert!(piece.starts_with("Week"), "cut mid-paragraph: {piece:.40}");
    }
}

#[test]
fn chunking_preserves_every_paragraph() {
    let text = (1..=40).map(|n| format!("Week {n} detail")).collect::<Vec<_>>().join("\n\n");
    let chunks = chunk(&text, 100);
    let rejoined = chunks.join("\n\n");
    for n in 1..=40 {
        assert!(rejoined.contains(&format!("Week {n} detail")), "week {n} was dropped");
    }
    assert_eq!(rejoined, text);
}

#[test]
fn a_chunk_of_several_paragraphs_fits_the_target() {
    let text = [
        "short one".to_owned(),
        "y".repeat(300),
        "a middling paragraph of some length".to_owned(),
        "another".to_owned(),
        "z".repeat(150),
        "tail".to_owned(),
    ]
    .join("\n\n");
    let chunks = chunk(&text, 100);
    assert!(chunks.len() > 1);
    for piece in &chunks {
        assert!(
            !piece.contains("\n\n") || piece.chars().count() <= 100,
            "a chunk of several paragraphs ran past the target: {piece:.40}"
        );
    }
    assert!(chunks.contains(&"y".repeat(300)));
    assert_eq!(chunks.join("\n\n"), text);
}

#[test]
fn a_paragraph_longer_than_the_target_is_kept_whole() {
    let huge = "x".repeat(5_000);
    let chunks = chunk(&huge, 100);
    assert_eq!(chunks.len(), 1);
    assert_eq!(chunks[0].chars().count(), 5_000);
}

#[test]
fn a_zero_target_is_treated_as_one() {
    assert_eq!(chunk("ab\n\ncd", 0), vec!["ab".to_owned(), "cd".to_owned()]);
}

// --- classify ---------------------------------------------------------------

#[test]
fn parses_through_a_fenced_code_block() {
    let raw = "```json\n{\"kind\":\"routine\",\"confidence\":0.9}\n```";
    let inner = strip_code_fence(raw);
    assert_eq!(inner, "{\"kind\":\"routine\",\"confidence\":0.9}");
    let value: serde_json::Value = serde_json::from_str(inner).expect("parses");
    assert_eq!(value["kind"], "routine");
}

#[test]
fn unfenced_output_is_only_trimmed() {
    assert_eq!(strip_code_fence("  {\"a\":1}\n"), "{\"a\":1}");
    assert_eq!(strip_code_fence("```{\"a\":1}```"), "{\"a\":1}");
}

// --- generate ---------------------------------------------------------------

fn task(title: &str, minutes: u16, cadence: Cadence) -> GeneratedTask {
    GeneratedTask {
        title: title.to_owned(),
        description: None,
        category: None,
        difficulty: 3,
        estimated_minutes: minutes,
        cadence,
    }
}

fn program(kind: ProgramKind, duration_days: u16, tasks: Vec<GeneratedTask>) -> GeneratedProgram {
    GeneratedProgram {
        title: "8 week plan".to_owned(),
        summary: "a plan".to_owned(),
        kind,
        duration_days,
        tasks,
        warnings: Vec::new(),
    }
}

#[test]
fn a_clean_program_passes_untouched() {
    let input = program(ProgramKind::Routine, 30, vec![task("Run 5k", 30, Cadence::Daily)]);
    let result = validate(input.clone(), false).expect("valid");
    assert!(result.warnings.is_empty());
    assert_eq!(result.program.tasks, input.tasks);
}

#[test]
fn out_of_range_numbers_are_clamped_and_reported() {
    let mut input = program(ProgramKind::Routine, 0, vec![task("Run", 30, Cadence::Daily)]);
    input.tasks[0].difficulty = 9;
    input.tasks[0].estimated_minutes = 9_000;
    // The confidence of 4.2 was pulled back to 1.0 by the caller.
    let result = validate(input, true).expect("repairable");
    assert_eq!(result.program.tasks[0].difficulty, 5);
    assert_eq!(result.program.tasks[0].estimated_minutes, MAX_ESTIMATED_MINUTES);
    assert_eq!(result.program.duration_days, 1);
    for field in
        [ClampedField::Difficulty, ClampedField::EstimatedMinutes, ClampedField::DurationDays, ClampedField::Confidence]
    {
        assert!(
            result.warnings.iter().any(|w| matches!(w, Warning::ValueClamped { field: f, .. } if *f == field)),
            "{field:?} was clamped without telling anyone"
        );
    }
    assert_eq!(result.program.warnings, result.warnings);
}

#[test]
fn a_task_pinned_past_the_end_is_pulled_back_not_dropped() {
    let input = program(ProgramKind::Curriculum, 10, vec![task("Read chapter 40", 30, Cadence::Once { day_offset: 400 })]);
    let result = validate(input, false).expect("repairable");
    assert_eq!(result.program.tasks.len(), 1, "the task still exists");
    assert_eq!(result.program.tasks[0].cadence, Cadence::Once { day_offset: 9 });
}

#[test]
fn an_invalid_cadence_is_refused_outright() {
    let input = program(ProgramKind::Routine, 10, vec![task("Run", 30, Cadence::WeeklyDays { days: vec![9] })]);
    assert!(matches!(validate(input, false), Err(GenerateError::InvalidCadence { task_index: 0, .. })));
}

#[test]
fn missing_content_is_a_failure_rather_than_an_invention() {
    assert_eq!(validate(program(ProgramKind::Routine, 10, vec![]), false), Err(GenerateError::NoTasks));
    let blank = program(ProgramKind::Routine, 10, vec![task("   ", 30, Cadence::Daily)]);
    assert_eq!(validate(blank, false), Err(GenerateError::EmptyTitle { task_index: 0 }));
}

#[test]
fn titles_are_trimmed_and_existing_warnings_come_last() {
    let mut input = program(ProgramKind::Routine, 10, vec![task("  Run  ", 0, Cadence::Daily)]);
    input.warnings.push(Warning::EmptyDay { day_index: 2 });
    let result = validate(input, false).expect("repairable");
    assert_eq!(result.program.tasks[0].title, "Run");
    assert_eq!(
        result.warnings,
        vec![
            Warning::ValueClamped { task_index: Some(0), field: ClampedField::EstimatedMinutes },
            Warning::EmptyDay { day_index: 2 },
        ]
    );
}

#[test]
fn a_chunked_curriculum_continues_rather_than_overlapping() {
    let first = program(ProgramKind::Curriculum, 10, vec![task("Read chapter 1", 30, Cadence::Once { day_offset: 0 })]);
    let second = program(ProgramKind::Curriculum, 10, vec![task("Read chapter 11", 30, Cadence::Once { day_offset: 0 })]);
    let merged = merge(vec![first, second]).expect("merges");
    assert_eq!(merged.duration_days, 20);
    assert_eq!(merged.tasks[1].cadence, Cadence::Once { day_offset: 10 });
}

#[test]
fn a_chunked_routine_overlaps_and_collapses_duplicates() {
    let first = program(
        ProgramKind::Routine,
        30,
        vec![task("Run 5k", 30, Cadence::Daily), task("Stretch", 30, Cadence::Daily)],
    );
    let second = program(
        ProgramKind::Routine,
        14,
        vec![task("Run 5k", 30, Cadence::Daily), task("Swim", 30, Cadence::NPerWeek { count: 2 })],
    );
    let merged = merge(vec![first, second]).expect("merges");
    assert_eq!(merged.duration_days, 30, "a routine repeats, it does not extend");
    let titles: Vec<&str> = merged.tasks.iter().map(|t| t.title.as_str()).collect();
    assert_eq!(titles, vec!["Run 5k", "Stretch", "Swim"]);
}

#[test]
fn merging_nothing_is_an_error_not_an_empty_program() {
    assert_eq!(merge(Vec::new()), Err(GenerateError::NothingToMerge));
}

#[test]
fn chunked_output_survives_merge_validate_and_calibrate() {
    let chunks = (0..4)
        .map(|n| {
            program(ProgramKind::Curriculum, 5, vec![task(&format!("Study unit {n}"), 30, Cadence::Once { day_offset: 0 })])
        })
        .collect();
    let merged = merge(chunks).expect("merges");
    let validated = validate(merged, false).expect("validates");
    let calibrated = calibrate(validated.program.tasks, validated.program.duration_days, Intensity::Standard);
    assert_eq!(calibrated.tasks.len(), 4, "no unit was lost");
    assert_eq!(calibrated.total_minutes(), 4 * 30);
}

// --- calibrate --------------------------------------------------------------

fn pinned(minutes: u16, day: u32) -> GeneratedTask {
    task("do the thing", minutes, Cadence::Once { day_offset: day })
}

fn total_minutes(tasks: &[GeneratedTask]) -> u32 {
    tasks.iter().map(|task| u32::from(task.estimated_minutes)).sum()
}

#[test]
fn daily_tasks_land_on_every_day() {
    assert_eq!(project(&[task("t", 15, Cadence::Daily)], 4), vec![15, 15, 15, 15]);
}

#[test]
fn weekday_tasks_project_from_a_monday_start() {
    let load = project(&[task("t", 30, Cadence::WeeklyDays { days: vec![1, 3] })], 14);
    assert_eq!(load, vec![30, 0, 30, 0, 0, 0, 0, 30, 0, 30, 0, 0, 0, 0]);
}

#[test]
fn floating_tasks_fill_the_lightest_days_of_each_week() {
    let tasks = vec![task("t", 60, Cadence::Once { day_offset: 0 }), task("t", 30, Cadence::NPerWeek { count: 3 })];
    let load = project(&tasks, 7);
    assert_eq!(load[0], 60);
    assert_eq!(load.iter().filter(|minutes| **minutes == 30).count(), 3);
    assert_eq!(load.iter().sum::<u32>(), 60 + 90);
}

#[test]
fn floating_sessions_do_not_stack_on_one_day() {
    let load = project(&[task("t", 20, Cadence::NPerWeek { count: 3 })], 7);
    assert!(load.iter().all(|minutes| *minutes <= 20), "sessions stacked: {load:?}");
}

#[test]
fn a_long_pinned_task_is_split_across_consecutive_days() {
    let result = calibrate(vec![pinned(90, 0)], 4, Intensity::Standard);
    assert_eq!(result.tasks.len(), 2);
    assert_eq!(total_minutes(&result.tasks), 90, "minutes must be conserved");
    assert!(result.warnings.iter().any(|w| matches!(w, Warning::TaskSplit { parts: 2, .. })));
    assert_eq!(result.tasks[0].title, "do the thing (1/2)");
}

#[test]
fn splitting_conserves_minutes_that_do_not_divide_evenly() {
    let result = calibrate(vec![pinned(100, 0)], 10, Intensity::Standard);
    assert_eq!(total_minutes(&result.tasks), 100);
    assert_eq!(result.tasks.len(), 3);
    let mut minutes: Vec<u16> = result.tasks.iter().map(|task| task.estimated_minutes).collect();
    minutes.sort_unstable();
    assert_eq!(minutes, vec![33, 33, 34]);
}

#[test]
fn overflow_is_pushed_to_a_later_day_rather_than_dropped() {
    let result = calibrate(vec![pinned(40, 0), pinned(40, 0), pinned(40, 0)], 5, Intensity::Standard);
    assert_eq!(total_minutes(&result.tasks), 120, "nothing was dropped");
    assert!(result
        .projected_minutes
        .iter()
        .all(|minutes| *minutes <= u32::from(Intensity::Standard.tolerated_minutes())));
    assert!(result.warnings.iter().any(|w| matches!(w, Warning::TaskMoved { .. })));
}

#[test]
fn the_duration_stretches_when_there_is_nowhere_to_push_to() {
    let tasks = vec![pinned(40, 0), pinned(40, 0), pinned(40, 1), pinned(40, 1)];
    let result = calibrate(tasks, 2, Intensity::Standard);
    assert!(result.duration_days > 2, "expected the program to stretch");
    assert!(result.duration_days <= 3, "1.5x of 2 days is 3");
    assert_eq!(total_minutes(&result.tasks), 160);
    assert!(result.warnings.iter().any(|w| matches!(w, Warning::DurationExtended { .. })));
}

#[test]
fn a_structurally_overloaded_program_is_flagged_not_silently_trimmed() {
    let result = calibrate(vec![task("t", 90, Cadence::Daily)], 5, Intensity::Light);
    assert_eq!(total_minutes(&result.tasks), 90, "the task still exists");
    assert_eq!(result.duration_days, 5, "no pointless stretching");
    assert!(result.warnings.iter().any(|w| matches!(w, Warning::DayOverCapacity { .. })));
}

#[test]
fn empty_days_inside_the_duration_are_reported() {
    let result = calibrate(vec![pinned(20, 0)], 3, Intensity::Standard);
    let empty: Vec<u16> = result
        .warnings
        .iter()
        .filter_map(|w| match w {
            Warning::EmptyDay { day_index } => Some(*day_index),
            _ => None,
        })
        .collect();
    assert_eq!(empty, vec![1, 2]);
}

#[test]
fn a_program_already_within_budget_is_left_alone() {
    let tasks = vec![task("t", 20, Cadence::Daily), pinned(15, 2)];
    let result = calibrate(tasks.clone(), 7, Intensity::Standard);
    assert_eq!(result.duration_days, 7);
    assert_eq!(result.tasks, tasks, "no gratuitous rewriting");
    assert!(!result.warnings.iter().any(|w| matches!(w, Warning::DayOverCapacity { .. })));
}

#[test]
fn projected_load_covers_every_day_and_sums_to_the_total() {
    let result = calibrate(vec![task("t", 10, Cadence::Daily), pinned(5, 1)], 3, Intensity::Heavy);
    assert_eq!(result.projected_minutes.len(), usize::from(result.duration_days));
    assert_eq!(result.total_minutes(), 35);
}

// --- planner ----------------------------------------------------------------

#[test]
fn expands_day_topics_into_atomic_actions() {
    let program = compile("Day 1: ownership\nDay 2: borrowing", None, ProgramKind::Curriculum, Some(2), Intensity::Standard);
    assert_eq!(program.tasks.len(), 6);
    assert!(program.tasks.iter().all(|task| task.description.is_some()));
    assert!(matches!(program.tasks[0].cadence, Cadence::Once { day_offset: 0 }));
    assert!(matches!(program.tasks[3].cadence, Cadence::Once { day_offset: 1 }));
}

#[test]
fn vague_input_gets_a_real_progression_without_ai() {
    let program = compile("Learn Rust", None, ProgramKind::Curriculum, Some(14), Intensity::Standard);
    assert_eq!(program.tasks.len(), 42);
    assert!(program.tasks.iter().any(|task| task.title.starts_with("Practice")));
}

#[test]
fn plan_tasks_read_as_written() {
    let program = compile("Day 1: ownership", None, ProgramKind::Curriculum, None, Intensity::Standard);
    assert_eq!(program.duration_days, 1);
    assert_eq!(program.title, "Day 1: ownership");
    assert_eq!(program.summary, "A dependency-ordered plan for ownership.");
    assert_eq!(program.tasks[0].title, "Read and outline ownership");
    assert_eq!(
        program.tasks[0].description.as_deref(),
        Some("Why: move toward ownership. Done when: Capture the key ideas and vocabulary for ownership. Source: ownership.")
    );
    assert_eq!(program.tasks[0].category.as_deref(), Some("core"));
    assert_eq!(program.tasks[0].difficulty, 3);
    assert_eq!(program.tasks[1].estimated_minutes, 18);
}

#[test]
fn planner_helpers_behave_as_documented() {
    assert_eq!(compact("  learn   the\tbasics "), "learn the basics");
    assert!(is_numbered("  12) Intro"));
    assert!(!is_numbered("12 Intro"));
    assert_eq!(strip_number(" 3. Borrowing"), "Borrowing");
    assert_eq!(strip_number("Borrowing"), "Borrowing");
    assert!(is_schedule_label("Week"));
    assert!(!is_schedule_label("Weekly review"));
    assert_eq!(category_for("Build a CLI"), "build");
    assert_eq!(category_for("Review notes"), "review");
    assert_eq!(category_for("Ownership"), "core");
    assert_eq!(scale_minutes(12, Intensity::Light), 9);
    assert_eq!(scale_minutes(12, Intensity::Heavy), 15);
    assert_eq!(scale_minutes(2, Intensity::Standard), 5);
    assert_eq!(difficulty_for(3, 4), 3);
    assert_eq!(difficulty_for(3, 5), 2);
    assert_eq!(difficulty_for(0, 5), 1);
    assert_eq!(
        extract_topics("Intro text\nWeek 1: Basics\n- Traits\n2. Lifetimes\nWeek\n* \nChapter 3"),
        vec!["Basics".to_owned(), "Traits".to_owned(), "Lifetimes".to_owned(), "Chapter 3".to_owned()]
    );
    assert_eq!(fallback_topics("", Some("  Learn Go ")).len(), 4);
    assert_eq!(fallback_topics("", None)[0], "Define success for your goal");
    assert_eq!(title_for("\n  first line \n", None, ProgramKind::Project), "first line");
    assert_eq!(title_for("", None, ProgramKind::Routine), "Routine");
}
