//! Creating a program from a request: what a directly authored program must
//! satisfy, how a ready draft becomes one, and what each task template is
//! stored with.
use vstd::prelude::*;
use crate::cadence::{spec_validate, Cadence};
use crate::generate::{task_views, GeneratedProgram};
use crate::scoring::{spec_task_points, task_points};
use crate::text::{chars_of, range_equals, trim, trimmed};
use crate::time::LocalDate;
use crate::types::{opt_view, GeneratedTask, GeneratedTaskView, Intensity, ProgramKind};

verus! {

broadcast use vstd::string::group_string_axioms;

/// Why a program request was refused.
#[derive(Clone, Copy, Debug, PartialEq, Eq, Structural)]
pub enum ProgramRequestError {
    InvalidDuration,
    NoTasks,
    MissingTitle,
    InvalidDifficulty,
    InvalidTaskDuration,
    InvalidCadence,
    DraftNotReady,
    DraftMissing,
    InvalidStoredIntensity,
    InvalidBoundary,
    FocusConflict,
    TooManyTasks,
}

impl ProgramRequestError {
    /// What the client is told.
    pub fn message(&self) -> (text: &'static str)
        ensures
            text@ == (match *self {
                ProgramRequestError::InvalidDuration => "invalid duration"@,
                ProgramRequestError::NoTasks => "program requires tasks"@,
                ProgramRequestError::MissingTitle => "task title is required"@,
                ProgramRequestError::InvalidDifficulty => "invalid difficulty"@,
                ProgramRequestError::InvalidTaskDuration => "invalid task duration"@,
                ProgramRequestError::InvalidCadence => "invalid cadence"@,
                ProgramRequestError::DraftNotReady => "ingest job is not ready"@,
                ProgramRequestError::DraftMissing => "ingest draft is missing"@,
                ProgramRequestError::InvalidStoredIntensity => "invalid stored intensity"@,
                ProgramRequestError::InvalidBoundary => "invalid day boundary hour"@,
                ProgramRequestError::FocusConflict => "pause or finish the active program first"@,
                ProgramRequestError::TooManyTasks => "too many tasks"@,
            }),
    {
        match self {
            ProgramRequestError::InvalidDuration => "invalid duration",
            ProgramRequestError::NoTasks => "program requires tasks",
            ProgramRequestError::MissingTitle => "task title is required",
            ProgramRequestError::InvalidDifficulty => "invalid difficulty",
            ProgramRequestError::InvalidTaskDuration => "invalid task duration",
            ProgramRequestError::InvalidCadence => "invalid cadence",
            ProgramRequestError::DraftNotReady => "ingest job is not ready",
            ProgramRequestError::DraftMissing => "ingest draft is missing",
            ProgramRequestError::InvalidStoredIntensity => "invalid stored intensity",
            ProgramRequestError::InvalidBoundary => "invalid day boundary hour",
            ProgramRequestError::FocusConflict => "pause or finish the active program first",
            ProgramRequestError::TooManyTasks => "too many tasks",
        }
    }
}

#[derive(Clone, Copy, Debug, PartialEq, Eq, Structural)]
pub enum ProgramKindBody {
    Curriculum,
    Routine,
    Project,
}

impl ProgramKindBody {
    pub fn as_db_value(&self) -> (value: &'static str)
        ensures
            value@ == (match self {
                ProgramKindBody::Curriculum => "curriculum"@,
                ProgramKindBody::Routine => "routine"@,
                ProgramKindBody::Project => "project"@,
            }),
    {
        match self {
            ProgramKindBody::Curriculum => "curriculum",
            ProgramKindBody::Routine => "routine",
            ProgramKindBody::Project => "project",
        }
    }
}

#[derive(Clone, Copy, Debug, PartialEq, Eq, Structural)]
pub enum IntensityBody {
    Light,
    Standard,
    Heavy,
}

impl IntensityBody {
    pub fn as_db_value(&self) -> (value: &'static str)
        ensures
            value@ == (match self {
                IntensityBody::Light => "light"@,
                IntensityBody::Standard => "standard"@,
                IntensityBody::Heavy => "heavy"@,
            }),
    {
        match self {
            IntensityBody::Light => "light",
            IntensityBody::Standard => "standard",
            IntensityBody::Heavy => "heavy",
        }
    }
}

/// A task as the client sends it.
#[derive(Clone, Debug, PartialEq, Eq)]
pub struct CreateTaskBody {
    pub title: String,
    pub description: Option<String>,
    pub category: Option<String>,
    pub difficulty: u8,
    pub estimated_minutes: u16,
    pub cadence: Cadence,
}

/// A directly authored program.
#[derive(Clone, Debug, PartialEq, Eq)]
pub struct CreateProgramBody {
    pub title: String,
    pub summary: Option<String>,
    pub kind: ProgramKindBody,
    pub duration_days: i32,
    pub intensity: IntensityBody,
    pub start_date: LocalDate,
    pub timezone: Option<String>,
    pub day_boundary_hour: Option<i16>,
    pub tasks: Vec<CreateTaskBody>,
}

/// A request to start a program from a ready ingestion draft.
pub struct CreateProgramFromDraftBody {
    pub ingest_job_id: uuid::Uuid,
    pub start_date: LocalDate,
    pub timezone: Option<String>,
    pub day_boundary_hour: Option<i16>,
}

/// The first thing wrong with one task, if anything.
pub open spec fn task_problem(title: Seq<char>, difficulty: u8, minutes: u16, cadence: crate::cadence::CadenceView) -> Option<
    ProgramRequestError,
> {
    if trim(title).len() == 0 {
        Some(ProgramRequestError::MissingTitle)
    } else if !(1 <= difficulty <= 5) {
        Some(ProgramRequestError::InvalidDifficulty)
    } else if !(1 <= minutes <= 480) {
        Some(ProgramRequestError::InvalidTaskDuration)
    } else if spec_validate(cadence, false) is Err {
        Some(ProgramRequestError::InvalidCadence)
    } else {
        None
    }
}

pub open spec fn body_task_problem(t: CreateTaskBody) -> Option<ProgramRequestError> {
    task_problem(t.title@, t.difficulty, t.estimated_minutes, t.cadence@)
}

/// The first problem among the tasks, in order.
pub open spec fn first_task_problem(tasks: Seq<CreateTaskBody>) -> Option<ProgramRequestError>
    decreases tasks.len(),
{
    if tasks.len() == 0 {
        None
    } else {
        match first_task_problem(tasks.drop_last()) {
            Some(e) => Some(e),
            None => body_task_problem(tasks.last()),
        }
    }
}

/// What a directly authored program must satisfy: a duration of one to 730
/// days, at least one task, and every task titled, of difficulty one to five,
/// one to 480 minutes long, and with a cadence a bounded program allows.
pub open spec fn spec_validate_body(duration_days: i32, tasks: Seq<CreateTaskBody>) -> Result<(), ProgramRequestError> {
    if duration_days < 1 || duration_days > 730 {
        Err(ProgramRequestError::InvalidDuration)
    } else if tasks.len() == 0 {
        Err(ProgramRequestError::NoTasks)
    } else {
        match first_task_problem(tasks) {
            Some(e) => Err(e),
            None => Ok(()),
        }
    }
}

fn check_task(task: &CreateTaskBody) -> (problem: Option<ProgramRequestError>)
    ensures
        problem == body_task_problem(*task),
{
    let title = trimmed(task.title.as_str());
    if title.as_str().is_empty() {
        return Some(ProgramRequestError::MissingTitle);
    }
    if task.difficulty < 1 || task.difficulty > 5 {
        return Some(ProgramRequestError::InvalidDifficulty);
    }
    if task.estimated_minutes < 1 || task.estimated_minutes > 480 {
        return Some(ProgramRequestError::InvalidTaskDuration);
    }
    match task.cadence.validate_for_program(false) {
        Err(_) => Some(ProgramRequestError::InvalidCadence),
        Ok(()) => None,
    }
}

pub fn validate_program_body(body: &CreateProgramBody) -> (result: Result<(), ProgramRequestError>)
    ensures
        result == spec_validate_body(body.duration_days, body.tasks@),
{
    if body.duration_days < 1 || body.duration_days > 730 {
        return Err(ProgramRequestError::InvalidDuration);
    }
    if body.tasks.len() == 0 {
        return Err(ProgramRequestError::NoTasks);
    }
    let mut i: usize = 0;
    while i < body.tasks.len()
        invariant
            i <= body.tasks@.len(),
            1 <= body.duration_days <= 730,
            body.tasks@.len() > 0,
            first_task_problem(body.tasks@.take(i as int)) == None::<ProgramRequestError>,
        decreases body.tasks.len() - i,
    {
        assert(body.tasks@.take(i + 1).drop_last() == body.tasks@.take(i as int));
        assert(body.tasks@.take(i + 1).last() == body.tasks@[i as int]);
        match check_task(&body.tasks[i]) {
            Some(e) => {
                proof {
                    lemma_problem_extends(body.tasks@, i + 1);
                }
                return Err(e);
            },
            None => {},
        }
        i += 1;
    }
    assert(body.tasks@.take(body.tasks@.len() as int) == body.tasks@);
    Ok(())
}

proof fn lemma_problem_extends(tasks: Seq<CreateTaskBody>, n: int)
    requires
        0 <= n <= tasks.len(),
        first_task_problem(tasks.take(n)) is Some,
    ensures
        first_task_problem(tasks) == first_task_problem(tasks.take(n)),
    decreases tasks.len(),
{
    if n == tasks.len() {
        assert(tasks.take(n) == tasks);
    } else {
        assert(tasks.drop_last().take(n) == tasks.take(n));
        lemma_problem_extends(tasks.drop_last(), n);
    }
}

/// A program resolved from a request, ready to be stored.
pub struct ResolvedProgram {
    pub title: String,
    pub summary: Option<String>,
    pub kind: &'static str,
    pub duration_days: i32,
    pub intensity: &'static str,
    pub start_date: LocalDate,
    pub timezone: Option<String>,
    pub day_boundary_hour: Option<i16>,
    pub tasks: Vec<CreateTaskBody>,
    pub source_id: Option<uuid::Uuid>,
}

/// A directly authored program, once it is valid.
pub fn resolve_direct_program(body: CreateProgramBody) -> (result: Result<ResolvedProgram, ProgramRequestError>)
    ensures
        match result {
            Ok(p) => spec_validate_body(body.duration_days, body.tasks@) is Ok && p.title@ == body.title@
                && opt_view(p.summary) == opt_view(body.summary) && p.duration_days == body.duration_days
                && p.start_date == body.start_date && p.day_boundary_hour == body.day_boundary_hour && opt_view(
                p.timezone,
            ) == opt_view(body.timezone) && p.tasks@ == body.tasks@ && p.source_id is None && p.kind@ == (match body.kind {
                ProgramKindBody::Curriculum => "curriculum"@,
                ProgramKindBody::Routine => "routine"@,
                ProgramKindBody::Project => "project"@,
            }) && p.intensity@ == (match body.intensity {
                IntensityBody::Light => "light"@,
                IntensityBody::Standard => "standard"@,
                IntensityBody::Heavy => "heavy"@,
            }),
            Err(e) => spec_validate_body(body.duration_days, body.tasks@) == Err::<(), ProgramRequestError>(e),
        },
{
    match validate_program_body(&body) {
        Err(e) => {
            return Err(e);
        },
        Ok(()) => {},
    }
    let kind = body.kind.as_db_value();
    let intensity = body.intensity.as_db_value();
    Ok(
        ResolvedProgram {
            title: body.title,
            summary: body.summary,
            kind,
            duration_days: body.duration_days,
            intensity,
            start_date: body.start_date,
            timezone: body.timezone,
            day_boundary_hour: body.day_boundary_hour,
            tasks: body.tasks,
            source_id: None,
        },
    )
}

/// The stored intensity a draft was requested at.
pub fn intensity_from_db_value(value: &str) -> (intensity: Result<Intensity, ProgramRequestError>)
    ensures
        intensity == (if value@ == "light"@ {
            Ok::<Intensity, ProgramRequestError>(Intensity::Light)
        } else if value@ == "standard"@ {
            Ok(Intensity::Standard)
        } else if value@ == "heavy"@ {
            Ok(Intensity::Heavy)
        } else {
            Err(ProgramRequestError::InvalidStoredIntensity)
        }),
{
    let chars = chars_of(value);
    assert(chars@.subrange(0, chars@.len() as int) == chars@);
    if range_equals(chars.as_slice(), 0, chars.len(), "light") {
        Ok(Intensity::Light)
    } else if range_equals(chars.as_slice(), 0, chars.len(), "standard") {
        Ok(Intensity::Standard)
    } else if range_equals(chars.as_slice(), 0, chars.len(), "heavy") {
        Ok(Intensity::Heavy)
    } else {
        Err(ProgramRequestError::InvalidStoredIntensity)
    }
}

pub open spec fn intensity_name(intensity: Intensity) -> Seq<char> {
    match intensity {
        Intensity::Light => "light"@,
        Intensity::Standard => "standard"@,
        Intensity::Heavy => "heavy"@,
    }
}

pub fn intensity_db_value_from_generated(intensity: Intensity) -> (value: &'static str)
    ensures
        value@ == intensity_name(intensity),
{
    match intensity {
        Intensity::Light => "light",
        Intensity::Standard => "standard",
        Intensity::Heavy => "heavy",
    }
}

/// Every intensity reads back from its stored name.
pub proof fn lemma_intensity_name_round_trip(intensity: Intensity)
    ensures
        (if intensity_name(intensity) == "light"@ {
            Intensity::Light
        } else if intensity_name(intensity) == "standard"@ {
            Intensity::Standard
        } else {
            Intensity::Heavy
        }) == intensity,
{
    reveal_strlit("light");
    reveal_strlit("standard");
    reveal_strlit("heavy");
    assert("light"@ != "standard"@ && "light"@ != "heavy"@ && "standard"@ != "heavy"@) by {
        assert("light"@.len() != "standard"@.len());
        assert("light"@[0] != "heavy"@[0]);
        assert("standard"@.len() != "heavy"@.len());
    }
}

pub fn program_kind_db_value(kind: ProgramKind) -> (value: &'static str)
    ensures
        value@ == (match kind {
            ProgramKind::Curriculum => "curriculum"@,
            ProgramKind::Routine => "routine"@,
            ProgramKind::Project => "project"@,
        }),
{
    match kind {
        ProgramKind::Curriculum => "curriculum",
        ProgramKind::Routine => "routine",
        ProgramKind::Project => "project",
    }
}

/// A generated task as a task the client could have sent.
pub fn create_task_from_generated(task: GeneratedTask) -> (body: CreateTaskBody)
    ensures
        body.title@ == task.title@,
        opt_view(body.description) == opt_view(task.description),
        opt_view(body.category) == opt_view(task.category),
        body.difficulty == task.difficulty,
        body.estimated_minutes == task.estimated_minutes,
        body.cadence == task.cadence,
{
    CreateTaskBody {
        title: task.title,
        description: task.description,
        category: task.category,
        difficulty: task.difficulty,
        estimated_minutes: task.estimated_minutes,
        cadence: task.cadence,
    }
}

/// Only a draft whose ingestion finished can start a program.
pub fn draft_ready(status: &str) -> (ready: Result<(), ProgramRequestError>)
    ensures
        ready == (if status@ == "ready"@ {
            Ok::<(), ProgramRequestError>(())
        } else {
            Err(ProgramRequestError::DraftNotReady)
        }),
{
    let chars = chars_of(status);
    assert(chars@.subrange(0, chars@.len() as int) == chars@);
    if range_equals(chars.as_slice(), 0, chars.len(), "ready") {
        Ok(())
    } else {
        Err(ProgramRequestError::DraftNotReady)
    }
}

/// A ready draft turned into a program to store, at the intensity the
/// ingestion was requested at.
pub fn resolve_draft_program(
    source_id: Option<uuid::Uuid>,
    stored_intensity: &str,
    draft: GeneratedProgram,
    body: CreateProgramFromDraftBody,
) -> (result: Result<ResolvedProgram, ProgramRequestError>)
    ensures
        match result {
            Ok(p) => (stored_intensity@ == "light"@ || stored_intensity@ == "standard"@ || stored_intensity@
                == "heavy"@) && p.intensity@ == stored_intensity@ && p.kind@ == (match draft.kind {
                ProgramKind::Curriculum => "curriculum"@,
                ProgramKind::Routine => "routine"@,
                ProgramKind::Project => "project"@,
            }) && p.title@ == draft.title@ && opt_view(p.summary) == Some(draft.summary@) && p.duration_days
                == draft.duration_days as i32 && p.start_date == body.start_date && opt_view(p.timezone) == opt_view(
                body.timezone,
            ) && p.day_boundary_hour == body.day_boundary_hour && p.tasks@.len() == draft.tasks@.len()
                && p.source_id == source_id && (forall|k: int|
                0 <= k < p.tasks@.len() ==> (#[trigger] p.tasks@[k]).title@ == draft.tasks@[k].title@ && opt_view(
                    p.tasks@[k].description,
                ) == opt_view(draft.tasks@[k].description) && opt_view(p.tasks@[k].category) == opt_view(
                    draft.tasks@[k].category,
                ) && p.tasks@[k].difficulty == draft.tasks@[k].difficulty && p.tasks@[k].estimated_minutes
                == draft.tasks@[k].estimated_minutes && p.tasks@[k].cadence == draft.tasks@[k].cadence),
            Err(e) => e == ProgramRequestError::InvalidStoredIntensity && !(stored_intensity@ == "light"@
                || stored_intensity@ == "standard"@ || stored_intensity@ == "heavy"@),
        },
{
    let intensity = match intensity_from_db_value(stored_intensity) {
        Ok(i) => i,
        Err(e) => {
            return Err(e);
        },
    };
    let ghost originals = draft.tasks@;
    let mut tasks: Vec<CreateTaskBody> = Vec::new();
    let mut source_tasks = draft.tasks;
    let mut remaining: Vec<GeneratedTask> = Vec::new();
    // Keep the order: take tasks from the back, then reverse.
    while source_tasks.len() > 0
        invariant
            originals.len() == source_tasks@.len() + remaining@.len(),
            source_tasks@ == originals.take(source_tasks@.len() as int),
            forall|k: int| 0 <= k < remaining@.len() ==> #[trigger] remaining@[k] == originals[originals.len() - 1 - k],
        decreases source_tasks.len(),
    {
        let t = source_tasks.pop().unwrap();
        remaining.push(t);
    }
    while remaining.len() > 0
        invariant
            tasks@.len() + remaining@.len() == originals.len(),
            forall|k: int| 0 <= k < remaining@.len() ==> #[trigger] remaining@[k] == originals[originals.len() - 1 - k],
            forall|k: int|
                0 <= k < tasks@.len() ==> (#[trigger] tasks@[k]).title@ == originals[k].title@ && opt_view(
                    tasks@[k].description,
                ) == opt_view(originals[k].description) && opt_view(tasks@[k].category) == opt_view(
                    originals[k].category,
                ) && tasks@[k].difficulty == originals[k].difficulty && tasks@[k].estimated_minutes
                    == originals[k].estimated_minutes && tasks@[k].cadence == originals[k].cadence,
        decreases remaining.len(),
    {
        let t = remaining.pop().unwrap();
        tasks.push(create_task_from_generated(t));
    }
    Ok(
        ResolvedProgram {
            title: draft.title,
            summary: Some(draft.summary),
            kind: program_kind_db_value(draft.kind),
            duration_days: draft.duration_days as i32,
            intensity: intensity_db_value_from_generated(intensity),
            start_date: body.start_date,
            timezone: body.timezone,
            day_boundary_hour: body.day_boundary_hour,
            tasks,
            source_id,
        },
    )
}

/// The day boundary stays between midnight and four in the morning.
pub fn check_day_boundary(hour: i16) -> (ok: Result<(), ProgramRequestError>)
    ensures
        ok == (if 0 <= hour <= 4 {
            Ok::<(), ProgramRequestError>(())
        } else {
            Err(ProgramRequestError::InvalidBoundary)
        }),
{
    if 0 <= hour && hour <= 4 {
        Ok(())
    } else {
        Err(ProgramRequestError::InvalidBoundary)
    }
}

/// One active bounded program at a time, unless the user allows several.
pub fn focus_allows(allow_multi_active: bool, active_count: i64) -> (ok: Result<(), ProgramRequestError>)
    ensures
        ok == (if allow_multi_active || active_count <= 0 {
            Ok::<(), ProgramRequestError>(())
        } else {
            Err(ProgramRequestError::FocusConflict)
        }),
{
    if allow_multi_active || active_count <= 0 {
        Ok(())
    } else {
        Err(ProgramRequestError::FocusConflict)
    }
}

/// Where a task template is stored and what it is worth.
#[derive(Clone, Copy, Debug, PartialEq, Eq, Structural)]
pub struct TemplatePlan {
    pub position: i32,
    pub points: i32,
}

/// Each task's position, counted from one, and its points.
pub fn plan_templates(tasks: &[CreateTaskBody]) -> (plans: Result<Vec<TemplatePlan>, ProgramRequestError>)
    ensures
        tasks@.len() <= i32::MAX ==> (plans matches Ok(p) && p@.len() == tasks@.len() && forall|k: int|
            0 <= k < tasks@.len() ==> (#[trigger] p@[k]).position == k + 1 && p@[k].points == spec_task_points(
                tasks@[k].difficulty as int,
                tasks@[k].estimated_minutes as int,
            )),
        tasks@.len() > i32::MAX ==> plans == Err::<Vec<TemplatePlan>, ProgramRequestError>(
            ProgramRequestError::TooManyTasks,
        ),
{
    let mut plans: Vec<TemplatePlan> = Vec::new();
    let mut i: usize = 0;
    while i < tasks.len()
        invariant
            i <= tasks@.len(),
            i <= i32::MAX,
            plans@.len() == i,
            forall|k: int|
                0 <= k < i ==> (#[trigger] plans@[k]).position == k + 1 && plans@[k].points == spec_task_points(
                    tasks@[k].difficulty as int,
                    tasks@[k].estimated_minutes as int,
                ),
        decreases tasks.len() - i,
    {
        if i >= 2147483647 {
            return Err(ProgramRequestError::TooManyTasks);
        }
        let points = task_points(tasks[i].difficulty, tasks[i].estimated_minutes);
        plans.push(TemplatePlan { position: (i + 1) as i32, points });
        i += 1;
    }
    Ok(plans)
}

} // verus!
