//! The validation that stands between a generated program and the database,
//! and the reduction of per-chunk generations into one program.
//!
//! A generation mistake is repaired and reported, never silently dropped and
//! never silently trusted; what cannot be repaired without inventing content
//! is a hard failure.
use vstd::prelude::*;
use crate::cadence::{same_cadence, spec_validate, Cadence, CadenceError, CadenceView};
use crate::text::{trim, trimmed};
use crate::types::{copy_opt_string, ClampedField, GeneratedTask, GeneratedTaskView, ProgramKind, Warning};

verus! {

pub const MAX_DURATION_DAYS: u16 = 730;

pub const MAX_ESTIMATED_MINUTES: u16 = 480;

pub const MIN_ESTIMATED_MINUTES: u16 = 1;

#[derive(Clone, Debug, PartialEq, Eq)]
pub enum GenerateError {
    Malformed(String),
    /// Repairing this would mean inventing the user's content.
    NoTasks,
    EmptyTitle { task_index: u16 },
    /// An unvalidated cadence never reaches the task templates.
    InvalidCadence { task_index: u16, cause: CadenceError },
    NothingToMerge,
}

/// A generated program. How confident the generation was is carried beside
/// it by the caller, since only the caller works with that number.
#[derive(Clone, Debug, PartialEq, Eq)]
pub struct GeneratedProgram {
    pub title: String,
    pub summary: String,
    pub kind: ProgramKind,
    pub duration_days: u16,
    pub tasks: Vec<GeneratedTask>,
    pub warnings: Vec<Warning>,
}

pub struct GeneratedProgramView {
    pub title: Seq<char>,
    pub summary: Seq<char>,
    pub kind: ProgramKind,
    pub duration_days: u16,
    pub tasks: Seq<GeneratedTaskView>,
    pub warnings: Seq<Warning>,
}

pub open spec fn task_views(tasks: Seq<GeneratedTask>) -> Seq<GeneratedTaskView> {
    tasks.map_values(|t: GeneratedTask| t@)
}

impl View for GeneratedProgram {
    type V = GeneratedProgramView;

    open spec fn view(&self) -> GeneratedProgramView {
        GeneratedProgramView {
            title: self.title@,
            summary: self.summary@,
            kind: self.kind,
            duration_days: self.duration_days,
            tasks: task_views(self.tasks@),
            warnings: self.warnings@,
        }
    }
}

#[derive(Clone, Debug, PartialEq, Eq)]
pub struct Validated {
    pub program: GeneratedProgram,
    pub warnings: Vec<Warning>,
}

pub open spec fn clamp_int(x: int, lo: int, hi: int) -> int {
    if x < lo {
        lo
    } else if x > hi {
        hi
    } else {
        x
    }
}

pub open spec fn clamped(task_index: Option<u16>, field: ClampedField) -> Warning {
    Warning::ValueClamped { task_index, field }
}

/// One task pulled into range, with what was reported about it.
pub open spec fn repair_task(t: GeneratedTaskView, index: int, duration: u16) -> Result<
    (GeneratedTaskView, Seq<Warning>),
    GenerateError,
> {
    let ti = index as u16;
    let title = trim(t.title);
    if title.len() == 0 {
        Err(GenerateError::EmptyTitle { task_index: ti })
    } else {
        let d = clamp_int(t.difficulty as int, 1, 5) as u8;
        let w1 = if d != t.difficulty { seq![clamped(Some(ti), ClampedField::Difficulty)] } else { seq![] };
        let m = clamp_int(t.estimated_minutes as int, 1, 480) as u16;
        let w2 = if m != t.estimated_minutes {
            seq![clamped(Some(ti), ClampedField::EstimatedMinutes)]
        } else {
            seq![]
        };
        match spec_validate(t.cadence, false) {
            Err(cause) => Err(GenerateError::InvalidCadence { task_index: ti, cause }),
            Ok(_) => {
                let last: u32 = if duration > 0 { (duration - 1) as u32 } else { 0 };
                let (cadence, w3) = match t.cadence {
                    CadenceView::Once { day_offset } => if day_offset > last {
                        (CadenceView::Once { day_offset: last }, seq![clamped(Some(ti), ClampedField::DayOffset)])
                    } else {
                        (t.cadence, Seq::<Warning>::empty())
                    },
                    _ => (t.cadence, Seq::<Warning>::empty()),
                };
                Ok(
                    (
                        GeneratedTaskView {
                            title,
                            description: t.description,
                            category: t.category,
                            difficulty: d,
                            estimated_minutes: m,
                            cadence,
                        },
                        w1 + w2 + w3,
                    ),
                )
            },
        }
    }
}

/// The tasks repaired in order; the first failing task decides the error.
pub open spec fn repair_tasks(tasks: Seq<GeneratedTaskView>, duration: u16) -> Result<
    (Seq<GeneratedTaskView>, Seq<Warning>),
    GenerateError,
>
    decreases tasks.len(),
{
    if tasks.len() == 0 {
        Ok((Seq::<GeneratedTaskView>::empty(), Seq::<Warning>::empty()))
    } else {
        match repair_tasks(tasks.drop_last(), duration) {
            Err(e) => Err(e),
            Ok((done, ws)) => match repair_task(tasks.last(), tasks.len() - 1, duration) {
                Err(e) => Err(e),
                Ok((t, w)) => Ok((done.push(t), ws + w)),
            },
        }
    }
}

/// A generated program pulled into the ranges the domain allows, with every
/// repair reported, ahead of the warnings the program already carried.
pub open spec fn spec_validate_program(p: GeneratedProgramView, confidence_clamped: bool) -> Result<
    (GeneratedProgramView, Seq<Warning>),
    GenerateError,
> {
    if p.tasks.len() == 0 {
        Err(GenerateError::NoTasks)
    } else {
        let w0 = if confidence_clamped { seq![clamped(None, ClampedField::Confidence)] } else { seq![] };
        let dur = clamp_int(p.duration_days as int, 1, MAX_DURATION_DAYS as int) as u16;
        let w1 = if dur != p.duration_days { seq![clamped(None, ClampedField::DurationDays)] } else { seq![] };
        match repair_tasks(p.tasks, dur) {
            Err(e) => Err(e),
            Ok((tasks, tw)) => {
                let ws = w0 + w1 + tw + p.warnings;
                Ok((GeneratedProgramView { duration_days: dur, tasks, warnings: ws, ..p }, ws))
            },
        }
    }
}

fn repair_one(task: &GeneratedTask, index: usize, duration: u16) -> (result: Result<
    (GeneratedTask, Vec<Warning>),
    GenerateError,
>)
    requires
        duration >= 1,
    ensures
        match result {
            Ok((t, w)) => repair_task(task@, index as int, duration) == Ok::<
                (GeneratedTaskView, Seq<Warning>),
                GenerateError,
            >((t@, w@)),
            Err(e) => repair_task(task@, index as int, duration) == Err::<
                (GeneratedTaskView, Seq<Warning>),
                GenerateError,
            >(e),
        },
{
    let ti = index as u16;
    let title = trimmed(task.title.as_str());
    if title.as_str().is_empty() {
        return Err(GenerateError::EmptyTitle { task_index: ti });
    }
    let mut warnings: Vec<Warning> = Vec::new();
    let d: u8 = if task.difficulty < 1 {
        1
    } else if task.difficulty > 5 {
        5
    } else {
        task.difficulty
    };
    if d != task.difficulty {
        warnings.push(Warning::ValueClamped { task_index: Some(ti), field: ClampedField::Difficulty });
    }
    let m: u16 = if task.estimated_minutes < MIN_ESTIMATED_MINUTES {
        MIN_ESTIMATED_MINUTES
    } else if task.estimated_minutes > MAX_ESTIMATED_MINUTES {
        MAX_ESTIMATED_MINUTES
    } else {
        task.estimated_minutes
    };
    if m != task.estimated_minutes {
        warnings.push(Warning::ValueClamped { task_index: Some(ti), field: ClampedField::EstimatedMinutes });
    }
    match task.cadence.validate_for_program(false) {
        Err(cause) => {
            return Err(GenerateError::InvalidCadence { task_index: ti, cause });
        },
        Ok(()) => {},
    }
    let last: u32 = (duration - 1) as u32;
    let cadence = match &task.cadence {
        Cadence::Once { day_offset } => {
            if *day_offset > last {
                warnings.push(Warning::ValueClamped { task_index: Some(ti), field: ClampedField::DayOffset });
                Cadence::Once { day_offset: last }
            } else {
                task.cadence.duplicate()
            }
        },
        _ => task.cadence.duplicate(),
    };
    let repaired = GeneratedTask {
        title,
        description: copy_opt_string(&task.description),
        category: copy_opt_string(&task.category),
        difficulty: d,
        estimated_minutes: m,
        cadence,
    };
    proof {
        let spec_w1: Seq<Warning> = if d != task.difficulty {
            seq![clamped(Some(ti), ClampedField::Difficulty)]
        } else {
            seq![]
        };
        let spec_w2: Seq<Warning> = if m != task.estimated_minutes {
            seq![clamped(Some(ti), ClampedField::EstimatedMinutes)]
        } else {
            seq![]
        };
        let spec_w3: Seq<Warning> = match task@.cadence {
            CadenceView::Once { day_offset } => if day_offset > last {
                seq![clamped(Some(ti), ClampedField::DayOffset)]
            } else {
                Seq::<Warning>::empty()
            },
            _ => Seq::<Warning>::empty(),
        };
        assert(warnings@ =~= spec_w1 + spec_w2 + spec_w3);
    }
    Ok((repaired, warnings))
}

/// A copy of a list of warnings.
pub fn copy_warnings(v: &Vec<Warning>) -> (out: Vec<Warning>)
    ensures
        out@ == v@,
{
    let mut out: Vec<Warning> = Vec::new();
    let mut k: usize = 0;
    while k < v.len()
        invariant
            k <= v@.len(),
            out@ == v@.take(k as int),
        decreases v.len() - k,
    {
        out.push(v[k]);
        assert(v@.take(k + 1) == v@.take(k as int).push(v@[k as int]));
        k += 1;
    }
    assert(v@.take(v@.len() as int) == v@);
    out
}

proof fn lemma_repair_err_extends(tasks: Seq<GeneratedTaskView>, n: int, duration: u16)
    requires
        0 <= n <= tasks.len(),
        repair_tasks(tasks.take(n), duration) is Err,
    ensures
        repair_tasks(tasks, duration) == repair_tasks(tasks.take(n), duration),
    decreases tasks.len(),
{
    if n == tasks.len() {
        assert(tasks.take(n) == tasks);
    } else {
        assert(tasks.drop_last().take(n) == tasks.take(n));
        lemma_repair_err_extends(tasks.drop_last(), n, duration);
    }
}

/// Pull a generated program into the ranges the schema and the domain allow.
///
/// `confidence_clamped` says whether the caller had to pull the generation's
/// confidence into `0..=1`; that repair is reported first. Out-of-range
/// numbers are clamped and reported; missing content is a failure.
pub fn validate(program: GeneratedProgram, confidence_clamped: bool) -> (result: Result<Validated, GenerateError>)
    ensures
        match result {
            Ok(v) => spec_validate_program(program@, confidence_clamped) == Ok::<
                (GeneratedProgramView, Seq<Warning>),
                GenerateError,
            >((v.program@, v.warnings@)),
            Err(e) => spec_validate_program(program@, confidence_clamped) == Err::<
                (GeneratedProgramView, Seq<Warning>),
                GenerateError,
            >(e),
        },
{
    if program.tasks.len() == 0 {
        return Err(GenerateError::NoTasks);
    }
    let mut warnings: Vec<Warning> = Vec::new();
    if confidence_clamped {
        warnings.push(Warning::ValueClamped { task_index: None, field: ClampedField::Confidence });
    }
    let dur: u16 = if program.duration_days < 1 {
        1
    } else if program.duration_days > MAX_DURATION_DAYS {
        MAX_DURATION_DAYS
    } else {
        program.duration_days
    };
    if dur != program.duration_days {
        warnings.push(Warning::ValueClamped { task_index: None, field: ClampedField::DurationDays });
    }
    let ghost w01 = warnings@;
    assert(w01 == (if confidence_clamped { seq![clamped(None, ClampedField::Confidence)] } else { Seq::<Warning>::empty() })
        + (if dur != program.duration_days { seq![clamped(None, ClampedField::DurationDays)] } else { Seq::<Warning>::empty() }));
    let ghost all = task_views(program.tasks@);
    let mut tasks: Vec<GeneratedTask> = Vec::new();
    let mut i: usize = 0;
    while i < program.tasks.len()
        invariant
            i <= program.tasks@.len(),
            all == task_views(program.tasks@),
            1 <= dur,
            dur == clamp_int(program.duration_days as int, 1, MAX_DURATION_DAYS as int) as u16,
            program.tasks@.len() > 0,
            repair_tasks(all.take(i as int), dur) matches Ok((done, tw)) && task_views(tasks@) == done
                && warnings@ == w01 + tw,
        decreases program.tasks.len() - i,
    {
        assert(all.take(i + 1).drop_last() == all.take(i as int));
        assert(all.take(i + 1).last() == program.tasks@[i as int]@);
        let ghost before_tasks = tasks@;
        let ghost before_warnings = warnings@;
        match repair_one(&program.tasks[i], i, dur) {
            Err(e) => {
                proof {
                    assert(repair_tasks(all.take(i + 1), dur) == Err::<(Seq<GeneratedTaskView>, Seq<Warning>), GenerateError>(e));
                    lemma_repair_err_extends(all, i + 1, dur);
                    assert(repair_tasks(all, dur) == Err::<(Seq<GeneratedTaskView>, Seq<Warning>), GenerateError>(e));
                }
                return Err(e);
            },
            Ok((t, w)) => {
                tasks.push(t);
                let mut k: usize = 0;
                while k < w.len()
                    invariant
                        k <= w@.len(),
                        warnings@ == before_warnings + w@.take(k as int),
                    decreases w.len() - k,
                {
                    warnings.push(w[k]);
                    assert(w@.take(k + 1) == w@.take(k as int).push(w@[k as int]));
                    k += 1;
                }
                assert(w@.take(w@.len() as int) == w@);
                assert(task_views(tasks@) == task_views(before_tasks).push(t@));
            },
        }
        i += 1;
    }
    assert(all.take(program.tasks@.len() as int) == all);
    let ghost before_extend = warnings@;
    let mut k: usize = 0;
    while k < program.warnings.len()
        invariant
            k <= program.warnings@.len(),
            warnings@ == before_extend + program.warnings@.take(k as int),
        decreases program.warnings.len() - k,
    {
        warnings.push(program.warnings[k]);
        assert(program.warnings@.take(k + 1) == program.warnings@.take(k as int).push(program.warnings@[k as int]));
        k += 1;
    }
    assert(program.warnings@.take(program.warnings@.len() as int) == program.warnings@);
    let final_warnings = copy_warnings(&warnings);
    assert(repair_tasks(all, dur) matches Ok((done, tw)) && task_views(tasks@) == done && warnings@ == w01 + tw + program.warnings@);
    let repaired = GeneratedProgram {
        title: program.title,
        summary: program.summary,
        kind: program.kind,
        duration_days: dur,
        tasks,
        warnings,
    };
    Ok(Validated { program: repaired, warnings: final_warnings })
}

pub open spec fn sat_add_u32(a: u32, b: u32) -> u32 {
    if a + b > u32::MAX { u32::MAX } else { (a + b) as u32 }
}

pub open spec fn sat_add_u16(a: u16, b: u16) -> u16 {
    if a + b > u16::MAX { u16::MAX } else { (a + b) as u16 }
}

/// Whether a recurring task with this title and cadence is already there.
pub open spec fn already_present(tasks: Seq<GeneratedTaskView>, t: GeneratedTaskView) -> bool {
    exists|k: int| 0 <= k < tasks.len() && (#[trigger] tasks[k]).title == t.title && tasks[k].cadence == t.cadence
}

/// One task of a later chunk added to the merged tasks: a sequential program
/// shifts its pinned day past the chunks before it; a routine drops a
/// recurring task it already has.
pub open spec fn add_task(merged: Seq<GeneratedTaskView>, t: GeneratedTaskView, sequential: bool, base: u32) -> Seq<
    GeneratedTaskView,
> {
    if sequential {
        match t.cadence {
            CadenceView::Once { day_offset } => merged.push(
                GeneratedTaskView { cadence: CadenceView::Once { day_offset: sat_add_u32(day_offset, base) }, ..t },
            ),
            _ => merged.push(t),
        }
    } else if !(t.cadence is Once) && already_present(merged, t) {
        merged
    } else {
        merged.push(t)
    }
}

pub open spec fn add_tasks(merged: Seq<GeneratedTaskView>, ts: Seq<GeneratedTaskView>, sequential: bool, base: u32) -> Seq<
    GeneratedTaskView,
>
    decreases ts.len(),
{
    if ts.len() == 0 {
        merged
    } else {
        add_task(add_tasks(merged, ts.drop_last(), sequential, base), ts.last(), sequential, base)
    }
}

/// What accumulates while chunks are merged.
pub struct MergeState {
    pub tasks: Seq<GeneratedTaskView>,
    pub warnings: Seq<Warning>,
    pub duration: u16,
    pub base: u32,
}

/// Later chunks folded into the state, in order: sequential durations add
/// up, a routine's take the maximum.
pub open spec fn merge_rest(state: MergeState, chunks: Seq<GeneratedProgramView>, sequential: bool) -> MergeState
    decreases chunks.len(),
{
    if chunks.len() == 0 {
        state
    } else {
        let s = merge_rest(state, chunks.drop_last(), sequential);
        let c = chunks.last();
        MergeState {
            tasks: add_tasks(s.tasks, c.tasks, sequential, s.base),
            warnings: s.warnings + c.warnings,
            duration: if sequential {
                sat_add_u16(s.duration, c.duration_days)
            } else if c.duration_days > s.duration {
                c.duration_days
            } else {
                s.duration
            },
            base: if sequential { sat_add_u32(s.base, c.duration_days as u32) } else { s.base },
        }
    }
}

pub open spec fn is_sequential(kind: ProgramKind) -> bool {
    kind is Curriculum || kind is Project
}

/// Per-chunk generations reduced into one program: the first chunk names it,
/// and the duration ends up within `1..=MAX_DURATION_DAYS`.
pub open spec fn spec_merge(chunks: Seq<GeneratedProgramView>) -> Result<GeneratedProgramView, GenerateError> {
    if chunks.len() == 0 {
        Err(GenerateError::NothingToMerge)
    } else {
        let first = chunks[0];
        let sequential = is_sequential(first.kind);
        let init = MergeState {
            tasks: first.tasks,
            warnings: first.warnings,
            duration: first.duration_days,
            base: if sequential { first.duration_days as u32 } else { 0 },
        };
        let s = merge_rest(init, chunks.skip(1), sequential);
        Ok(
            GeneratedProgramView {
                title: first.title,
                summary: first.summary,
                kind: first.kind,
                duration_days: clamp_int(s.duration as int, 1, MAX_DURATION_DAYS as int) as u16,
                tasks: s.tasks,
                warnings: s.warnings,
            },
        )
    }
}

pub open spec fn program_views(chunks: Seq<GeneratedProgram>) -> Seq<GeneratedProgramView> {
    chunks.map_values(|c: GeneratedProgram| c@)
}

fn is_already_present(tasks: &Vec<GeneratedTask>, candidate: &GeneratedTask) -> (present: bool)
    ensures
        present == already_present(task_views(tasks@), candidate@),
{
    let ghost views = task_views(tasks@);
    let mut k: usize = 0;
    while k < tasks.len()
        invariant
            k <= tasks@.len(),
            views == task_views(tasks@),
            forall|j: int| 0 <= j < k ==> !((#[trigger] views[j]).title == candidate@.title && views[j].cadence
                == candidate@.cadence),
        decreases tasks.len() - k,
    {
        if tasks[k].title == candidate.title && same_cadence(&tasks[k].cadence, &candidate.cadence) {
            assert(views[k as int].title == candidate@.title && views[k as int].cadence == candidate@.cadence);
            return true;
        }
        k += 1;
    }
    false
}

pub(crate) fn copy_tasks(v: &Vec<GeneratedTask>) -> (out: Vec<GeneratedTask>)
    ensures
        task_views(out@) == task_views(v@),
{
    let mut out: Vec<GeneratedTask> = Vec::new();
    let mut k: usize = 0;
    while k < v.len()
        invariant
            k <= v@.len(),
            task_views(out@) == task_views(v@).take(k as int),
        decreases v.len() - k,
    {
        let ghost before = out@;
        let copy = v[k].duplicate();
        out.push(copy);
        assert(task_views(out@) == task_views(before).push(copy@));
        assert(task_views(v@).take(k + 1) == task_views(v@).take(k as int).push(v@[k as int]@));
        k += 1;
    }
    assert(task_views(v@).take(v@.len() as int) == task_views(v@));
    out
}

/// Reduce per-chunk generations into one program.
///
/// Sequential shapes continue across chunks: each chunk's pinned days are
/// shifted past the ones before it and durations add up. A routine repeats,
/// so chunks overlap: durations take the maximum and identical recurring
/// tasks collapse into one.
pub fn merge(chunks: Vec<GeneratedProgram>) -> (result: Result<GeneratedProgram, GenerateError>)
    ensures
        match result {
            Ok(p) => spec_merge(program_views(chunks@)) == Ok::<GeneratedProgramView, GenerateError>(p@),
            Err(e) => spec_merge(program_views(chunks@)) == Err::<GeneratedProgramView, GenerateError>(e),
        },
{
    if chunks.len() == 0 {
        return Err(GenerateError::NothingToMerge);
    }
    let ghost views = program_views(chunks@);
    let first = &chunks[0];
    let sequential = matches!(first.kind, ProgramKind::Curriculum | ProgramKind::Project);
    let mut tasks = copy_tasks(&first.tasks);
    let mut warnings = copy_warnings(&first.warnings);
    let mut duration: u16 = first.duration_days;
    let mut base: u32 = if sequential { first.duration_days as u32 } else { 0 };
    let ghost init = MergeState {
        tasks: views[0].tasks,
        warnings: views[0].warnings,
        duration: views[0].duration_days,
        base: if sequential { views[0].duration_days as u32 } else { 0 },
    };
    let mut c: usize = 1;
    while c < chunks.len()
        invariant
            1 <= c <= chunks@.len(),
            views == program_views(chunks@),
            sequential == is_sequential(views[0].kind),
            init.tasks == views[0].tasks,
            init.warnings == views[0].warnings,
            init.duration == views[0].duration_days,
            init.base == (if sequential { views[0].duration_days as u32 } else { 0 }),
            merge_rest(init, views.subrange(1, c as int), sequential) == (MergeState {
                tasks: task_views(tasks@),
                warnings: warnings@,
                duration,
                base,
            }),
        decreases chunks.len() - c,
    {
        let chunk = &chunks[c];
        assert(views.subrange(1, c + 1).drop_last() == views.subrange(1, c as int));
        assert(views.subrange(1, c + 1).last() == chunk@);
        let ghost start = task_views(tasks@);
        let mut t: usize = 0;
        while t < chunk.tasks.len()
            invariant
                t <= chunk.tasks@.len(),
                task_views(tasks@) == add_tasks(start, task_views(chunk.tasks@).take(t as int), sequential, base),
            decreases chunk.tasks.len() - t,
        {
            let task = &chunk.tasks[t];
            let ghost prev = task_views(tasks@);
            assert(task_views(chunk.tasks@).take(t + 1).drop_last() == task_views(chunk.tasks@).take(t as int));
            assert(task_views(chunk.tasks@).take(t + 1).last() == task@);
            if sequential {
                match &task.cadence {
                    Cadence::Once { day_offset } => {
                        let shifted = if *day_offset > u32::MAX - base { u32::MAX } else { *day_offset + base };
                        let moved = GeneratedTask {
                            title: task.title.clone(),
                            description: copy_opt_string(&task.description),
                            category: copy_opt_string(&task.category),
                            difficulty: task.difficulty,
                            estimated_minutes: task.estimated_minutes,
                            cadence: Cadence::Once { day_offset: shifted },
                        };
                        tasks.push(moved);
                    },
                    _ => {
                        tasks.push(task.duplicate());
                    },
                }
            } else {
                let recurring = !matches!(task.cadence, Cadence::Once { .. });
                if !(recurring && is_already_present(&tasks, task)) {
                    tasks.push(task.duplicate());
                }
            }
            assert(task_views(tasks@) =~= add_task(prev, task@, sequential, base));
            t += 1;
        }
        assert(task_views(chunk.tasks@).take(chunk.tasks@.len() as int) == task_views(chunk.tasks@));
        let ghost w_before = warnings@;
        let mut k: usize = 0;
        while k < chunk.warnings.len()
            invariant
                k <= chunk.warnings@.len(),
                warnings@ == w_before + chunk.warnings@.take(k as int),
            decreases chunk.warnings.len() - k,
        {
            warnings.push(chunk.warnings[k]);
            assert(chunk.warnings@.take(k + 1) == chunk.warnings@.take(k as int).push(chunk.warnings@[k as int]));
            k += 1;
        }
        assert(chunk.warnings@.take(chunk.warnings@.len() as int) == chunk.warnings@);
        if sequential {
            duration = if duration > u16::MAX - chunk.duration_days { u16::MAX } else { duration + chunk.duration_days };
            let d32 = chunk.duration_days as u32;
            base = if base > u32::MAX - d32 { u32::MAX } else { base + d32 };
        } else if chunk.duration_days > duration {
            duration = chunk.duration_days;
        }
        c += 1;
    }
    assert(views.subrange(1, chunks@.len() as int) == views.skip(1));
    let clamped_duration: u16 = if duration < 1 {
        1
    } else if duration > MAX_DURATION_DAYS {
        MAX_DURATION_DAYS
    } else {
        duration
    };
    Ok(
        GeneratedProgram {
            title: chunks[0].title.clone(),
            summary: chunks[0].summary.clone(),
            kind: chunks[0].kind,
            duration_days: clamped_duration,
            tasks,
            warnings,
        },
    )
}

/// What validation guarantees of one repaired task, given the task it came
/// from at position `k`.
pub open spec fn task_in_range(out: GeneratedTaskView, original: GeneratedTaskView, k: int, duration: u16) -> bool {
    &&& out.title == trim(original.title)
    &&& out.title.len() > 0
    &&& 1 <= out.difficulty <= 5
    &&& MIN_ESTIMATED_MINUTES <= out.estimated_minutes <= MAX_ESTIMATED_MINUTES
    &&& (out.cadence matches CadenceView::Once { day_offset } ==> day_offset < duration)
    &&& out.description == original.description
    &&& out.category == original.category
}

/// Whether each repair of the task at position `k` shows up in `ws`.
pub open spec fn repairs_reported(ws: Seq<Warning>, original: GeneratedTaskView, k: int) -> bool {
    &&& !(1 <= original.difficulty <= 5) ==> ws.contains(clamped(Some(k as u16), ClampedField::Difficulty))
    &&& !(MIN_ESTIMATED_MINUTES <= original.estimated_minutes <= MAX_ESTIMATED_MINUTES) ==> ws.contains(
        clamped(Some(k as u16), ClampedField::EstimatedMinutes),
    )
}

proof fn lemma_contains_after(a: Seq<Warning>, b: Seq<Warning>, x: Warning)
    requires
        a.contains(x),
    ensures
        (a + b).contains(x),
        (b + a).contains(x),
{
    let i = choose|i: int| 0 <= i < a.len() && a[i] == x;
    assert((a + b)[i] == x);
    assert((b + a)[b.len() + i] == x);
}

proof fn lemma_one_task_reported(t0: GeneratedTaskView, n: int, duration: u16, ws: Seq<Warning>)
    requires
        repair_task(t0, n, duration) is Ok,
        duration >= 1,
    ensures
        repair_task(t0, n, duration) matches Ok((t, w)) ==> repairs_reported(ws + w, t0, n)
            && task_in_range(t, t0, n, duration),
{
    let ti = n as u16;
    let d = clamp_int(t0.difficulty as int, 1, 5) as u8;
    let m = clamp_int(t0.estimated_minutes as int, 1, 480) as u16;
    let w1: Seq<Warning> = if d != t0.difficulty { seq![clamped(Some(ti), ClampedField::Difficulty)] } else { seq![] };
    let w2: Seq<Warning> = if m != t0.estimated_minutes {
        seq![clamped(Some(ti), ClampedField::EstimatedMinutes)]
    } else {
        seq![]
    };
    let w = repair_task(t0, n, duration)->Ok_0.1;
    let rest = w.skip((w1.len() + w2.len()) as int);
    assert(w == w1 + w2 + rest);
    assert(w1 + (w2 + rest) == w);
    if !(1 <= t0.difficulty <= 5) {
        let x = clamped(Some(ti), ClampedField::Difficulty);
        assert(w1[0] == x);
        assert(w1.contains(x));
        lemma_contains_after(w1, w2 + rest, x);
        lemma_contains_after(w, ws, x);
    }
    if !(MIN_ESTIMATED_MINUTES <= t0.estimated_minutes <= MAX_ESTIMATED_MINUTES) {
        let x = clamped(Some(ti), ClampedField::EstimatedMinutes);
        assert(w2[0] == x);
        assert(w2.contains(x));
        lemma_contains_after(w2, rest, x);
        lemma_contains_after(w2 + rest, w1, x);
        lemma_contains_after(w, ws, x);
    }
}

proof fn lemma_earlier_reported(ws: Seq<Warning>, w: Seq<Warning>, t: GeneratedTaskView, k: int)
    requires
        repairs_reported(ws, t, k),
    ensures
        repairs_reported(ws + w, t, k),
{
    if !(1 <= t.difficulty <= 5) {
        lemma_contains_after(ws, w, clamped(Some(k as u16), ClampedField::Difficulty));
    }
    if !(MIN_ESTIMATED_MINUTES <= t.estimated_minutes <= MAX_ESTIMATED_MINUTES) {
        lemma_contains_after(ws, w, clamped(Some(k as u16), ClampedField::EstimatedMinutes));
    }
}

proof fn lemma_repair_tasks_in_range(ts: Seq<GeneratedTaskView>, duration: u16)
    requires
        duration >= 1,
    ensures
        repair_tasks(ts, duration) matches Ok((out, tw)) ==> {
            &&& out.len() == ts.len()
            &&& forall|k: int| 0 <= k < ts.len() ==> task_in_range(#[trigger] out[k], ts[k], k, duration)
            &&& forall|k: int| 0 <= k < ts.len() ==> repairs_reported(tw, #[trigger] ts[k], k)
        },
    decreases ts.len(),
{
    if ts.len() > 0 && repair_tasks(ts, duration) is Ok {
        let prefix = ts.drop_last();
        let n = ts.len() - 1;
        lemma_repair_tasks_in_range(prefix, duration);
        let done = repair_tasks(prefix, duration)->Ok_0.0;
        let ws = repair_tasks(prefix, duration)->Ok_0.1;
        let t = repair_task(ts.last(), n, duration)->Ok_0.0;
        let w = repair_task(ts.last(), n, duration)->Ok_0.1;
        lemma_one_task_reported(ts.last(), n, duration, ws);
        let out = done.push(t);
        assert forall|k: int| 0 <= k < ts.len() implies task_in_range(#[trigger] out[k], ts[k], k, duration) by {
            if k < n {
                assert(out[k] == done[k]);
                assert(ts[k] == prefix[k]);
            }
        }
        assert forall|k: int| 0 <= k < ts.len() implies repairs_reported(ws + w, #[trigger] ts[k], k) by {
            if k < n {
                assert(ts[k] == prefix[k]);
                lemma_earlier_reported(ws, w, prefix[k], k);
            }
        }
    }
}

/// Validation keeps every task and leaves every number in range: the
/// duration within `1..=MAX_DURATION_DAYS`, each difficulty within `1..=5`,
/// each estimate within the minute bounds, each title trimmed and non-blank,
/// and no task pinned past the last day. Each clamped difficulty and
/// estimate is reported with its task's index, and the program carries the
/// warnings it reports, ending with the ones it came with.
pub proof fn lemma_validated_in_range(p: GeneratedProgramView, confidence_clamped: bool)
    ensures
        spec_validate_program(p, confidence_clamped) matches Ok((q, ws)) ==> {
            &&& q.tasks.len() == p.tasks.len()
            &&& 1 <= q.duration_days <= MAX_DURATION_DAYS
            &&& forall|k: int| 0 <= k < p.tasks.len() ==> task_in_range(#[trigger] q.tasks[k], p.tasks[k], k, q.duration_days)
            &&& forall|k: int| 0 <= k < p.tasks.len() ==> repairs_reported(ws, #[trigger] p.tasks[k], k)
            &&& q.warnings == ws
            &&& p.warnings.is_suffix_of(ws)
            &&& q.title == p.title && q.summary == p.summary && q.kind == p.kind
        },
{
    if p.tasks.len() > 0 {
        let dur = clamp_int(p.duration_days as int, 1, MAX_DURATION_DAYS as int) as u16;
        lemma_repair_tasks_in_range(p.tasks, dur);
        if let Ok((tasks, tw)) = repair_tasks(p.tasks, dur) {
            let w0: Seq<Warning> = if confidence_clamped { seq![clamped(None, ClampedField::Confidence)] } else { seq![] };
            let w1: Seq<Warning> = if dur != p.duration_days { seq![clamped(None, ClampedField::DurationDays)] } else { seq![] };
            let ws = w0 + w1 + tw + p.warnings;
            assert forall|k: int| 0 <= k < p.tasks.len() implies repairs_reported(ws, #[trigger] p.tasks[k], k) by {
                assert(repairs_reported(tw, p.tasks[k], k));
                if !(1 <= p.tasks[k].difficulty <= 5) {
                    let x = clamped(Some(k as u16), ClampedField::Difficulty);
                    lemma_contains_after(tw, w0 + w1, x);
                    lemma_contains_after(w0 + w1 + tw, p.warnings, x);
                }
                if !(MIN_ESTIMATED_MINUTES <= p.tasks[k].estimated_minutes <= MAX_ESTIMATED_MINUTES) {
                    let x = clamped(Some(k as u16), ClampedField::EstimatedMinutes);
                    lemma_contains_after(tw, w0 + w1, x);
                    lemma_contains_after(w0 + w1 + tw, p.warnings, x);
                }
            }
            assert(ws.skip(ws.len() - p.warnings.len()) == p.warnings);
        }
    }
}

pub open spec fn has_title(tasks: Seq<GeneratedTaskView>, title: Seq<char>) -> bool {
    exists|k: int| 0 <= k < tasks.len() && (#[trigger] tasks[k]).title == title
}

pub open spec fn total_tasks(chunks: Seq<GeneratedProgramView>) -> int
    decreases chunks.len(),
{
    if chunks.len() == 0 {
        0
    } else {
        total_tasks(chunks.drop_last()) + chunks.last().tasks.len()
    }
}

proof fn lemma_prefix_keeps_title(s: Seq<GeneratedTaskView>, r: Seq<GeneratedTaskView>, title: Seq<char>)
    requires
        s.is_prefix_of(r),
        has_title(s, title),
    ensures
        has_title(r, title),
{
    let k = choose|k: int| 0 <= k < s.len() && (#[trigger] s[k]).title == title;
    assert(r[k] == s[k]);
}

proof fn lemma_add_tasks(merged: Seq<GeneratedTaskView>, ts: Seq<GeneratedTaskView>, sequential: bool, base: u32)
    ensures
        merged.is_prefix_of(add_tasks(merged, ts, sequential, base)),
        forall|i: int| 0 <= i < ts.len() ==> has_title(add_tasks(merged, ts, sequential, base), (#[trigger] ts[i]).title),
        sequential ==> add_tasks(merged, ts, sequential, base).len() == merged.len() + ts.len(),
    decreases ts.len(),
{
    if ts.len() > 0 {
        let prev = add_tasks(merged, ts.drop_last(), sequential, base);
        let r = add_tasks(merged, ts, sequential, base);
        lemma_add_tasks(merged, ts.drop_last(), sequential, base);
        let t = ts.last();
        assert(prev.is_prefix_of(r));
        assert(merged.is_prefix_of(r)) by {
            assert(r.subrange(0, merged.len() as int) == prev.subrange(0, merged.len() as int));
        }
        assert(has_title(r, t.title)) by {
            if r.len() > prev.len() {
                assert(r[prev.len() as int].title == t.title);
            } else {
                let k = choose|k: int| 0 <= k < prev.len() && (#[trigger] prev[k]).title == t.title && prev[k].cadence
                    == t.cadence;
                assert(r[k] == prev[k]);
            }
        }
        assert forall|i: int| 0 <= i < ts.len() implies has_title(r, (#[trigger] ts[i]).title) by {
            if i < ts.len() - 1 {
                assert(ts[i] == ts.drop_last()[i]);
                lemma_prefix_keeps_title(prev, r, ts[i].title);
            }
        }
    }
}

proof fn lemma_merge_rest(state: MergeState, chunks: Seq<GeneratedProgramView>, sequential: bool)
    ensures
        state.tasks.is_prefix_of(merge_rest(state, chunks, sequential).tasks),
        forall|c: int, i: int|
            0 <= c < chunks.len() && 0 <= i < chunks[c].tasks.len() ==> has_title(
                merge_rest(state, chunks, sequential).tasks,
                (#[trigger] chunks[c].tasks[i]).title,
            ),
        sequential ==> merge_rest(state, chunks, sequential).tasks.len() == state.tasks.len() + total_tasks(chunks),
    decreases chunks.len(),
{
    if chunks.len() > 0 {
        let s = merge_rest(state, chunks.drop_last(), sequential);
        let r = merge_rest(state, chunks, sequential);
        lemma_merge_rest(state, chunks.drop_last(), sequential);
        lemma_add_tasks(s.tasks, chunks.last().tasks, sequential, s.base);
        assert(state.tasks.is_prefix_of(r.tasks)) by {
            assert(r.tasks.subrange(0, state.tasks.len() as int) == s.tasks.subrange(0, state.tasks.len() as int));
        }
        assert forall|c: int, i: int|
            0 <= c < chunks.len() && 0 <= i < chunks[c].tasks.len() implies has_title(
                r.tasks,
                (#[trigger] chunks[c].tasks[i]).title,
            ) by {
            if c < chunks.len() - 1 {
                assert(chunks[c] == chunks.drop_last()[c]);
                lemma_prefix_keeps_title(s.tasks, r.tasks, chunks[c].tasks[i].title);
            }
        }
    }
}

/// Merging loses no task: every task of every chunk is in the merged program
/// under its title (a routine's repeated recurring tasks appear once), and a
/// sequential program keeps every task of every chunk, so its task count is
/// the sum of theirs. The merged duration is within `1..=MAX_DURATION_DAYS`.
pub proof fn lemma_merge_keeps_every_task(chunks: Seq<GeneratedProgramView>)
    ensures
        spec_merge(chunks) matches Ok(m) ==> {
            &&& forall|c: int, i: int|
                0 <= c < chunks.len() && 0 <= i < chunks[c].tasks.len() ==> has_title(
                    m.tasks,
                    (#[trigger] chunks[c].tasks[i]).title,
                )
            &&& is_sequential(chunks[0].kind) ==> m.tasks.len() == total_tasks(chunks)
            &&& 1 <= m.duration_days <= MAX_DURATION_DAYS
        },
        spec_merge(chunks) is Err <==> chunks.len() == 0,
{
    if chunks.len() > 0 {
        let first = chunks[0];
        let sequential = is_sequential(first.kind);
        let init = MergeState {
            tasks: first.tasks,
            warnings: first.warnings,
            duration: first.duration_days,
            base: if sequential { first.duration_days as u32 } else { 0 },
        };
        let rest = chunks.skip(1);
        let s = merge_rest(init, rest, sequential);
        lemma_merge_rest(init, rest, sequential);
        assert forall|c: int, i: int|
            0 <= c < chunks.len() && 0 <= i < chunks[c].tasks.len() implies has_title(
                s.tasks,
                (#[trigger] chunks[c].tasks[i]).title,
            ) by {
            if c == 0 {
                assert(init.tasks[i].title == chunks[c].tasks[i].title);
                lemma_prefix_keeps_title(init.tasks, s.tasks, chunks[c].tasks[i].title);
            } else {
                assert(rest[c - 1] == chunks[c]);
                assert(has_title(s.tasks, rest[c - 1].tasks[i].title));
            }
        }
        assert(total_tasks(chunks) == first.tasks.len() + total_tasks(rest)) by {
            lemma_total_tasks_front(chunks);
        }
    }
}

proof fn lemma_total_tasks_front(chunks: Seq<GeneratedProgramView>)
    requires
        chunks.len() > 0,
    ensures
        total_tasks(chunks) == chunks[0].tasks.len() + total_tasks(chunks.skip(1)),
    decreases chunks.len(),
{
    if chunks.len() > 1 {
        lemma_total_tasks_front(chunks.drop_last());
        assert(chunks.drop_last().skip(1) == chunks.skip(1).drop_last());
        assert(chunks.skip(1).last() == chunks.last());
        assert(chunks.drop_last()[0] == chunks[0]);
        let r = chunks.skip(1);
        assert(total_tasks(r) == total_tasks(r.drop_last()) + r.last().tasks.len());
        assert(total_tasks(chunks) == total_tasks(chunks.drop_last()) + chunks.last().tasks.len());
    } else {
        assert(chunks.skip(1).len() == 0);
        assert(chunks.drop_last().len() == 0);
        assert(chunks.last() == chunks[0]);
        assert(total_tasks(chunks.skip(1)) == 0);
        assert(total_tasks(chunks.drop_last()) == 0);
        assert(total_tasks(chunks) == total_tasks(chunks.drop_last()) + chunks.last().tasks.len());
    }
}

/// The days of all chunks added up.
pub open spec fn sum_durations(chunks: Seq<GeneratedProgramView>) -> int
    decreases chunks.len(),
{
    if chunks.len() == 0 {
        0
    } else {
        sum_durations(chunks.drop_last()) + chunks.last().duration_days
    }
}

/// The longest of the chunks' durations, or zero with no chunks.
pub open spec fn longest_duration(chunks: Seq<GeneratedProgramView>) -> int
    decreases chunks.len(),
{
    if chunks.len() == 0 {
        0
    } else {
        let rest = longest_duration(chunks.drop_last());
        if chunks.last().duration_days > rest { chunks.last().duration_days as int } else { rest }
    }
}

proof fn lemma_merge_rest_duration(state: MergeState, chunks: Seq<GeneratedProgramView>, sequential: bool)
    ensures
        sequential ==> merge_rest(state, chunks, sequential).duration == (if state.duration + sum_durations(chunks)
            > u16::MAX { u16::MAX as int } else { state.duration + sum_durations(chunks) }),
        !sequential ==> merge_rest(state, chunks, sequential).duration == (if longest_duration(chunks)
            > state.duration { longest_duration(chunks) } else { state.duration as int }),
    decreases chunks.len(),
{
    if chunks.len() > 0 {
        lemma_merge_rest_duration(state, chunks.drop_last(), sequential);
    }
}

proof fn lemma_durations_prepend(x: GeneratedProgramView, rest: Seq<GeneratedProgramView>)
    ensures
        sum_durations(seq![x] + rest) == x.duration_days + sum_durations(rest),
        total_tasks(seq![x] + rest) == x.tasks.len() + total_tasks(rest),
        longest_duration(seq![x] + rest) == (if longest_duration(rest) > x.duration_days {
            longest_duration(rest)
        } else {
            x.duration_days as int
        }),
    decreases rest.len(),
{
    if rest.len() == 0 {
        assert(seq![x] + rest == seq![x]);
        assert(seq![x].drop_last() =~= Seq::<GeneratedProgramView>::empty());
        assert(seq![x].last() == x);
        assert(sum_durations(seq![x]) == sum_durations(seq![x].drop_last()) + x.duration_days);
        assert(total_tasks(seq![x]) == total_tasks(seq![x].drop_last()) + x.tasks.len());
        assert(longest_duration(rest) == 0);
        assert(longest_duration(seq![x].drop_last()) == 0);
        assert(longest_duration(seq![x]) == x.duration_days);
    } else {
        lemma_durations_prepend(x, rest.drop_last());
        assert((seq![x] + rest).drop_last() == seq![x] + rest.drop_last());
        assert((seq![x] + rest).last() == rest.last());
        assert(longest_duration(seq![x] + rest) == (if rest.last().duration_days > longest_duration(seq![x]
            + rest.drop_last()) { rest.last().duration_days as int } else { longest_duration(seq![x] + rest.drop_last()) }));
    }
}

proof fn lemma_longest_bounds(chunks: Seq<GeneratedProgramView>)
    ensures
        forall|c: int| 0 <= c < chunks.len() ==> (#[trigger] chunks[c]).duration_days <= longest_duration(chunks),
        chunks.len() > 0 ==> exists|c: int| 0 <= c < chunks.len() && (#[trigger] chunks[c]).duration_days
            == longest_duration(chunks),
    decreases chunks.len(),
{
    if chunks.len() > 0 {
        let prefix = chunks.drop_last();
        lemma_longest_bounds(prefix);
        assert forall|c: int| 0 <= c < chunks.len() implies (#[trigger] chunks[c]).duration_days <= longest_duration(
            chunks,
        ) by {
            if c < prefix.len() {
                assert(chunks[c] == prefix[c]);
            }
        }
        if chunks.last().duration_days <= longest_duration(prefix) && prefix.len() > 0 {
            let c = choose|c: int| 0 <= c < prefix.len() && (#[trigger] prefix[c]).duration_days == longest_duration(
                prefix,
            );
            assert(chunks[c] == prefix[c]);
        } else {
            assert(chunks[chunks.len() - 1] == chunks.last());
        }
    }
}

/// The merged program's duration: a sequential program (curriculum or
/// project) runs its chunks one after another, so it lasts their durations
/// added up; a routine runs them side by side, so it lasts as long as its
/// longest chunk and never less than any of them. Either way the result is
/// clamped to `1..=MAX_DURATION_DAYS`, and the first chunk names the program
/// and sets its kind.
pub proof fn lemma_merge_duration(chunks: Seq<GeneratedProgramView>)
    requires
        chunks.len() > 0,
    ensures
        spec_merge(chunks) matches Ok(m) && {
            &&& m.title == chunks[0].title && m.summary == chunks[0].summary && m.kind == chunks[0].kind
            &&& is_sequential(chunks[0].kind) ==> m.duration_days == clamp_int(
                sum_durations(chunks),
                1,
                MAX_DURATION_DAYS as int,
            )
            &&& !is_sequential(chunks[0].kind) ==> m.duration_days == clamp_int(
                longest_duration(chunks),
                1,
                MAX_DURATION_DAYS as int,
            )
            &&& !is_sequential(chunks[0].kind) ==> forall|c: int|
                0 <= c < chunks.len() ==> m.duration_days >= clamp_int(
                    (#[trigger] chunks[c]).duration_days as int,
                    1,
                    MAX_DURATION_DAYS as int,
                )
            &&& !is_sequential(chunks[0].kind) ==> exists|c: int|
                0 <= c < chunks.len() && m.duration_days == clamp_int(
                    (#[trigger] chunks[c]).duration_days as int,
                    1,
                    MAX_DURATION_DAYS as int,
                )
        },
{
    let first = chunks[0];
    let sequential = is_sequential(first.kind);
    let init = MergeState {
        tasks: first.tasks,
        warnings: first.warnings,
        duration: first.duration_days,
        base: if sequential { first.duration_days as u32 } else { 0 },
    };
    let rest = chunks.skip(1);
    lemma_merge_rest_duration(init, rest, sequential);
    assert(chunks == seq![first] + rest);
    lemma_durations_prepend(first, rest);
    lemma_longest_bounds(chunks);
}

/// A task moved `by` days later when it is pinned to a day (no later than the
/// last representable day); a recurring task is left as it is.
pub open spec fn shifted(t: GeneratedTaskView, by: int) -> GeneratedTaskView {
    match t.cadence {
        CadenceView::Once { day_offset } => GeneratedTaskView {
            cadence: CadenceView::Once {
                day_offset: (if day_offset + by > u32::MAX { u32::MAX as int } else { day_offset + by }) as u32,
            },
            ..t
        },
        _ => t,
    }
}

proof fn lemma_shift_cap(t: GeneratedTaskView, by: int)
    requires
        by >= 0,
    ensures
        shifted(t, if by > u32::MAX { u32::MAX as int } else { by }) == shifted(t, by),
        shifted(t, 0) == t,
{
}

proof fn lemma_add_tasks_shifted(merged: Seq<GeneratedTaskView>, ts: Seq<GeneratedTaskView>, base: u32)
    ensures
        forall|i: int| 0 <= i < ts.len() ==> add_tasks(merged, ts, true, base)[merged.len() + i] == shifted(
            #[trigger] ts[i],
            base as int,
        ),
    decreases ts.len(),
{
    if ts.len() > 0 {
        let prev = add_tasks(merged, ts.drop_last(), true, base);
        lemma_add_tasks(merged, ts.drop_last(), true, base);
        lemma_add_tasks_shifted(merged, ts.drop_last(), base);
        let r = add_tasks(merged, ts, true, base);
        assert forall|i: int| 0 <= i < ts.len() implies r[merged.len() + i] == shifted(#[trigger] ts[i], base as int) by {
            if i < ts.len() - 1 {
                assert(ts[i] == ts.drop_last()[i]);
                assert(r[merged.len() + i] == prev[merged.len() + i]);
            } else {
                assert(ts[i] == ts.last());
            }
        }
    }
}

proof fn lemma_merge_rest_days(state: MergeState, chunks: Seq<GeneratedProgramView>)
    ensures
        ({
            let r = merge_rest(state, chunks, true);
            &&& r.base == (if state.base + sum_durations(chunks) > u32::MAX { u32::MAX as int } else {
                state.base + sum_durations(chunks)
            })
            &&& forall|c: int, i: int|
                0 <= c < chunks.len() && 0 <= i < chunks[c].tasks.len() ==> r.tasks[state.tasks.len()
                    + total_tasks(chunks.take(c)) + i] == shifted(
                    #[trigger] chunks[c].tasks[i],
                    state.base + sum_durations(chunks.take(c)),
                )
        }),
    decreases chunks.len(),
{
    if chunks.len() > 0 {
        let prefix = chunks.drop_last();
        let s = merge_rest(state, prefix, true);
        let r = merge_rest(state, chunks, true);
        lemma_merge_rest_days(state, prefix);
        lemma_merge_rest(state, prefix, true);
        lemma_add_tasks(s.tasks, chunks.last().tasks, true, s.base);
        lemma_add_tasks_shifted(s.tasks, chunks.last().tasks, s.base);
        assert forall|c: int, i: int|
            0 <= c < chunks.len() && 0 <= i < chunks[c].tasks.len() implies r.tasks[state.tasks.len()
                + total_tasks(chunks.take(c)) + i] == shifted(
                #[trigger] chunks[c].tasks[i],
                state.base + sum_durations(chunks.take(c)),
            ) by {
            if c < chunks.len() - 1 {
                assert(chunks.take(c) == prefix.take(c));
                assert(chunks[c] == prefix[c]);
                lemma_total_tasks_prefix(prefix, c);
                lemma_total_tasks_nonneg(prefix.take(c));
                let k = state.tasks.len() + total_tasks(prefix.take(c)) + i;
                assert(k < s.tasks.len());
                assert(s.tasks.is_prefix_of(r.tasks));
                assert(s.tasks == r.tasks.subrange(0, s.tasks.len() as int));
                assert(r.tasks.subrange(0, s.tasks.len() as int)[k] == r.tasks[k]);
                assert(r.tasks[k] == s.tasks[k]);
            } else {
                assert(chunks.take(c) == prefix);
                assert(chunks[c] == chunks.last());
                lemma_shift_cap(chunks[c].tasks[i], state.base + sum_durations(prefix));
            }
        }
    }
}

proof fn lemma_total_tasks_nonneg(chunks: Seq<GeneratedProgramView>)
    ensures
        total_tasks(chunks) >= 0,
    decreases chunks.len(),
{
    if chunks.len() > 0 {
        lemma_total_tasks_nonneg(chunks.drop_last());
    }
}

proof fn lemma_total_tasks_prefix(chunks: Seq<GeneratedProgramView>, c: int)
    requires
        0 <= c < chunks.len(),
    ensures
        total_tasks(chunks.take(c)) + chunks[c].tasks.len() <= total_tasks(chunks),
    decreases chunks.len(),
{
    if c < chunks.len() - 1 {
        lemma_total_tasks_prefix(chunks.drop_last(), c);
        assert(chunks.drop_last().take(c) == chunks.take(c));
        assert(chunks.drop_last()[c] == chunks[c]);
    } else {
        assert(chunks.take(c) == chunks.drop_last());
    }
}

/// A sequential program (curriculum or project) runs its chunks one after
/// another: the merged tasks are every chunk's tasks in chunk order, and a
/// task pinned to day `d` of chunk `c` lands on day `d` plus the days of all
/// the chunks before it (no later than the last representable day), while
/// recurring tasks keep their cadence.
pub proof fn lemma_merge_sequential_days(chunks: Seq<GeneratedProgramView>)
    requires
        chunks.len() > 0,
        is_sequential(chunks[0].kind),
    ensures
        spec_merge(chunks) matches Ok(m) && {
            &&& m.tasks.len() == total_tasks(chunks)
            &&& forall|c: int, i: int|
                0 <= c < chunks.len() && 0 <= i < chunks[c].tasks.len() ==> m.tasks[total_tasks(chunks.take(c))
                    + i] == shifted(#[trigger] chunks[c].tasks[i], sum_durations(chunks.take(c)))
        },
{
    let first = chunks[0];
    let init = MergeState {
        tasks: first.tasks,
        warnings: first.warnings,
        duration: first.duration_days,
        base: first.duration_days as u32,
    };
    let rest = chunks.skip(1);
    let r = merge_rest(init, rest, true);
    lemma_merge_rest(init, rest, true);
    lemma_merge_rest_days(init, rest);
    lemma_merge_keeps_every_task(chunks);
    assert(chunks == seq![first] + rest);
    lemma_durations_prepend(first, rest);
    assert forall|c: int, i: int|
        0 <= c < chunks.len() && 0 <= i < chunks[c].tasks.len() implies r.tasks[total_tasks(chunks.take(c)) + i]
            == shifted(#[trigger] chunks[c].tasks[i], sum_durations(chunks.take(c))) by {
        if c == 0 {
            assert(chunks.take(0) =~= Seq::<GeneratedProgramView>::empty());
            assert(r.tasks[i] == first.tasks[i]);
            lemma_shift_cap(first.tasks[i], 0);
        } else {
            assert(chunks.take(c) == seq![first] + rest.take(c - 1));
            lemma_durations_prepend(first, rest.take(c - 1));
            assert(chunks[c] == rest[c - 1]);
        }
    }
}

} // verus!
