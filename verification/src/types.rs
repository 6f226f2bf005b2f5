//! The typed contract between program generation and the rest of the system.
use vstd::prelude::*;
use crate::cadence::{Cadence, CadenceView};

verus! {

/// How much of the user's day a program may claim.
#[derive(Clone, Copy, Debug, PartialEq, Eq, Structural)]
pub enum Intensity {
    Light,
    Standard,
    Heavy,
}

pub open spec fn spec_daily_cap(intensity: Intensity) -> u16 {
    match intensity {
        Intensity::Light => 20,
        Intensity::Standard => 45,
        Intensity::Heavy => 90,
    }
}

impl Intensity {
    /// The daily budget in minutes.
    pub fn daily_cap_minutes(self) -> (cap: u16)
        ensures
            cap == spec_daily_cap(self),
    {
        match self {
            Intensity::Light => 20,
            Intensity::Standard => 45,
            Intensity::Heavy => 90,
        }
    }

    /// The hard ceiling a calibrated day may reach: twenty percent over the
    /// cap, rounded down.
    pub fn tolerated_minutes(self) -> (tolerated: u16)
        ensures
            tolerated == spec_daily_cap(self) * 12 / 10,
    {
        self.daily_cap_minutes() * 12 / 10
    }
}

/// The three shapes a source can take.
#[derive(Clone, Copy, Debug, PartialEq, Eq, Structural)]
pub enum ProgramKind {
    /// Sequential: task X belongs to day N.
    Curriculum,
    /// Recurring: tasks repeat on a cadence.
    Routine,
    /// Deliverables with a deadline, distributed across the available days.
    Project,
}

#[derive(Clone, Debug, PartialEq, Eq)]
pub struct GeneratedTask {
    /// Imperative, starts with a verb, 80 characters or fewer.
    pub title: String,
    pub description: Option<String>,
    pub category: Option<String>,
    /// 1 to 5.
    pub difficulty: u8,
    pub estimated_minutes: u16,
    pub cadence: Cadence,
}

pub struct GeneratedTaskView {
    pub title: Seq<char>,
    pub description: Option<Seq<char>>,
    pub category: Option<Seq<char>>,
    pub difficulty: u8,
    pub estimated_minutes: u16,
    pub cadence: CadenceView,
}

pub open spec fn opt_view(s: Option<String>) -> Option<Seq<char>> {
    match s {
        Some(text) => Some(text@),
        None => None,
    }
}

impl View for GeneratedTask {
    type V = GeneratedTaskView;

    open spec fn view(&self) -> GeneratedTaskView {
        GeneratedTaskView {
            title: self.title@,
            description: opt_view(self.description),
            category: opt_view(self.category),
            difficulty: self.difficulty,
            estimated_minutes: self.estimated_minutes,
            cadence: self.cadence@,
        }
    }
}

/// The day a task is pinned to: only a `once` cadence pins one.
pub open spec fn spec_pinned_day(task: GeneratedTaskView) -> Option<u32> {
    match task.cadence {
        CadenceView::Once { day_offset } => Some(day_offset),
        _ => None,
    }
}

pub fn copy_opt_string(s: &Option<String>) -> (copy: Option<String>)
    ensures
        opt_view(copy) == opt_view(*s),
{
    match s {
        Some(text) => Some(text.clone()),
        None => None,
    }
}

impl GeneratedTask {
    pub fn pinned_day(&self) -> (day: Option<u32>)
        ensures
            day == spec_pinned_day(self@),
    {
        match self.cadence {
            Cadence::Once { day_offset } => Some(day_offset),
            _ => None,
        }
    }

    /// The same task, held in a value of its own.
    pub fn duplicate(&self) -> (copy: GeneratedTask)
        ensures
            copy@ == self@,
    {
        GeneratedTask {
            title: self.title.clone(),
            description: copy_opt_string(&self.description),
            category: copy_opt_string(&self.category),
            difficulty: self.difficulty,
            estimated_minutes: self.estimated_minutes,
            cadence: self.cadence.duplicate(),
        }
    }
}

/// Which number a validation step had to pull into range.
#[derive(Clone, Copy, Debug, PartialEq, Eq, Structural)]
pub enum ClampedField {
    Confidence,
    DurationDays,
    Difficulty,
    EstimatedMinutes,
    DayOffset,
}

/// Something the pipeline guessed at, changed, or could not fix. Warnings
/// carry a task index, never task content.
#[derive(Clone, Copy, Debug, PartialEq, Eq, Structural)]
pub enum Warning {
    /// A day is still over the tolerated ceiling after every remedy.
    DayOverCapacity { day_index: u16, projected_minutes: u16, cap_minutes: u16 },
    /// The duration was stretched to fit the load under the cap.
    DurationExtended { from_days: u16, to_days: u16 },
    /// A long task was broken into consecutive sub-tasks.
    TaskSplit { task_index: u16, parts: u16 },
    /// A task was pushed to a later day to relieve an overloaded one.
    TaskMoved { task_index: u16, from_day: u16, to_day: u16 },
    /// A day inside the duration ended up with nothing on it.
    EmptyDay { day_index: u16 },
    /// A generated number was out of range and was pulled into range.
    ValueClamped { task_index: Option<u16>, field: ClampedField },
}

} // verus!
