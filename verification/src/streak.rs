//! Streaks: current and longest runs, banked freezes, and the state machine a
//! finalised day moves them through.
use vstd::prelude::*;

verus! {

/// How a finalised day counts toward a streak.
#[derive(Clone, Copy, Debug, PartialEq, Eq, Structural)]
pub enum DayOutcome {
    Complete,
    Partial,
    Missed,
    Rest,
}

#[derive(Clone, Copy, Debug, PartialEq, Eq, Structural)]
pub enum StreakState {
    Active,
    AtRisk,
    Repairable,
    Broken,
}

#[derive(Clone, Debug, PartialEq, Eq, Structural)]
pub struct Streak {
    pub current: u32,
    pub longest: u32,
    pub freezes: u8,
    pub clean_run: u8,
    pub state: StreakState,
}

/// A freeze is earned after this many clean days in a row.
pub const CLEAN_RUN_FOR_FREEZE: u8 = 7;

/// At most this many freezes are banked.
pub const MAX_FREEZES: u8 = 3;

/// The empty streak every enrollment starts from.
pub open spec fn spec_default_streak() -> Streak {
    Streak { current: 0, longest: 0, freezes: 0, clean_run: 0, state: StreakState::Active }
}

impl Default for Streak {
    fn default() -> (s: Self)
        ensures
            s == spec_default_streak(),
    {
        Streak { current: 0, longest: 0, freezes: 0, clean_run: 0, state: StreakState::Active }
    }
}

/// Whether a day can be stepped without a counter overflowing.
pub open spec fn step_fits(s: Streak, outcome: DayOutcome) -> bool {
    &&& outcome == DayOutcome::Complete ==> s.current < u32::MAX
    &&& (outcome == DayOutcome::Complete || outcome == DayOutcome::Partial) ==> s.clean_run < u8::MAX
}

/// The outcome before the freeze rule: completes extend the streak, partials
/// put it at risk, a miss spends a freeze if there is one (rewriting the day to
/// a rest day) and otherwise leaves the streak repairable, and rest days change
/// nothing.
pub open spec fn spec_apply(s: Streak, outcome: DayOutcome) -> (Streak, Option<DayOutcome>) {
    match outcome {
        DayOutcome::Rest => (s, None),
        DayOutcome::Complete => {
            let current = (s.current + 1) as u32;
            (
                Streak {
                    current,
                    longest: if s.longest >= current { s.longest } else { current },
                    clean_run: (s.clean_run + 1) as u8,
                    state: StreakState::Active,
                    ..s
                },
                None,
            )
        },
        DayOutcome::Partial => (
            Streak { clean_run: (s.clean_run + 1) as u8, state: StreakState::AtRisk, ..s },
            None,
        ),
        DayOutcome::Missed => if s.freezes > 0 {
            (
                Streak {
                    freezes: (s.freezes - 1) as u8,
                    clean_run: 0,
                    state: StreakState::Active,
                    ..s
                },
                Some(DayOutcome::Rest),
            )
        } else {
            (Streak { state: StreakState::Repairable, ..s }, None)
        },
    }
}

/// One finalised day: the outcome is applied, then seven clean days in a row
/// bank a freeze (at most three).
pub open spec fn spec_step(s: Streak, outcome: DayOutcome) -> (Streak, Option<DayOutcome>) {
    let (next, rewritten) = spec_apply(s, outcome);
    if next.clean_run >= CLEAN_RUN_FOR_FREEZE && next.freezes < MAX_FREEZES {
        (Streak { freezes: (next.freezes + 1) as u8, clean_run: 0, ..next }, rewritten)
    } else {
        (next, rewritten)
    }
}

pub fn step(s: &Streak, outcome: DayOutcome) -> (result: (Streak, Option<DayOutcome>))
    requires
        step_fits(*s, outcome),
    ensures
        result == spec_step(*s, outcome),
{
    let mut next = Streak {
        current: s.current,
        longest: s.longest,
        freezes: s.freezes,
        clean_run: s.clean_run,
        state: s.state,
    };
    let mut rewritten: Option<DayOutcome> = None;
    match outcome {
        DayOutcome::Rest => {},
        DayOutcome::Complete => {
            next.current = next.current + 1;
            if next.current > next.longest {
                next.longest = next.current;
            }
            next.clean_run = next.clean_run + 1;
            next.state = StreakState::Active;
        },
        DayOutcome::Partial => {
            next.clean_run = next.clean_run + 1;
            next.state = StreakState::AtRisk;
        },
        DayOutcome::Missed => {
            if next.freezes > 0 {
                next.freezes = next.freezes - 1;
                next.clean_run = 0;
                next.state = StreakState::Active;
                rewritten = Some(DayOutcome::Rest);
            } else {
                next.state = StreakState::Repairable;
            }
        },
    }
    if next.clean_run >= CLEAN_RUN_FOR_FREEZE && next.freezes < MAX_FREEZES {
        next.freezes = next.freezes + 1;
        next.clean_run = 0;
    }
    (next, rewritten)
}

/// The streak left by folding a run of days over a starting streak.
pub open spec fn spec_fold_from(seed: Streak, days: Seq<DayOutcome>) -> Streak
    decreases days.len(),
{
    if days.len() == 0 {
        seed
    } else {
        spec_step(spec_fold_from(seed, days.drop_last()), days.last()).0
    }
}

/// Whether every day of a run can be stepped without a counter overflowing.
pub open spec fn fold_fits(seed: Streak, days: Seq<DayOutcome>) -> bool
    decreases days.len(),
{
    if days.len() == 0 {
        true
    } else {
        fold_fits(seed, days.drop_last()) && step_fits(spec_fold_from(seed, days.drop_last()), days.last())
    }
}

proof fn lemma_fold_fits_prefix(seed: Streak, days: Seq<DayOutcome>, k: int)
    requires
        fold_fits(seed, days),
        0 <= k <= days.len(),
    ensures
        fold_fits(seed, days.take(k)),
    decreases days.len(),
{
    if k < days.len() {
        assert(days.take(k) == days.drop_last().take(k));
        lemma_fold_fits_prefix(seed, days.drop_last(), k);
    } else {
        assert(days.take(k) == days);
    }
}

pub fn fold_from(seed: Streak, days: &[DayOutcome]) -> (s: Streak)
    requires
        fold_fits(seed, days@),
    ensures
        s == spec_fold_from(seed, days@),
{
    let mut acc = seed;
    let mut i: usize = 0;
    while i < days.len()
        invariant
            i <= days.len(),
            fold_fits(seed, days@),
            acc == spec_fold_from(seed, days@.take(i as int)),
        decreases days.len() - i,
    {
        proof {
            lemma_fold_fits_prefix(seed, days@, i + 1);
            assert(days@.take(i + 1).drop_last() == days@.take(i as int));
        }
        let (next, _) = step(&acc, days[i]);
        acc = next;
        i += 1;
    }
    assert(days@.take(days.len() as int) == days@);
    acc
}

pub fn fold(days: &[DayOutcome]) -> (s: Streak)
    requires
        fold_fits(spec_default_streak(), days@),
    ensures
        s == spec_fold_from(spec_default_streak(), days@),
{
    fold_from(Streak::default(), days)
}

/// Folding can resume from any split: folding a prefix and then the rest from
/// the result gives the same streak as folding everything in one pass.
pub proof fn lemma_fold_resumes(seed: Streak, prefix: Seq<DayOutcome>, suffix: Seq<DayOutcome>)
    ensures
        spec_fold_from(spec_fold_from(seed, prefix), suffix) == spec_fold_from(seed, prefix + suffix),
    decreases suffix.len(),
{
    if suffix.len() == 0 {
        assert(prefix + suffix == prefix);
    } else {
        lemma_fold_resumes(seed, prefix, suffix.drop_last());
        assert((prefix + suffix).drop_last() == prefix + suffix.drop_last());
    }
}

/// What a well-formed streak keeps: the longest run is never shorter than the
/// current one, at most three freezes are banked, and a clean run of seven
/// days is only left standing once all three freezes are banked.
pub open spec fn streak_inv(s: Streak) -> bool {
    &&& s.longest >= s.current
    &&& s.freezes <= MAX_FREEZES
    &&& (s.clean_run < CLEAN_RUN_FOR_FREEZE || s.freezes == MAX_FREEZES)
}

/// Every step, whatever the day's outcome, keeps the streak well formed and
/// never lowers the longest run.
pub proof fn lemma_step_keeps_inv(s: Streak, outcome: DayOutcome)
    requires
        streak_inv(s),
        step_fits(s, outcome),
    ensures
        streak_inv(spec_step(s, outcome).0),
        spec_step(s, outcome).0.longest >= s.longest,
{
}

/// However many days are folded in, the longest run is never less than the
/// current one, no more than three freezes are ever banked, and no clean run
/// of seven days is left unbanked while a freeze slot is free.
pub proof fn lemma_longest_never_below_current(seed: Streak, days: Seq<DayOutcome>)
    requires
        streak_inv(seed),
        fold_fits(seed, days),
    ensures
        streak_inv(spec_fold_from(seed, days)),
    decreases days.len(),
{
    if days.len() > 0 {
        lemma_longest_never_below_current(seed, days.drop_last());
        lemma_step_keeps_inv(spec_fold_from(seed, days.drop_last()), days.last());
    }
}

/// Neither a missed day nor a partial one ever lowers the longest run, and a
/// miss never resets the current run on its own.
pub proof fn lemma_miss_keeps_runs(s: Streak)
    ensures
        spec_step(s, DayOutcome::Missed).0.current == s.current,
        spec_step(s, DayOutcome::Missed).0.longest == s.longest,
        spec_step(s, DayOutcome::Partial).0.longest == s.longest,
{
}

/// A day outcome is rewritten only when a banked freeze absorbs a miss, and
/// then the day becomes a rest day.
pub proof fn lemma_rewrite_only_on_freeze(s: Streak, outcome: DayOutcome)
    ensures
        spec_step(s, outcome).1 is Some <==> (outcome == DayOutcome::Missed && s.freezes > 0),
        spec_step(s, outcome).1 is Some ==> spec_step(s, outcome).1 == Some(DayOutcome::Rest),
{
}

/// What each kind of day does to the streak's state and runs: a complete day
/// extends the current run (raising the longest run with it) and makes the
/// streak active; a partial day leaves both runs alone and puts the streak at
/// risk; a miss spends a banked freeze and stays active, or, with none banked,
/// leaves the streak repairable without touching its runs; a rest day changes
/// nothing at all.
pub proof fn lemma_step_transitions(s: Streak)
    ensures
        s.current < u32::MAX ==> ({
            let n = spec_step(s, DayOutcome::Complete).0;
            &&& n.state == StreakState::Active
            &&& n.current == s.current + 1
            &&& n.longest == (if s.longest > s.current + 1 { s.longest as int } else { s.current + 1 })
        }),
        ({
            let n = spec_step(s, DayOutcome::Partial).0;
            &&& n.state == StreakState::AtRisk
            &&& n.current == s.current
            &&& n.longest == s.longest
        }),
        s.freezes > 0 ==> ({
            let (n, rewritten) = spec_step(s, DayOutcome::Missed);
            &&& n.state == StreakState::Active
            &&& n.current == s.current
            &&& n.longest == s.longest
            &&& n.freezes == s.freezes - 1
            &&& n.clean_run == 0
            &&& rewritten == Some(DayOutcome::Rest)
        }),
        s.freezes == 0 ==> ({
            let (n, rewritten) = spec_step(s, DayOutcome::Missed);
            &&& n.state == StreakState::Repairable
            &&& n.current == s.current
            &&& n.longest == s.longest
            &&& rewritten is None
        }),
        s.clean_run < CLEAN_RUN_FOR_FREEZE || s.freezes >= MAX_FREEZES ==> spec_step(s, DayOutcome::Rest) == (
            s,
            None::<DayOutcome>,
        ),
{
}

/// A day that keeps the run clean adds one to the clean run, and when that
/// reaches seven with a freeze slot free, a freeze is banked and the run
/// starts over.
pub proof fn lemma_clean_days_bank_freezes(s: Streak, outcome: DayOutcome)
    requires
        outcome == DayOutcome::Complete || outcome == DayOutcome::Partial,
        step_fits(s, outcome),
    ensures
        ({
            let n = spec_step(s, outcome).0;
            if s.clean_run + 1 >= CLEAN_RUN_FOR_FREEZE && s.freezes < MAX_FREEZES {
                n.freezes == s.freezes + 1 && n.clean_run == 0
            } else {
                n.freezes == s.freezes && n.clean_run == s.clean_run + 1
            }
        }),
{
}

} // verus!
