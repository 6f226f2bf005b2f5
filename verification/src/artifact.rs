//! The completion artifact: what a finished bounded program leaves behind.
//!
//! The standing list never produces one, and only one enrollment's days ever
//! contribute to one.
use vstd::prelude::*;
use crate::order::{
    insert_sorted, lemma_insert_at, lemma_map_values_multiset, lemma_sort_by_contains, lemma_sort_by_multiset,
    lemma_sort_by_sorted, sort_by, total_preorder,
};
use crate::stats::{completion_rate, spec_completion_rate, spec_totals, totals, DayTotals};
use crate::text::{chars_of, string_of_range, trim, trim_bounds};
use crate::time::LocalDate;
use crate::types::opt_view;

verus! {

/// How one day is drawn on the heatmap. Rest and frozen stay distinct: a
/// declared day off and a day a banked freeze absorbed are different facts.
#[derive(Clone, Copy, Debug, PartialEq, Eq, Structural)]
pub enum Cell {
    Complete,
    Partial,
    Missed,
    Rest,
    Frozen,
}

impl Cell {
    /// Only a declared rest day leaves the completion denominator.
    pub fn counts_toward_completion(self) -> (counts: bool)
        ensures
            counts == !(self is Rest),
    {
        !matches!(self, Cell::Rest)
    }
}

/// One finalised day, as the artifact needs it.
#[derive(Clone, Debug, PartialEq, Eq)]
pub struct DaySummary {
    pub local_date: LocalDate,
    pub cell: Cell,
    pub earned_points: i32,
    pub available_points: i32,
    pub tasks_completed: u32,
    pub minutes_invested: u32,
    /// The user's own line about the day.
    pub note: Option<String>,
}

#[derive(Clone, Copy, Debug, PartialEq, Eq, Structural)]
pub enum ArtifactError {
    /// The standing list has no finish line, so it has nothing to commemorate.
    StandingEnrollment,
    NoDays,
}

#[derive(Clone, Debug, PartialEq, Eq)]
pub struct CompletionArtifact {
    pub title: String,
    pub started_on: LocalDate,
    pub finished_on: LocalDate,
    pub days_total: u32,
    /// Days on which anything at all was completed.
    pub days_logged: u32,
    /// Earned over available across the run, rest days excluded; `None` when
    /// nothing was ever available.
    pub completion_rate: Option<u8>,
    pub longest_streak: u32,
    pub tasks_completed: u32,
    pub hours_invested: u32,
    /// One cell per day, in date order.
    pub cells: Vec<(LocalDate, Cell)>,
    /// The user's notes, trimmed, in date order, blank ones omitted.
    pub notes: Vec<(LocalDate, String)>,
}

/// A day's position: its date, then its place in the input.
pub type DayKey = (LocalDate, usize);

pub open spec fn date_order() -> spec_fn(DayKey, DayKey) -> bool {
    |a: DayKey, b: DayKey| a.0.days_from_ce <= b.0.days_from_ce
}

/// The input days in date order; days on the same date keep their order.
pub open spec fn ordered_days(days: Seq<DaySummary>) -> Seq<DaySummary> {
    let keys = sort_by(Seq::new(days.len(), |i: int| (days[i].local_date, i as usize)), date_order());
    keys.map_values(|k: DayKey| days[k.1 as int])
}

/// A day's contribution to the completion rate.
pub open spec fn day_totals(day: DaySummary) -> DayTotals {
    if day.cell is Rest {
        DayTotals { earned: 0, available: 0, is_rest: true }
    } else {
        DayTotals { earned: day.earned_points, available: day.available_points, is_rest: false }
    }
}

pub open spec fn sat_sum_u32(values: Seq<u32>) -> int
    decreases values.len(),
{
    if values.len() == 0 {
        0
    } else {
        let s = sat_sum_u32(values.drop_last()) + values.last();
        if s > u32::MAX { u32::MAX as int } else { s }
    }
}

pub open spec fn count_logged(days: Seq<DaySummary>) -> int
    decreases days.len(),
{
    if days.len() == 0 {
        0
    } else {
        count_logged(days.drop_last()) + if days.last().tasks_completed > 0 { 1int } else { 0 }
    }
}

/// The trimmed, non-blank notes in order.
pub open spec fn spec_notes(days: Seq<DaySummary>) -> Seq<(LocalDate, Seq<char>)>
    decreases days.len(),
{
    if days.len() == 0 {
        seq![]
    } else {
        let prev = spec_notes(days.drop_last());
        let day = days.last();
        match day.note {
            Some(note) => if trim(note@).len() > 0 { prev.push((day.local_date, trim(note@))) } else { prev },
            None => prev,
        }
    }
}

pub open spec fn minutes_of(days: Seq<DaySummary>) -> Seq<u32> {
    days.map_values(|d: DaySummary| d.minutes_invested)
}

pub open spec fn tasks_of(days: Seq<DaySummary>) -> Seq<u32> {
    days.map_values(|d: DaySummary| d.tasks_completed)
}

/// The artifact as a mathematical value.
pub struct ArtifactView {
    pub title: Seq<char>,
    pub started_on: LocalDate,
    pub finished_on: LocalDate,
    pub days_total: u32,
    pub days_logged: u32,
    pub completion_rate: Option<u8>,
    pub longest_streak: u32,
    pub tasks_completed: u32,
    pub hours_invested: u32,
    pub cells: Seq<(LocalDate, Cell)>,
    pub notes: Seq<(LocalDate, Seq<char>)>,
}

impl View for CompletionArtifact {
    type V = ArtifactView;

    open spec fn view(&self) -> ArtifactView {
        ArtifactView {
            title: self.title@,
            started_on: self.started_on,
            finished_on: self.finished_on,
            days_total: self.days_total,
            days_logged: self.days_logged,
            completion_rate: self.completion_rate,
            longest_streak: self.longest_streak,
            tasks_completed: self.tasks_completed,
            hours_invested: self.hours_invested,
            cells: self.cells@,
            notes: self.notes@.map_values(|n: (LocalDate, String)| (n.0, n.1@)),
        }
    }
}

/// The artifact a finished program leaves: headline numbers over its days in
/// date order, hours rounded to the nearest hour, one heatmap cell per day and
/// the non-blank notes.
pub open spec fn spec_artifact(title: Seq<char>, days: Seq<DaySummary>, longest_streak: u32) -> ArtifactView {
    let ordered = ordered_days(days);
    let (earned, available) = spec_totals(ordered.map_values(|d: DaySummary| day_totals(d)));
    ArtifactView {
        title,
        started_on: ordered[0].local_date,
        finished_on: ordered[ordered.len() - 1].local_date,
        days_total: ordered.len() as u32,
        days_logged: count_logged(ordered) as u32,
        completion_rate: spec_completion_rate(earned, available),
        longest_streak,
        tasks_completed: sat_sum_u32(tasks_of(ordered)) as u32,
        hours_invested: ((sat_sum_u32(minutes_of(ordered)) + 30) / 60) as u32,
        cells: ordered.map_values(|d: DaySummary| (d.local_date, d.cell)),
        notes: spec_notes(ordered),
    }
}

proof fn lemma_sat_sum_bound(values: Seq<u32>)
    ensures
        0 <= sat_sum_u32(values) <= u32::MAX,
    decreases values.len(),
{
    if values.len() > 0 {
        lemma_sat_sum_bound(values.drop_last());
    }
}

fn insert_by_date(v: &mut Vec<DayKey>, x: DayKey)
    ensures
        final(v)@ == insert_sorted(old(v)@, x, date_order()),
{
    let ghost le = date_order();
    let mut pos = v.len();
    let mut done = false;
    while pos > 0 && !done
        invariant
            pos <= v.len(),
            le == date_order(),
            forall|j: int| pos <= j < v.len() ==> !le(#[trigger] v@[j], x),
            done ==> pos > 0 && le(v@[pos - 1], x),
        decreases pos + if done { 0int } else { 1int },
    {
        if v[pos - 1].0.days_from_ce <= x.0.days_from_ce {
            done = true;
        } else {
            pos -= 1;
        }
    }
    proof {
        lemma_insert_at(v@, x, le, pos as int);
    }
    v.insert(pos, x);
    assert(v@ == old(v)@.take(pos as int) + seq![x] + old(v)@.skip(pos as int));
}

proof fn lemma_keys_in_range(days: Seq<DaySummary>)
    ensures
        ({
            let keys = sort_by(Seq::new(days.len(), |i: int| (days[i].local_date, i as usize)), date_order());
            keys.len() == days.len() && forall|k: int| 0 <= k < keys.len() ==> (#[trigger] keys[k]).1 < days.len()
        }),
{
    let base = Seq::new(days.len(), |i: int| (days[i].local_date, i as usize));
    let keys = sort_by(base, date_order());
    crate::order::lemma_sort_by_multiset(base, date_order());
    assert forall|k: int| 0 <= k < keys.len() implies (#[trigger] keys[k]).1 < days.len() by {
        crate::order::lemma_sort_by_contains(base, date_order(), keys[k]);
        assert(keys.contains(keys[k]));
        let m = choose|m: int| 0 <= m < base.len() && base[m] == keys[k];
    }
}

/// Compile a finished bounded program into its artifact.
///
/// `days` is one enrollment's finalised days and `longest_streak` that
/// enrollment's own longest streak. The total minutes invested stay below
/// `u32::MAX - 30`, where rounding to hours would overflow.
pub fn compile(title: &str, is_standing: bool, days: &[DaySummary], longest_streak: u32) -> (result: Result<CompletionArtifact, ArtifactError>)
    requires
        !is_standing ==> sat_sum_u32(minutes_of(ordered_days(days@))) <= u32::MAX - 30,
    ensures
        is_standing ==> result == Err::<CompletionArtifact, ArtifactError>(ArtifactError::StandingEnrollment),
        !is_standing && days@.len() == 0 ==> result == Err::<CompletionArtifact, ArtifactError>(ArtifactError::NoDays),
        !is_standing && days@.len() > 0 ==> (result matches Ok(artifact) && artifact@ == spec_artifact(title@, days@, longest_streak)),
{
    if is_standing {
        return Err(ArtifactError::StandingEnrollment);
    }
    if days.len() == 0 {
        return Err(ArtifactError::NoDays);
    }
    // Date order, stable.
    let ghost base = Seq::new(days@.len(), |i: int| (days@[i].local_date, i as usize));
    let mut keys: Vec<DayKey> = Vec::new();
    let mut i: usize = 0;
    while i < days.len()
        invariant
            i <= days.len(),
            base == Seq::new(days@.len(), |i: int| (days@[i].local_date, i as usize)),
            keys@ == sort_by(base.take(i as int), date_order()),
        decreases days.len() - i,
    {
        assert(base.take(i + 1).drop_last() == base.take(i as int));
        assert(base.take(i + 1).last() == base[i as int]);
        insert_by_date(&mut keys, (days[i].local_date, i));
        i += 1;
    }
    assert(base.take(days@.len() as int) == base);
    proof {
        lemma_keys_in_range(days@);
    }
    let ghost ordered = ordered_days(days@);
    let n = keys.len();
    assert(ordered.len() == n);
    // Walk the days in order.
    let mut day_totals_vec: Vec<DayTotals> = Vec::new();
    let mut logged: usize = 0;
    let mut tasks: u32 = 0;
    let mut minutes: u32 = 0;
    let mut cells: Vec<(LocalDate, Cell)> = Vec::new();
    let mut notes: Vec<(LocalDate, String)> = Vec::new();
    let mut k: usize = 0;
    while k < n
        invariant
            k <= n,
            n == keys@.len(),
            n == days@.len(),
            ordered == ordered_days(days@),
            ordered.len() == n,
            forall|j: int| 0 <= j < n ==> (#[trigger] keys@[j]).1 < days@.len() && ordered[j] == days@[keys@[j].1 as int],
            day_totals_vec@ == ordered.take(k as int).map_values(|d: DaySummary| day_totals(d)),
            logged as int == count_logged(ordered.take(k as int)),
            logged <= k,
            tasks as int == sat_sum_u32(tasks_of(ordered.take(k as int))),
            minutes as int == sat_sum_u32(minutes_of(ordered.take(k as int))),
            cells@ == ordered.take(k as int).map_values(|d: DaySummary| (d.local_date, d.cell)),
            notes@.map_values(|x: (LocalDate, String)| (x.0, x.1@)) == spec_notes(ordered.take(k as int)),
        decreases n - k,
    {
        let day = &days[keys[k].1];
        assert(*day == ordered[k as int]);
        let ghost prefix = ordered.take(k as int);
        assert(ordered.take(k + 1).drop_last() == prefix);
        assert(ordered.take(k + 1).last() == ordered[k as int]);
        assert(tasks_of(ordered.take(k + 1)).drop_last() == tasks_of(prefix));
        assert(minutes_of(ordered.take(k + 1)).drop_last() == minutes_of(prefix));
        let totals_entry = if day.cell.counts_toward_completion() {
            DayTotals { earned: day.earned_points, available: day.available_points, is_rest: false }
        } else {
            DayTotals { earned: 0, available: 0, is_rest: true }
        };
        day_totals_vec.push(totals_entry);
        assert(day_totals_vec@ =~= ordered.take(k + 1).map_values(|d: DaySummary| day_totals(d)));
        if day.tasks_completed > 0 {
            logged += 1;
        }
        tasks = if tasks > u32::MAX - day.tasks_completed { u32::MAX } else { tasks + day.tasks_completed };
        minutes = if minutes > u32::MAX - day.minutes_invested { u32::MAX } else { minutes + day.minutes_invested };
        cells.push((day.local_date, day.cell));
        assert(cells@ =~= ordered.take(k + 1).map_values(|d: DaySummary| (d.local_date, d.cell)));
        let ghost notes_before = notes@;
        match &day.note {
            Some(note) => {
                let chars = chars_of(note.as_str());
                let (lo, hi) = trim_bounds(chars.as_slice());
                if lo < hi {
                    let text = string_of_range(chars.as_slice(), lo, hi);
                    notes.push((day.local_date, text));
                    assert(notes@.map_values(|x: (LocalDate, String)| (x.0, x.1@)) =~= notes_before.map_values(
                        |x: (LocalDate, String)| (x.0, x.1@),
                    ).push((day.local_date, trim(note@))));
                }
            },
            None => {},
        }
        k += 1;
    }
    assert(ordered.take(n as int) == ordered);
    proof {
        lemma_sat_sum_bound(minutes_of(ordered));
    }
    let (earned, available) = totals(day_totals_vec.as_slice());
    let first = keys[0].1;
    let last = keys[n - 1].1;
    let artifact = CompletionArtifact {
        title: title.to_owned(),
        started_on: days[first].local_date,
        finished_on: days[last].local_date,
        days_total: n as u32,
        days_logged: logged as u32,
        completion_rate: completion_rate(earned, available),
        longest_streak,
        tasks_completed: tasks,
        hours_invested: (minutes + 30) / 60,
        cells,
        notes,
    };
    Ok(artifact)
}

proof fn lemma_date_order_total()
    ensures
        total_preorder(date_order()),
{
}

/// The heatmap shows every day exactly once, in date order, whatever order
/// the days arrived in; the run starts on the earliest day and finishes on the
/// latest.
pub proof fn lemma_cells_in_date_order(title: Seq<char>, days: Seq<DaySummary>, longest_streak: u32)
    requires
        0 < days.len() <= usize::MAX,
    ensures
        ({
            let a = spec_artifact(title, days, longest_streak);
            &&& a.cells.len() == days.len()
            &&& forall|i: int, j: int| 0 <= i < j < a.cells.len() ==> (#[trigger] a.cells[i]).0.days_from_ce
                <= (#[trigger] a.cells[j]).0.days_from_ce
            &&& a.cells.to_multiset() == days.map_values(|d: DaySummary| (d.local_date, d.cell)).to_multiset()
            &&& forall|k: int| 0 <= k < days.len() ==> a.started_on.days_from_ce <= (#[trigger] days[k]).local_date.days_from_ce
                <= a.finished_on.days_from_ce
        }),
{
    let base = Seq::new(days.len(), |i: int| (days[i].local_date, i as usize));
    let keys = sort_by(base, date_order());
    let a = spec_artifact(title, days, longest_streak);
    let ordered = ordered_days(days);
    lemma_keys_in_range(days);
    lemma_date_order_total();
    lemma_sort_by_sorted(base, date_order());
    lemma_sort_by_multiset(base, date_order());
    let g = |k: DayKey| (days[k.1 as int].local_date, days[k.1 as int].cell);
    // Each key carries its day's date.
    assert forall|k: int| 0 <= k < keys.len() implies (#[trigger] keys[k]).0 == days[keys[k].1 as int].local_date by {
        lemma_sort_by_contains(base, date_order(), keys[k]);
        assert(keys.contains(keys[k]));
        let m = choose|m: int| 0 <= m < base.len() && base[m] == keys[k];
        assert(base[m] == (days[m].local_date, m as usize));
    }
    assert(a.cells =~= keys.map_values(g));
    assert forall|i: int| 0 <= i < days.len() implies #[trigger] base[i].1 as int == i by {}
    assert(days.map_values(|d: DaySummary| (d.local_date, d.cell)) =~= base.map_values(g));
    lemma_map_values_multiset(keys, base, g);
    assert forall|i: int, j: int| 0 <= i < j < a.cells.len() implies (#[trigger] a.cells[i]).0.days_from_ce
        <= (#[trigger] a.cells[j]).0.days_from_ce by {
        assert(date_order()(keys[i], keys[j]));
    }
    assert forall|k: int| 0 <= k < days.len() implies a.started_on.days_from_ce <= (#[trigger] days[k]).local_date.days_from_ce
        <= a.finished_on.days_from_ce by {
        assert(base.contains(base[k]));
        lemma_sort_by_contains(base, date_order(), base[k]);
        let m = choose|m: int| 0 <= m < keys.len() && keys[m] == base[k];
        if m > 0 {
            assert(date_order()(keys[0], keys[m]));
        }
        if m < keys.len() - 1 {
            assert(date_order()(keys[m], keys[keys.len() - 1]));
        }
    }
}

/// The input days on which at least one task was completed.
pub open spec fn days_with_work(days: Seq<DaySummary>) -> Seq<DaySummary> {
    days.filter(|d: DaySummary| d.tasks_completed > 0)
}

proof fn lemma_count_logged_is_days_with_work(days: Seq<DaySummary>)
    ensures
        count_logged(days) == days_with_work(days).len(),
    decreases days.len(),
{
    reveal(Seq::filter);
    if days.len() > 0 {
        lemma_count_logged_is_days_with_work(days.drop_last());
    }
}

proof fn lemma_days_with_work_permutation(s: Seq<DaySummary>, t: Seq<DaySummary>)
    requires
        s.to_multiset() == t.to_multiset(),
    ensures
        days_with_work(s).len() == days_with_work(t).len(),
    decreases s.len(),
{
    broadcast use vstd::multiset::group_multiset_axioms;
    broadcast use vstd::seq_lib::to_multiset_build, vstd::seq_lib::to_multiset_remove, vstd::seq_lib::to_multiset_len,
        vstd::seq_lib::to_multiset_contains;

    reveal(Seq::filter);
    let p = |d: DaySummary| d.tasks_completed > 0;
    if s.len() == 0 {
        assert(s.to_multiset().len() == 0);
        assert(t.to_multiset().len() == t.len());
        assert(t.len() == 0);
    } else {
        let x = s.last();
        let rest = s.drop_last();
        assert(s == rest.push(x));
        assert(s.to_multiset().count(x) > 0);
        assert(t.to_multiset().contains(x));
        assert(t.contains(x));
        let m = choose|m: int| 0 <= m < t.len() && t[m] == x;
        assert(rest.to_multiset() =~= t.remove(m).to_multiset());
        lemma_days_with_work_permutation(rest, t.remove(m));
        let a = t.take(m);
        let b = t.skip(m + 1);
        assert(t == a + seq![x] + b);
        assert(t.remove(m) == a + b);
        Seq::filter_distributes_over_add(a + seq![x], b, p);
        Seq::filter_distributes_over_add(a, seq![x], p);
        Seq::filter_distributes_over_add(a, b, p);
        assert(seq![x].drop_last() =~= Seq::<DaySummary>::empty());
        assert(seq![x].last() == x);
        assert(seq![x].drop_last().filter(p).len() == 0);
        assert(seq![x].filter(p).len() == if p(x) { 1int } else { 0 });
    }
}

/// A day counts as logged exactly when at least one task was completed on
/// it, whatever its heatmap cell: the artifact's logged days are the input
/// days with a completed task, however the days were ordered, and never more
/// than the days in the run.
pub proof fn lemma_days_logged(title: Seq<char>, days: Seq<DaySummary>, longest_streak: u32)
    requires
        0 < days.len() <= usize::MAX,
    ensures
        spec_artifact(title, days, longest_streak).days_logged == days_with_work(days).len() as u32,
        spec_artifact(title, days, longest_streak).days_total == days.len() as u32,
        days_with_work(days).len() <= days.len(),
{
    let base = Seq::new(days.len(), |i: int| (days[i].local_date, i as usize));
    let keys = sort_by(base, date_order());
    let ordered = ordered_days(days);
    let g = |k: DayKey| days[k.1 as int];
    lemma_keys_in_range(days);
    crate::order::lemma_sort_by_multiset(base, date_order());
    lemma_map_values_multiset(keys, base, g);
    assert(ordered =~= keys.map_values(g));
    assert forall|i: int| 0 <= i < days.len() implies #[trigger] base[i].1 as int == i by {}
    assert(base.map_values(g) =~= days);
    lemma_days_with_work_permutation(ordered, days);
    lemma_count_logged_is_days_with_work(ordered);
    days.filter_lemma(|d: DaySummary| d.tasks_completed > 0);
}

} // verus!
