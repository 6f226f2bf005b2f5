//! Calibration: the intensity cap enforced in code, after generation.
//!
//! Remedies are applied in a fixed order: split long pinned tasks into
//! consecutive sub-tasks, push overflow to a later day with room, extend the
//! duration up to one and a half times the original, and only then report the
//! days still over capacity. Content is never dropped.
use vstd::prelude::*;
use crate::cadence::{Cadence, CadenceView};
use crate::text::{decimal, push_decimal};
use crate::types::{
    copy_opt_string, spec_daily_cap, spec_pinned_day, GeneratedTask, GeneratedTaskView, Intensity, Warning,
};

verus! {

/// Tasks longer than this are split into consecutive sub-tasks.
pub const SPLIT_THRESHOLD_MINUTES: u16 = 45;

/// Hardest ceiling on a program's duration.
pub const MAX_DURATION_DAYS: u16 = 730;

/// `a + b` clamped to the `u32` range.
pub open spec fn sat_u32(a: u32, b: u32) -> u32 {
    if a + b > u32::MAX { u32::MAX } else { (a + b) as u32 }
}

/// The weekday a projected day falls on, the program being taken to start on
/// a Monday: 1 for Monday through 7 for Sunday.
pub open spec fn projected_weekday(index: int) -> u8 {
    (index % 7 + 1) as u8
}

/// A task's fixed contribution: daily tasks on every day, weekday tasks on
/// their weekdays, a pinned task on its day if it is inside the duration.
/// Floating tasks are placed separately.
pub open spec fn add_fixed(load: Seq<u32>, task: GeneratedTaskView) -> Seq<u32> {
    let minutes = task.estimated_minutes as u32;
    match task.cadence {
        CadenceView::Daily => Seq::new(load.len(), |i: int| sat_u32(load[i], minutes)),
        CadenceView::WeeklyDays { days } => Seq::new(
            load.len(),
            |i: int| if days.contains(projected_weekday(i)) { sat_u32(load[i], minutes) } else { load[i] },
        ),
        CadenceView::Once { day_offset } => if day_offset < load.len() {
            load.update(day_offset as int, sat_u32(load[day_offset as int], minutes))
        } else {
            load
        },
        CadenceView::NPerWeek { .. } => load,
    }
}

pub open spec fn fixed_load(tasks: Seq<GeneratedTaskView>, days: nat) -> Seq<u32>
    decreases tasks.len(),
{
    if tasks.len() == 0 {
        Seq::new(days, |i: int| 0u32)
    } else {
        add_fixed(fixed_load(tasks.drop_last(), days), tasks.last())
    }
}

/// The first index of a least-loaded day in `[lo, hi)`.
pub open spec fn lightest(load: Seq<u32>, lo: int, hi: int) -> int
    decreases hi - lo,
{
    if hi - lo <= 1 {
        lo
    } else {
        let best = lightest(load, lo, hi - 1);
        if load[hi - 1] < load[best] { hi - 1 } else { best }
    }
}

/// `n` sessions placed one at a time, each on the lightest day of `[lo, hi)`
/// at the moment it is placed.
pub open spec fn place_sessions(load: Seq<u32>, lo: int, hi: int, n: nat, minutes: u32) -> Seq<u32>
    decreases n,
{
    if n == 0 {
        load
    } else {
        let at = lightest(load, lo, hi);
        place_sessions(load.update(at, sat_u32(load[at], minutes)), lo, hi, (n - 1) as nat, minutes)
    }
}

/// A floating task's sessions placed week by week from `week_start`.
pub open spec fn place_weeks(load: Seq<u32>, week_start: int, days: int, count: nat, minutes: u32) -> Seq<u32>
    decreases days - week_start,
{
    if week_start >= days {
        load
    } else {
        let week_end = if days - week_start > 7 { week_start + 7 } else { days };
        place_weeks(place_sessions(load, week_start, week_end, count, minutes), week_end, days, count, minutes)
    }
}

pub open spec fn add_floating(load: Seq<u32>, task: GeneratedTaskView) -> Seq<u32> {
    match task.cadence {
        CadenceView::NPerWeek { count } => place_weeks(load, 0, load.len() as int, count as nat, task.estimated_minutes as u32),
        _ => load,
    }
}

pub open spec fn floating_load(load: Seq<u32>, tasks: Seq<GeneratedTaskView>) -> Seq<u32>
    decreases tasks.len(),
{
    if tasks.len() == 0 {
        load
    } else {
        add_floating(floating_load(load, tasks.drop_last()), tasks.last())
    }
}

/// The daily minute load a task list implies over a duration: fixed loads
/// first, then every floating task's sessions on the lightest days of each
/// week.
pub open spec fn spec_project(tasks: Seq<GeneratedTaskView>, days: nat) -> Seq<u32> {
    floating_load(fixed_load(tasks, days), tasks)
}

proof fn lemma_lightest_bounds(load: Seq<u32>, lo: int, hi: int)
    requires
        lo < hi,
    ensures
        lo <= lightest(load, lo, hi) < hi,
    decreases hi - lo,
{
    if hi - lo > 1 {
        lemma_lightest_bounds(load, lo, hi - 1);
    }
}

proof fn lemma_place_sessions_len(load: Seq<u32>, lo: int, hi: int, n: nat, minutes: u32)
    requires
        0 <= lo < hi <= load.len(),
    ensures
        place_sessions(load, lo, hi, n, minutes).len() == load.len(),
    decreases n,
{
    if n > 0 {
        lemma_lightest_bounds(load, lo, hi);
        let at = lightest(load, lo, hi);
        lemma_place_sessions_len(load.update(at, sat_u32(load[at], minutes)), lo, hi, (n - 1) as nat, minutes);
    }
}

proof fn lemma_place_weeks_len(load: Seq<u32>, week_start: int, days: int, count: nat, minutes: u32)
    requires
        0 <= week_start,
        days == load.len(),
    ensures
        place_weeks(load, week_start, days, count, minutes).len() == load.len(),
    decreases days - week_start,
{
    if week_start < days {
        let week_end = if days - week_start > 7 { week_start + 7 } else { days };
        lemma_place_sessions_len(load, week_start, week_end, count, minutes);
        lemma_place_weeks_len(place_sessions(load, week_start, week_end, count, minutes), week_end, days, count, minutes);
    }
}

proof fn lemma_floating_len(load: Seq<u32>, tasks: Seq<GeneratedTaskView>)
    ensures
        floating_load(load, tasks).len() == load.len(),
    decreases tasks.len(),
{
    if tasks.len() > 0 {
        lemma_floating_len(load, tasks.drop_last());
        let l = floating_load(load, tasks.drop_last());
        match tasks.last().cadence {
            CadenceView::NPerWeek { count } => lemma_place_weeks_len(l, 0, l.len() as int, count as nat, tasks.last().estimated_minutes as u32),
            _ => {},
        }
    }
}

proof fn lemma_fixed_len(tasks: Seq<GeneratedTaskView>, days: nat)
    ensures
        fixed_load(tasks, days).len() == days,
    decreases tasks.len(),
{
    if tasks.len() > 0 {
        lemma_fixed_len(tasks.drop_last(), days);
    }
}

/// A projection has one entry per day of the duration.
pub proof fn lemma_project_len(tasks: Seq<GeneratedTaskView>, days: nat)
    ensures
        spec_project(tasks, days).len() == days,
{
    lemma_fixed_len(tasks, days);
    lemma_floating_len(fixed_load(tasks, days), tasks);
}

fn sat_add_u32(a: u32, b: u32) -> (r: u32)
    ensures
        r == sat_u32(a, b),
{
    if a > u32::MAX - b { u32::MAX } else { a + b }
}

fn apply_fixed(load: &mut Vec<u32>, task: &GeneratedTask)
    ensures
        final(load)@ == add_fixed(old(load)@, task@),
{
    let minutes = task.estimated_minutes as u32;
    let n = load.len();
    match &task.cadence {
        Cadence::Daily => {
            let ghost before = load@;
            let mut i: usize = 0;
            while i < n
                invariant
                    i <= n,
                    n == before.len(),
                    load@.len() == n,
                    forall|j: int| 0 <= j < i ==> load@[j] == sat_u32(before[j], minutes),
                    forall|j: int| i <= j < n ==> load@[j] == before[j],
                decreases n - i,
            {
                let v = sat_add_u32(load[i], minutes);
                load.set(i, v);
                i += 1;
            }
            assert(load@ == Seq::new(before.len(), |i: int| sat_u32(before[i], minutes)));
        },
        Cadence::WeeklyDays { days } => {
            let ghost before = load@;
            let ghost wd = days@;
            let mut i: usize = 0;
            while i < n
                invariant
                    i <= n,
                    n == before.len(),
                    wd == days@,
                    load@.len() == n,
                    forall|j: int| 0 <= j < i ==> load@[j] == (if wd.contains(projected_weekday(j)) {
                        sat_u32(before[j], minutes)
                    } else {
                        before[j]
                    }),
                    forall|j: int| i <= j < n ==> load@[j] == before[j],
                decreases n - i,
            {
                let weekday = (i % 7) as u8 + 1;
                if crate::cadence::contains_u8(days.as_slice(), weekday) {
                    let v = sat_add_u32(load[i], minutes);
                    load.set(i, v);
                }
                i += 1;
            }
            assert(load@ == Seq::new(
                before.len(),
                |i: int| if wd.contains(projected_weekday(i)) { sat_u32(before[i], minutes) } else { before[i] },
            ));
        },
        Cadence::Once { day_offset } => {
            if (*day_offset as usize) < n && (*day_offset as u64) < (n as u64) {
                let d = *day_offset as usize;
                let v = sat_add_u32(load[d], minutes);
                load.set(d, v);
            }
        },
        Cadence::NPerWeek { .. } => {},
    }
}

fn lightest_exec(load: &Vec<u32>, lo: usize, hi: usize) -> (at: usize)
    requires
        lo < hi <= load.len(),
    ensures
        at == lightest(load@, lo as int, hi as int),
{
    let mut best = lo;
    let mut i = lo + 1;
    while i < hi
        invariant
            lo < i <= hi <= load.len(),
            best == lightest(load@, lo as int, i as int),
        decreases hi - i,
    {
        proof {
            lemma_lightest_bounds(load@, lo as int, i as int);
        }
        if load[i] < load[best] {
            best = i;
        }
        i += 1;
    }
    best
}

fn apply_floating(load: &mut Vec<u32>, task: &GeneratedTask)
    ensures
        final(load)@ == add_floating(old(load)@, task@),
{
    let count = match &task.cadence {
        Cadence::NPerWeek { count } => *count,
        _ => return,
    };
    let minutes = task.estimated_minutes as u32;
    let days = load.len();
    let ghost start = load@;
    let mut week_start: usize = 0;
    while week_start < days
        invariant
            week_start <= days,
            days == load@.len(),
            days == start.len(),
            place_weeks(start, 0, days as int, count as nat, minutes)
                == place_weeks(load@, week_start as int, days as int, count as nat, minutes),
        decreases days - week_start,
    {
        let week_end = if days - week_start > 7 { week_start + 7 } else { days };
        let ghost week_load = load@;
        let mut placed: u8 = 0;
        while placed < count
            invariant
                placed <= count,
                week_start < week_end <= days,
                days == load@.len(),
                place_sessions(week_load, week_start as int, week_end as int, count as nat, minutes)
                    == place_sessions(load@, week_start as int, week_end as int, (count - placed) as nat, minutes),
            decreases count - placed,
        {
            let at = lightest_exec(load, week_start, week_end);
            proof {
                lemma_lightest_bounds(load@, week_start as int, week_end as int);
            }
            let v = sat_add_u32(load[at], minutes);
            load.set(at, v);
            placed += 1;
        }
        week_start = week_end;
    }
}

/// The views of a list of tasks.
pub open spec fn views(tasks: Seq<GeneratedTask>) -> Seq<GeneratedTaskView> {
    tasks.map_values(|t: GeneratedTask| t@)
}

proof fn lemma_views_take(tasks: Seq<GeneratedTask>, k: int)
    requires
        0 <= k < tasks.len(),
    ensures
        views(tasks.take(k + 1)).drop_last() == views(tasks.take(k)),
        views(tasks.take(k + 1)).last() == tasks[k]@,
        views(tasks.take(tasks.len() as int)) == views(tasks),
{
    assert(views(tasks.take(k + 1)).drop_last() =~= views(tasks.take(k)));
    assert(tasks.take(tasks.len() as int) == tasks);
}

/// Project the daily minute load a task list implies over a duration.
/// Weekday cadences are projected as if the program starts on a Monday;
/// floating tasks are placed on the lightest days of each week.
pub fn project(tasks: &[GeneratedTask], duration_days: u16) -> (load: Vec<u32>)
    ensures
        load@ == spec_project(views(tasks@), duration_days as nat),
        load@.len() == duration_days,
{
    let days = duration_days as usize;
    let mut load: Vec<u32> = Vec::new();
    let mut i: usize = 0;
    while i < days
        invariant
            i <= days,
            load@ == Seq::new(i as nat, |j: int| 0u32),
        decreases days - i,
    {
        load.push(0);
        i += 1;
    }
    let ghost zero = load@;
    assert(zero == fixed_load(views(tasks@.take(0)), days as nat));
    let mut k: usize = 0;
    while k < tasks.len()
        invariant
            k <= tasks.len(),
            load@ == fixed_load(views(tasks@.take(k as int)), days as nat),
        decreases tasks.len() - k,
    {
        proof {
            lemma_views_take(tasks@, k as int);
        }
        apply_fixed(&mut load, &tasks[k]);
        k += 1;
    }
    assert(tasks@.take(tasks.len() as int) == tasks@);
    let ghost fixed = load@;
    let mut k: usize = 0;
    while k < tasks.len()
        invariant
            k <= tasks.len(),
            fixed == fixed_load(views(tasks@), days as nat),
            load@ == floating_load(fixed, views(tasks@.take(k as int))),
        decreases tasks.len() - k,
    {
        proof {
            lemma_views_take(tasks@, k as int);
        }
        apply_floating(&mut load, &tasks[k]);
        k += 1;
    }
    assert(tasks@.take(tasks.len() as int) == tasks@);
    proof {
        lemma_project_len(views(tasks@), days as nat);
    }
    load
}


/// Into how many parts a task of `total` minutes is split: enough that none is
/// longer than the threshold.
pub open spec fn parts_for(total: int) -> int {
    (total + 44) / 45
}

/// The minutes of one part: the total shared as evenly as possible, the
/// earlier parts taking the remainder one minute each.
pub open spec fn part_minutes(total: int, parts: int, part: int) -> int {
    if part < total % parts { total / parts + 1 } else { total / parts }
}

/// `"<title> (<part>/<parts>)"`.
pub open spec fn part_title(title: Seq<char>, part: int, parts: int) -> Seq<char> {
    title + seq![' ', '('] + decimal(part as nat) + seq!['/'] + decimal(parts as nat) + seq![')']
}

/// Whether a task is pinned to a day and longer than the split threshold.
pub open spec fn needs_split(task: GeneratedTaskView) -> bool {
    spec_pinned_day(task) is Some && task.estimated_minutes > SPLIT_THRESHOLD_MINUTES
}

/// A long pinned task as consecutive one-day parts starting on its day.
pub open spec fn split_task(task: GeneratedTaskView) -> Seq<GeneratedTaskView> {
    let total = task.estimated_minutes as int;
    let parts = parts_for(total);
    let day = spec_pinned_day(task)->0;
    Seq::new(
        parts as nat,
        |p: int|
            GeneratedTaskView {
                title: part_title(task.title, p + 1, parts),
                description: task.description,
                category: task.category,
                difficulty: task.difficulty,
                estimated_minutes: part_minutes(total, parts, p) as u16,
                cadence: CadenceView::Once { day_offset: (day + p) as u32 },
            },
    )
}

proof fn lemma_part_minutes_prefix(task: GeneratedTaskView, k: int)
    requires
        needs_split(task),
        0 <= k <= parts_for(task.estimated_minutes as int),
    ensures
        ({
            let total = task.estimated_minutes as int;
            let n = parts_for(total);
            total_minutes(split_task(task).take(k)) == k * (total / n) + (if k < total % n { k } else { total % n })
        }),
    decreases k,
{
    let total = task.estimated_minutes as int;
    let n = parts_for(total);
    assert(n >= 2 && total / n <= 45) by (nonlinear_arith)
        requires
            total > 45,
            total <= 65535,
            n == (total + 44) / 45,
    ;
    if k > 0 {
        lemma_part_minutes_prefix(task, k - 1);
        assert(split_task(task).take(k).drop_last() == split_task(task).take(k - 1));
        assert(split_task(task).take(k).last() == split_task(task)[k - 1]);
        assert(total % n < n);
        assert(split_task(task)[k - 1].estimated_minutes == part_minutes(total, n, k - 1));
        assert(k * (total / n) == (k - 1) * (total / n) + total / n) by (nonlinear_arith);
        let q = total / n;
        let r = total % n;
        assert(total_minutes(split_task(task).take(k)) == total_minutes(split_task(task).take(k - 1))
            + part_minutes(total, n, k - 1));
        assert(part_minutes(total, n, k - 1) == if k - 1 < r { q + 1 } else { q });
    } else {
        assert(split_task(task).take(k) =~= Seq::<GeneratedTaskView>::empty());
        assert(k * (total / n) == 0) by (nonlinear_arith)
            requires
                k == 0,
        ;
    }
}

/// Splitting a long task pinned to day `d` puts part `p` on day `d + p`: the
/// parts occupy consecutive, distinct days starting on the task's own day.
/// There are enough of them that none is longer than the threshold, their
/// minutes differ by at most one, and together they take exactly the task's
/// minutes. Each part keeps the task's description, category and difficulty,
/// and is titled after the task with its number among the parts.
pub proof fn lemma_split_parts(task: GeneratedTaskView)
    requires
        needs_split(task),
        spec_pinned_day(task)->0 + parts_for(task.estimated_minutes as int) - 1 <= u32::MAX,
    ensures
        ({
            let parts = split_task(task);
            let day = spec_pinned_day(task)->0;
            let total = task.estimated_minutes as int;
            &&& parts.len() >= 2
            &&& parts.len() * SPLIT_THRESHOLD_MINUTES >= total
            &&& forall|p: int| 0 <= p < parts.len() ==> spec_pinned_day(#[trigger] parts[p]) == Some((day + p) as u32)
                && (day + p) as u32 == day + p
            &&& forall|p: int, q: int|
                0 <= p < q < parts.len() ==> spec_pinned_day(#[trigger] parts[p]) != spec_pinned_day(#[trigger] parts[q])
            &&& forall|p: int|
                0 <= p < parts.len() ==> 1 <= (#[trigger] parts[p]).estimated_minutes <= SPLIT_THRESHOLD_MINUTES
            &&& forall|p: int, q: int|
                0 <= p < parts.len() && 0 <= q < parts.len() ==> (#[trigger] parts[p]).estimated_minutes <= (
                #[trigger] parts[q]).estimated_minutes + 1
            &&& total_minutes(parts) == total
            &&& forall|p: int|
                0 <= p < parts.len() ==> (#[trigger] parts[p]).title == task.title + seq![' ', '('] + decimal((p + 1) as nat)
                    + seq!['/'] + decimal(parts.len()) + seq![')'] && parts[p].description == task.description
                    && parts[p].category == task.category && parts[p].difficulty == task.difficulty
        }),
{
    let total = task.estimated_minutes as int;
    let n = parts_for(total);
    let parts = split_task(task);
    assert(n >= 2 && total / n <= 45 && total / n >= 1 && n * 45 >= total && (total / n == 45 ==> total % n == 0))
        by (nonlinear_arith)
        requires
            total > 45,
            total <= 65535,
            n == (total + 44) / 45,
    ;
    assert forall|p: int| 0 <= p < parts.len() implies 1 <= (#[trigger] parts[p]).estimated_minutes
        <= SPLIT_THRESHOLD_MINUTES by {
        assert(total % n < n);
    }
    lemma_part_minutes_prefix(task, n);
    assert(parts.take(n) == parts);
    assert(n * (total / n) + total % n == total) by (nonlinear_arith)
        requires
            n > 0,
    ;
}

/// Splitting goes task by task, in order: a list split in two pieces gives
/// the first piece's output followed by the second's, and a single task comes
/// out as its parts when it is long and pinned, and unchanged otherwise.
pub proof fn lemma_split_task_by_task(a: Seq<GeneratedTaskView>, b: Seq<GeneratedTaskView>)
    ensures
        spec_split(a + b).0 == spec_split(a).0 + spec_split(b).0,
        b.len() == 1 ==> spec_split(b).0 == (if needs_split(b[0]) { split_task(b[0]) } else { b }),
    decreases b.len(),
{
    if b.len() == 0 {
        assert(a + b == a);
        assert(spec_split(a).0 + spec_split(b).0 == spec_split(a).0);
    } else {
        lemma_split_task_by_task(a, b.drop_last());
        assert((a + b).drop_last() == a + b.drop_last());
        assert((a + b).last() == b.last());
        if b.len() == 1 {
            assert(b.drop_last() =~= Seq::<GeneratedTaskView>::empty());
            assert(b.last() == b[0]);
            assert(Seq::<GeneratedTaskView>::empty() + split_task(b[0]) == split_task(b[0]));
            assert(Seq::<GeneratedTaskView>::empty().push(b[0]) == b);
        }
        let x = spec_split(a).0;
        let y = spec_split(b.drop_last()).0;
        if needs_split(b.last()) {
            assert(x + y + split_task(b.last()) == x + (y + split_task(b.last())));
        } else {
            assert((x + y).push(b.last()) == x + y.push(b.last()));
        }
    }
}

/// Every long pinned task's parts stay on representable days.
pub open spec fn split_fits(tasks: Seq<GeneratedTaskView>) -> bool {
    forall|i: int|
        0 <= i < tasks.len() && needs_split(#[trigger] tasks[i]) ==> spec_pinned_day(tasks[i])->0 + parts_for(
            tasks[i].estimated_minutes as int,
        ) - 1 <= u32::MAX
}

/// Splitting every long pinned task, with a warning for each carrying the
/// index of its first part.
pub open spec fn spec_split(tasks: Seq<GeneratedTaskView>) -> (Seq<GeneratedTaskView>, Seq<Warning>)
    decreases tasks.len(),
{
    if tasks.len() == 0 {
        (seq![], seq![])
    } else {
        let (out, warnings) = spec_split(tasks.drop_last());
        let task = tasks.last();
        if needs_split(task) {
            (
                out + split_task(task),
                warnings.push(
                    Warning::TaskSplit {
                        task_index: out.len() as u16,
                        parts: parts_for(task.estimated_minutes as int) as u16,
                    },
                ),
            )
        } else {
            (out.push(task), warnings)
        }
    }
}

fn split_long_pinned_tasks(tasks: &Vec<GeneratedTask>, warnings: &mut Vec<Warning>) -> (out: Vec<GeneratedTask>)
    requires
        split_fits(views(tasks@)),
    ensures
        views(out@) == spec_split(views(tasks@)).0,
        final(warnings)@ == old(warnings)@ + spec_split(views(tasks@)).1,
{
    let mut out: Vec<GeneratedTask> = Vec::new();
    let ghost start = warnings@;
    let mut k: usize = 0;
    while k < tasks.len()
        invariant
            k <= tasks.len(),
            split_fits(views(tasks@)),
            views(out@) == spec_split(views(tasks@.take(k as int))).0,
            warnings@ == start + spec_split(views(tasks@.take(k as int))).1,
        decreases tasks.len() - k,
    {
        proof {
            lemma_views_take(tasks@, k as int);
        }
        let task = &tasks[k];
        assert(views(tasks@)[k as int] == task@);
        match task.pinned_day() {
            Some(day) if task.estimated_minutes > SPLIT_THRESHOLD_MINUTES => {
                let total: u16 = task.estimated_minutes;
                let parts: u16 = total / 45 + if total % 45 != 0 { 1 } else { 0 };
                assert(parts == (total + 44) / 45);
                let base: u16 = total / parts;
                let remainder: u16 = total % parts;
                assert(1 <= parts && base <= 45) by (nonlinear_arith)
                    requires
                        total > 45,
                        parts == (total + 44) / 45,
                        base == total / parts,
                ;
                assert(needs_split(views(tasks@)[k as int]));
                let ghost first = out@.len();
                let task_index = #[verifier::truncate] (out.len() as u16);
                warnings.push(Warning::TaskSplit { task_index, parts });
                let ghost before = views(out@);
                let mut part: u16 = 0;
                while part < parts
                    invariant
                        part <= parts,
                        parts == parts_for(total as int),
                        base == total / parts,
                        1 <= parts,
                        base <= 45,
                        remainder == total % parts,
                        total == task.estimated_minutes,
                        spec_pinned_day(task@) == Some(day),
                        day + parts - 1 <= u32::MAX,
                        views(out@) == before + split_task(task@).take(part as int),
                    decreases parts - part,
                {
                    let minutes: u16 = if part < remainder { base + 1 } else { base };
                    let mut title = task.title.clone();
                    title.push(' ');
                    title.push('(');
                    push_decimal(&mut title, (part + 1) as u32);
                    title.push('/');
                    push_decimal(&mut title, parts as u32);
                    title.push(')');
                    assert(title@ =~= part_title(task.title@, part + 1, parts as int));
                    let piece = GeneratedTask {
                        title,
                        description: copy_opt_string(&task.description),
                        category: copy_opt_string(&task.category),
                        difficulty: task.difficulty,
                        estimated_minutes: minutes,
                        cadence: Cadence::Once { day_offset: day + part as u32 },
                    };
                    assert(piece@ == split_task(task@)[part as int]);
                    let ghost out_before = out@;
                    out.push(piece);
                    assert(views(out@) =~= views(out_before).push(split_task(task@)[part as int]));
                    assert(split_task(task@).take(part + 1) == split_task(task@).take(part as int).push(split_task(task@)[part as int]));
                    assert(views(out@) =~= before + split_task(task@).take(part + 1));
                    part += 1;
                }
                assert(split_task(task@).take(parts as int) == split_task(task@));
            },
            _ => {
                let ghost out_before = out@;
                out.push(task.duplicate());
                assert(views(out@) =~= views(out_before).push(task@));
                assert(views(out@) =~= spec_split(views(tasks@.take(k as int))).0.push(task@));
            },
        }
        k += 1;
    }
    assert(tasks@.take(tasks.len() as int) == tasks@);
    out
}


/// The index of the longest task pinned to `day` among the first `upto`
/// tasks; the later one wins a tie.
pub open spec fn largest_pinned(tasks: Seq<GeneratedTaskView>, day: int, upto: int) -> Option<int>
    decreases upto,
{
    if upto <= 0 {
        None
    } else {
        let prev = largest_pinned(tasks, day, upto - 1);
        let task = tasks[upto - 1];
        if spec_pinned_day(task) == Some(day as u32) {
            match prev {
                Some(p) => if tasks[p].estimated_minutes > task.estimated_minutes { prev } else { Some(upto - 1) },
                None => Some(upto - 1),
            }
        } else {
            prev
        }
    }
}

/// The first day in `[from, to)` that can absorb `minutes` within the
/// tolerated ceiling.
pub open spec fn first_room(load: Seq<u32>, from: int, to: int, minutes: u32, tolerated: int) -> Option<int>
    decreases to - from,
{
    if from >= to {
        None
    } else if sat_u32(load[from], minutes) <= tolerated {
        Some(from)
    } else {
        first_room(load, from + 1, to, minutes, tolerated)
    }
}

/// The first overloaded day from `day` on whose longest pinned task can move to
/// a later day with room: `(day, task index, target day)`.
pub open spec fn relief(tasks: Seq<GeneratedTaskView>, load: Seq<u32>, day: int, duration: int, tolerated: int) -> Option<(int, int, int)>
    decreases duration - day,
{
    if day >= duration {
        None
    } else {
        let here = if load[day] > tolerated {
            match largest_pinned(tasks, day, tasks.len() as int) {
                Some(index) => match first_room(load, day + 1, duration, tasks[index].estimated_minutes as u32, tolerated) {
                    Some(target) => Some((day, index, target)),
                    None => None,
                },
                None => None,
            }
        } else {
            None
        };
        if here is Some {
            here
        } else {
            relief(tasks, load, day + 1, duration, tolerated)
        }
    }
}

/// The working state of calibration.
pub struct CalState {
    pub tasks: Seq<GeneratedTaskView>,
    pub duration: int,
    pub warnings: Seq<Warning>,
}

/// One round of remedies: nothing to do when no day is over the ceiling or no
/// overloaded day holds a movable (pinned) task; otherwise move one task to a
/// later day with room, or failing that lengthen the program by a day while
/// the limit allows; otherwise stop.
pub open spec fn spec_round(st: CalState, tolerated: int, max_duration: int) -> Option<CalState> {
    let load = spec_project(st.tasks, st.duration as nat);
    if !(exists|d: int| 0 <= d < st.duration && load[d] > tolerated) {
        None
    } else if !(exists|d: int|
        0 <= d < st.duration && load[d] > tolerated && #[trigger] largest_pinned(st.tasks, d, st.tasks.len() as int) is Some) {
        None
    } else {
        match relief(st.tasks, load, 0, st.duration, tolerated) {
            Some((day, index, target)) => Some(
                CalState {
                    tasks: st.tasks.update(
                        index,
                        GeneratedTaskView { cadence: CadenceView::Once { day_offset: target as u32 }, ..st.tasks[index] },
                    ),
                    duration: st.duration,
                    warnings: st.warnings.push(
                        Warning::TaskMoved { task_index: index as u16, from_day: day as u16, to_day: target as u16 },
                    ),
                },
            ),
            None => if st.duration < max_duration {
                Some(CalState { duration: st.duration + 1, ..st })
            } else {
                None
            },
        }
    }
}

/// Rounds repeated until one does nothing, for at most `fuel` rounds.
pub open spec fn spec_iterate(st: CalState, tolerated: int, max_duration: int, fuel: nat) -> CalState
    decreases fuel,
{
    if fuel == 0 {
        st
    } else {
        match spec_round(st, tolerated, max_duration) {
            None => st,
            Some(next) => spec_iterate(next, tolerated, max_duration, (fuel - 1) as nat),
        }
    }
}

/// The closing report over the first `k` projected days: a day over the
/// ceiling is reported with its load, an empty day as empty.
pub open spec fn spec_report(projected: Seq<u32>, tolerated: int, cap: u16, k: int) -> Seq<Warning>
    decreases k,
{
    if k <= 0 {
        seq![]
    } else {
        let prev = spec_report(projected, tolerated, cap, k - 1);
        let minutes = projected[k - 1];
        if minutes > tolerated {
            prev.push(
                Warning::DayOverCapacity {
                    day_index: (k - 1) as u16,
                    projected_minutes: (if minutes > u16::MAX { u16::MAX as u32 } else { minutes }) as u16,
                    cap_minutes: cap,
                },
            )
        } else if minutes == 0 {
            prev.push(Warning::EmptyDay { day_index: (k - 1) as u16 })
        } else {
            prev
        }
    }
}

/// The longest a program of `original` days may be stretched to.
pub open spec fn spec_max_duration(original: int) -> int {
    if original * 3 / 2 > MAX_DURATION_DAYS { MAX_DURATION_DAYS as int } else { original * 3 / 2 }
}

pub open spec fn sat_usize_mul(a: int, b: int) -> int {
    if a * b > usize::MAX { usize::MAX as int } else { a * b }
}

pub open spec fn sat_usize_add(a: int, b: int) -> int {
    if a + b > usize::MAX { usize::MAX as int } else { a + b }
}

/// The number of rounds calibration allows itself.
pub open spec fn spec_budget(tasks: int, max_duration: int) -> nat {
    sat_usize_add(sat_usize_mul(tasks, max_duration), 64) as nat
}

#[derive(Clone, Debug, PartialEq, Eq)]
pub struct Calibration {
    pub duration_days: u16,
    pub tasks: Vec<GeneratedTask>,
    pub warnings: Vec<Warning>,
    /// Projected minutes per day index.
    pub projected_minutes: Vec<u32>,
}

pub struct CalibrationView {
    pub duration_days: int,
    pub tasks: Seq<GeneratedTaskView>,
    pub warnings: Seq<Warning>,
    pub projected_minutes: Seq<u32>,
}

impl View for Calibration {
    type V = CalibrationView;

    open spec fn view(&self) -> CalibrationView {
        CalibrationView {
            duration_days: self.duration_days as int,
            tasks: views(self.tasks@),
            warnings: self.warnings@,
            projected_minutes: self.projected_minutes@,
        }
    }
}

/// The sum of a day-by-day minute load.
pub open spec fn load_sum(load: Seq<u32>) -> int
    decreases load.len(),
{
    if load.len() == 0 {
        0
    } else {
        load_sum(load.drop_last()) + load.last()
    }
}

proof fn lemma_load_sum_prefix_bound(load: Seq<u32>, k: int)
    requires
        0 <= k <= load.len(),
    ensures
        0 <= load_sum(load.take(k)) <= load_sum(load),
    decreases load.len(),
{
    if k < load.len() {
        assert(load.drop_last().take(k) == load.take(k));
        lemma_load_sum_prefix_bound(load.drop_last(), k);
    } else {
        assert(load.take(k) == load);
    }
    if load.len() > 0 {
        lemma_load_sum_nonneg(load.drop_last());
    }
}

proof fn lemma_load_sum_nonneg(load: Seq<u32>)
    ensures
        0 <= load_sum(load),
    decreases load.len(),
{
    if load.len() > 0 {
        lemma_load_sum_nonneg(load.drop_last());
    }
}

impl Calibration {
    /// The confirm screen's headline number: the total projected minutes.
    pub fn total_minutes(&self) -> (total: u32)
        requires
            load_sum(self.projected_minutes@) <= u32::MAX,
        ensures
            total == load_sum(self.projected_minutes@),
    {
        let mut total: u32 = 0;
        let mut i: usize = 0;
        while i < self.projected_minutes.len()
            invariant
                i <= self.projected_minutes@.len(),
                load_sum(self.projected_minutes@) <= u32::MAX,
                total == load_sum(self.projected_minutes@.take(i as int)),
            decreases self.projected_minutes.len() - i,
        {
            proof {
                lemma_load_sum_prefix_bound(self.projected_minutes@, i + 1);
                assert(self.projected_minutes@.take(i + 1).drop_last() == self.projected_minutes@.take(i as int));
            }
            total = total + self.projected_minutes[i];
            i += 1;
        }
        assert(self.projected_minutes@.take(self.projected_minutes@.len() as int) == self.projected_minutes@);
        total
    }
}

/// Calibration: split, then push overflow and stretch round by round, then
/// note any stretch and report the days still over the ceiling or empty.
pub open spec fn spec_calibrate(tasks: Seq<GeneratedTaskView>, duration_days: int, intensity: Intensity) -> CalibrationView {
    let original = if duration_days < 1 { 1 } else { duration_days };
    let tolerated = (spec_daily_cap(intensity) * 12 / 10) as int;
    let max_duration = spec_max_duration(original);
    let (split, split_warnings) = spec_split(tasks);
    let st = spec_iterate(
        CalState { tasks: split, duration: original, warnings: split_warnings },
        tolerated,
        max_duration,
        spec_budget(split.len() as int, max_duration),
    );
    let warnings = if st.duration != original {
        st.warnings.push(Warning::DurationExtended { from_days: original as u16, to_days: st.duration as u16 })
    } else {
        st.warnings
    };
    let projected = spec_project(st.tasks, st.duration as nat);
    CalibrationView {
        duration_days: st.duration,
        tasks: st.tasks,
        warnings: warnings + spec_report(projected, tolerated, spec_daily_cap(intensity), projected.len() as int),
        projected_minutes: projected,
    }
}

pub open spec fn opt_usize(o: Option<int>) -> Option<usize> {
    match o {
        Some(i) => Some(i as usize),
        None => None,
    }
}

pub open spec fn opt_triple(o: Option<(int, int, int)>) -> Option<(usize, usize, usize)> {
    match o {
        Some((a, b, c)) => Some((a as usize, b as usize, c as usize)),
        None => None,
    }
}

fn largest_pinned_on(tasks: &Vec<GeneratedTask>, day: usize) -> (found: Option<usize>)
    requires
        day <= u32::MAX,
    ensures
        found is None <==> largest_pinned(views(tasks@), day as int, tasks@.len() as int) is None,
        found matches Some(i) ==> i < tasks@.len() && largest_pinned(views(tasks@), day as int, tasks@.len() as int) == Some(i as int),
{
    let ghost all = views(tasks@);
    let mut best: Option<usize> = None;
    let mut i: usize = 0;
    while i < tasks.len()
        invariant
            i <= tasks.len(),
            day <= u32::MAX,
            all == views(tasks@),
            best == opt_usize(largest_pinned(all, day as int, i as int)),
        decreases tasks.len() - i,
    {
        proof {
            lemma_largest_pinned_bounds(all, day as int, i as int);
        }
        assert(all[i as int] == tasks@[i as int]@);
        if tasks[i].pinned_day() == Some(day as u32) {
            match best {
                Some(p) => {
                    if !(tasks[p].estimated_minutes > tasks[i].estimated_minutes) {
                        best = Some(i);
                    }
                },
                None => {
                    best = Some(i);
                },
            }
        }
        i += 1;
    }
    proof {
        lemma_largest_pinned_bounds(all, day as int, tasks@.len() as int);
    }
    best
}

fn first_room_exec(load: &Vec<u32>, from: usize, to: usize, minutes: u32, tolerated: u32) -> (found: Option<usize>)
    requires
        to <= load.len(),
    ensures
        found is None <==> first_room(load@, from as int, to as int, minutes, tolerated as int) is None,
        found matches Some(t) ==> from <= t < to && first_room(load@, from as int, to as int, minutes, tolerated as int) == Some(t as int),
{
    let mut t = from;
    while t < to
        invariant
            from <= t,
            to <= load.len(),
            first_room(load@, from as int, to as int, minutes, tolerated as int) == first_room(load@, t as int, to as int, minutes, tolerated as int),
        decreases to - t,
    {
        if sat_add_u32(load[t], minutes) <= tolerated {
            return Some(t);
        }
        t += 1;
    }
    None
}

proof fn lemma_first_room_bounds(load: Seq<u32>, from: int, to: int, minutes: u32, tolerated: int)
    ensures
        first_room(load, from, to, minutes, tolerated) matches Some(t) ==> from <= t < to,
    decreases to - from,
{
    if from < to {
        lemma_first_room_bounds(load, from + 1, to, minutes, tolerated);
    }
}

proof fn lemma_largest_pinned_bounds(tasks: Seq<GeneratedTaskView>, day: int, upto: int)
    ensures
        largest_pinned(tasks, day, upto) matches Some(j) ==> 0 <= j < upto,
    decreases upto,
{
    if upto > 0 {
        lemma_largest_pinned_bounds(tasks, day, upto - 1);
    }
}

proof fn lemma_relief_bounds(tasks: Seq<GeneratedTaskView>, load: Seq<u32>, day: int, duration: int, tolerated: int)
    requires
        0 <= day,
    ensures
        relief(tasks, load, day, duration, tolerated) matches Some((d, i, t)) ==> day <= d < t < duration && 0 <= i < tasks.len(),
    decreases duration - day,
{
    if day < duration {
        lemma_largest_pinned_bounds(tasks, day, tasks.len() as int);
        match largest_pinned(tasks, day, tasks.len() as int) {
            Some(index) => lemma_first_room_bounds(load, day + 1, duration, tasks[index].estimated_minutes as u32, tolerated),
            None => {},
        }
        lemma_relief_bounds(tasks, load, day + 1, duration, tolerated);
    }
}

fn find_relief(tasks: &Vec<GeneratedTask>, load: &Vec<u32>, duration: usize, tolerated: u32) -> (found: Option<(usize, usize, usize)>)
    requires
        duration == load.len(),
        duration <= MAX_DURATION_DAYS,
    ensures
        found == opt_triple(relief(views(tasks@), load@, 0, duration as int, tolerated as int)),
{
    let ghost all = views(tasks@);
    assert(all.len() == tasks@.len());
    let mut day: usize = 0;
    while day < duration
        invariant
            day <= duration,
            duration == load.len(),
            duration <= MAX_DURATION_DAYS,
            all == views(tasks@),
            all.len() == tasks@.len(),
            relief(all, load@, 0, duration as int, tolerated as int) == relief(all, load@, day as int, duration as int, tolerated as int),
        decreases duration - day,
    {
        let ghost here_day = day as int;
        if load[day] > tolerated {
            match largest_pinned_on(tasks, day) {
                Some(index) => {
                    assert(all[index as int] == tasks@[index as int]@);
                    match first_room_exec(load, day + 1, duration, tasks[index].estimated_minutes as u32, tolerated) {
                        Some(target) => {
                            return Some((day, index, target));
                        },
                        None => {},
                    }
                },
                None => {},
            }
        }
        day += 1;
    }
    None
}

/// Whether some day is over the ceiling, and whether some overloaded day
/// holds a pinned task.
fn overload(tasks: &Vec<GeneratedTask>, load: &Vec<u32>, duration: usize, tolerated: u32) -> (result: (bool, bool))
    requires
        duration == load.len(),
        duration <= MAX_DURATION_DAYS,
    ensures
        result.0 == exists|d: int| 0 <= d < duration && load@[d] > tolerated,
        result.1 == exists|d: int|
            0 <= d < duration && load@[d] > tolerated && #[trigger] largest_pinned(views(tasks@), d, tasks@.len() as int) is Some,
{
    let mut any_over = false;
    let mut movable = false;
    let mut day: usize = 0;
    while day < duration
        invariant
            day <= duration,
            duration == load.len(),
            duration <= MAX_DURATION_DAYS,
            any_over == exists|d: int| 0 <= d < day && load@[d] > tolerated,
            movable == exists|d: int|
                0 <= d < day && load@[d] > tolerated && #[trigger] largest_pinned(views(tasks@), d, tasks@.len() as int) is Some,
        decreases duration - day,
    {
        if load[day] > tolerated {
            any_over = true;
            if largest_pinned_on(tasks, day).is_some() {
                movable = true;
            }
        }
        day += 1;
    }
    (any_over, movable)
}


/// Enforce the intensity cap against a generated task list.
///
/// `duration_days` is at most 730, the longest program there is, and a long
/// pinned task's parts must stay on representable days.
pub fn calibrate(tasks: Vec<GeneratedTask>, duration_days: u16, intensity: Intensity) -> (result: Calibration)
    requires
        duration_days <= MAX_DURATION_DAYS,
        split_fits(views(tasks@)),
    ensures
        result@ == spec_calibrate(views(tasks@), duration_days as int, intensity),
{
    let mut warnings: Vec<Warning> = Vec::new();
    let original: u16 = if duration_days < 1 { 1 } else { duration_days };
    let mut duration: u16 = original;
    let tolerated: u32 = intensity.tolerated_minutes() as u32;
    let stretched: u32 = original as u32 * 3 / 2;
    let max_duration: u16 = if stretched > MAX_DURATION_DAYS as u32 { MAX_DURATION_DAYS } else { stretched as u16 };
    assert(max_duration == spec_max_duration(original as int));
    let ghost input = views(tasks@);
    let mut tasks = split_long_pinned_tasks(&tasks, &mut warnings);
    assert(warnings@ == spec_split(input).1);
    let budget: usize = match tasks.len().checked_mul(max_duration as usize) {
        Some(product) => product.saturating_add(64),
        None => usize::MAX,
    };
    assert(budget == spec_budget(views(tasks@).len() as int, max_duration as int));
    let ghost tol = tolerated as int;
    let ghost target = spec_iterate(
        CalState { tasks: views(tasks@), duration: original as int, warnings: warnings@ },
        tol,
        max_duration as int,
        budget as nat,
    );
    let mut fuel: usize = budget;
    while fuel > 0
        invariant
            original <= duration <= max_duration <= MAX_DURATION_DAYS,
            tol == tolerated as int,
            target == spec_iterate(
                CalState { tasks: views(tasks@), duration: duration as int, warnings: warnings@ },
                tol,
                max_duration as int,
                fuel as nat,
            ),
        decreases fuel,
    {
        let ghost st = CalState { tasks: views(tasks@), duration: duration as int, warnings: warnings@ };
        let load = project(tasks.as_slice(), duration);
        let (any_over, movable) = overload(&tasks, &load, duration as usize, tolerated);
        if !any_over || !movable {
            assert(spec_round(st, tol, max_duration as int) is None);
            fuel = 0;
        } else {
            match find_relief(&tasks, &load, duration as usize, tolerated) {
                Some((day, index, target_day)) => {
                    proof {
                        lemma_relief_bounds(views(tasks@), load@, 0, duration as int, tol);
                        let r = relief(st.tasks, load@, 0, duration as int, tol);
                        assert(opt_triple(r) == Some((day, index, target_day)));
                        assert(r is Some);
                        let (d, i, t) = r->0;
                        assert(0 <= d && 0 <= i && 0 <= t && d < duration && t < duration && i < tasks@.len());
                        assert(tasks@.len() == tasks.len());
                        assert(i <= usize::MAX);
                        assert(d as usize == day && i as usize == index && t as usize == target_day);
                        assert(d == day as int);
                        assert(i == index as int);
                        assert(t == target_day as int);
                        assert(r == Some((d, i, t)));
                    }
                    let mut moved = tasks[index].duplicate();
                    moved.cadence = Cadence::Once { day_offset: target_day as u32 };
                    let ghost before = tasks@;
                    tasks.set(index, moved);
                    assert(views(tasks@) =~= views(before).update(
                        index as int,
                        GeneratedTaskView { cadence: CadenceView::Once { day_offset: target_day as u32 }, ..views(before)[index as int] },
                    ));
                    let task_index = #[verifier::truncate] (index as u16);
                    warnings.push(Warning::TaskMoved { task_index, from_day: day as u16, to_day: target_day as u16 });
                    assert(relief(st.tasks, load@, 0, duration as int, tol) == Some((day as int, index as int, target_day as int)));
                    assert(spec_round(st, tol, max_duration as int) == Some(
                        CalState { tasks: views(tasks@), duration: duration as int, warnings: warnings@ },
                    ));
                    fuel -= 1;
                },
                None => {
                    assert(relief(st.tasks, load@, 0, duration as int, tol) is None);
                    if duration < max_duration {
                        assert(spec_round(st, tol, max_duration as int) == Some(
                            CalState { tasks: views(tasks@), duration: duration + 1, warnings: warnings@ },
                        ));
                        duration += 1;
                        fuel -= 1;
                    } else {
                        fuel = 0;
                    }
                },
            }
        }
    }
    if duration != original {
        warnings.push(Warning::DurationExtended { from_days: original, to_days: duration });
    }
    let projected = project(tasks.as_slice(), duration);
    let cap = intensity.daily_cap_minutes();
    let ghost closing = warnings@;
    let mut index: usize = 0;
    while index < projected.len()
        invariant
            index <= projected.len(),
            projected@.len() == duration,
            duration <= MAX_DURATION_DAYS,
            warnings@ == closing + spec_report(projected@, tolerated as int, cap, index as int),
        decreases projected.len() - index,
    {
        let minutes = projected[index];
        if minutes > tolerated {
            let shown: u16 = if minutes > u16::MAX as u32 { u16::MAX } else { minutes as u16 };
            warnings.push(Warning::DayOverCapacity { day_index: index as u16, projected_minutes: shown, cap_minutes: cap });
        } else if minutes == 0 {
            warnings.push(Warning::EmptyDay { day_index: index as u16 });
        }
        index += 1;
    }
    Calibration { duration_days: duration, tasks, warnings, projected_minutes: projected }
}


/// Whether a warning reports day `day` as over capacity.
pub open spec fn reports_over_capacity(warning: Warning, day: int) -> bool {
    match warning {
        Warning::DayOverCapacity { day_index, .. } => day_index == day as u16,
        _ => false,
    }
}

/// The total estimated minutes of a task list.
pub open spec fn total_minutes(tasks: Seq<GeneratedTaskView>) -> int
    decreases tasks.len(),
{
    if tasks.len() == 0 {
        0
    } else {
        total_minutes(tasks.drop_last()) + tasks.last().estimated_minutes as int
    }
}

proof fn lemma_total_concat(a: Seq<GeneratedTaskView>, b: Seq<GeneratedTaskView>)
    ensures
        total_minutes(a + b) == total_minutes(a) + total_minutes(b),
    decreases b.len(),
{
    if b.len() == 0 {
        assert(a + b == a);
    } else {
        lemma_total_concat(a, b.drop_last());
        assert((a + b).drop_last() == a + b.drop_last());
    }
}

proof fn lemma_total_update(tasks: Seq<GeneratedTaskView>, i: int, task: GeneratedTaskView)
    requires
        0 <= i < tasks.len(),
        task.estimated_minutes == tasks[i].estimated_minutes,
    ensures
        total_minutes(tasks.update(i, task)) == total_minutes(tasks),
    decreases tasks.len(),
{
    if i < tasks.len() - 1 {
        lemma_total_update(tasks.drop_last(), i, task);
        assert(tasks.update(i, task).drop_last() == tasks.drop_last().update(i, task));
    } else {
        assert(tasks.update(i, task).drop_last() == tasks.drop_last());
    }
}

proof fn lemma_split_task_total(task: GeneratedTaskView)
    requires
        needs_split(task),
    ensures
        total_minutes(split_task(task)) == task.estimated_minutes,
{
    let total = task.estimated_minutes as int;
    let parts = parts_for(total);
    let pieces = split_task(task);
    assert(1 <= parts && total / parts <= 45) by (nonlinear_arith)
        requires
            total > 45,
            parts == (total + 44) / 45,
    ;
    let base = total / parts;
    let rem = total % parts;
    assert forall|k: int| 0 <= k <= parts implies #[trigger] total_minutes(pieces.take(k)) == k * base + (if k < rem { k } else { rem }) by {
        lemma_prefix_total(task, k);
    }
    assert(pieces.take(parts) == pieces);
    vstd::arithmetic::div_mod::lemma_fundamental_div_mod(total, parts);
    assert(parts * base + rem == total);
    assert(rem < parts);
}

proof fn lemma_prefix_total(task: GeneratedTaskView, k: int)
    requires
        needs_split(task),
        0 <= k <= parts_for(task.estimated_minutes as int),
    ensures
        ({
            let total = task.estimated_minutes as int;
            let parts = parts_for(total);
            total_minutes(split_task(task).take(k)) == k * (total / parts) + (if k < total % parts { k } else { total % parts })
        }),
    decreases k,
{
    let total = task.estimated_minutes as int;
    let parts = parts_for(total);
    assert(1 <= parts && total / parts <= 45) by (nonlinear_arith)
        requires
            total > 45,
            parts == (total + 44) / 45,
    ;
    if k > 0 {
        lemma_prefix_total(task, k - 1);
        let pieces = split_task(task);
        assert(pieces.take(k).drop_last() == pieces.take(k - 1));
        assert(pieces.take(k).last() == pieces[k - 1]);
        assert(k * (total / parts) == (k - 1) * (total / parts) + total / parts) by (nonlinear_arith);
        let rem = total % parts;
        assert(0 <= rem < parts);
        let pm = part_minutes(total, parts, k - 1);
        assert(0 <= pm <= 46);
        assert(pieces[k - 1].estimated_minutes as int == pm);
        assert(total_minutes(pieces.take(k)) == total_minutes(pieces.take(k - 1)) + pm);
        if k - 1 < rem {
            assert(pm == total / parts + 1);
        } else {
            assert(pm == total / parts);
        }
    } else {
        assert(split_task(task).take(k).len() == 0);
        assert(k * (total / parts) == 0) by (nonlinear_arith)
            requires
                k == 0,
        ;
    }
}

proof fn lemma_split_total(tasks: Seq<GeneratedTaskView>)
    ensures
        total_minutes(spec_split(tasks).0) == total_minutes(tasks),
    decreases tasks.len(),
{
    if tasks.len() > 0 {
        lemma_split_total(tasks.drop_last());
        let out = spec_split(tasks.drop_last()).0;
        let task = tasks.last();
        if needs_split(task) {
            lemma_total_concat(out, split_task(task));
            lemma_split_task_total(task);
        } else {
            assert(out.push(task).drop_last() == out);
        }
    }
}

proof fn lemma_iterate(st: CalState, tolerated: int, max_duration: int, fuel: nat)
    requires
        1 <= st.duration <= max_duration,
    ensures
        total_minutes(spec_iterate(st, tolerated, max_duration, fuel).tasks) == total_minutes(st.tasks),
        st.duration <= spec_iterate(st, tolerated, max_duration, fuel).duration <= max_duration,
    decreases fuel,
{
    if fuel > 0 {
        match spec_round(st, tolerated, max_duration) {
            None => {},
            Some(next) => {
                let load = spec_project(st.tasks, st.duration as nat);
                match relief(st.tasks, load, 0, st.duration, tolerated) {
                    Some((day, index, target)) => {
                        lemma_relief_bounds(st.tasks, load, 0, st.duration, tolerated);
                        lemma_total_update(
                            st.tasks,
                            index,
                            GeneratedTaskView { cadence: CadenceView::Once { day_offset: target as u32 }, ..st.tasks[index] },
                        );
                    },
                    None => {},
                }
                lemma_iterate(next, tolerated, max_duration, (fuel - 1) as nat);
            },
        }
    }
}

proof fn lemma_report(projected: Seq<u32>, tolerated: int, cap: u16, k: int, i: int)
    requires
        0 <= i < k <= projected.len(),
        projected[i] > tolerated,
    ensures
        exists|w: int| 0 <= w < spec_report(projected, tolerated, cap, k).len() && reports_over_capacity(#[trigger] spec_report(projected, tolerated, cap, k)[w], i),
    decreases k,
{
    let report = spec_report(projected, tolerated, cap, k);
    if i == k - 1 {
        let w = report.len() - 1;
        assert(reports_over_capacity(report[w], i));
    } else {
        lemma_report(projected, tolerated, cap, k - 1, i);
        let prev = spec_report(projected, tolerated, cap, k - 1);
        let w = choose|w: int| 0 <= w < prev.len() && reports_over_capacity(#[trigger] prev[w], i);
        assert(report[w] == prev[w]);
    }
}

/// What calibration keeps, whatever it is given: not a minute of work is
/// dropped; the duration is never shortened and never stretched past one and
/// a half times the original (nor past the longest program there is); the
/// projection covers exactly the resulting duration; and every day still over
/// the tolerated ceiling is reported.
pub proof fn lemma_calibration_laws(tasks: Seq<GeneratedTaskView>, duration_days: int, intensity: Intensity)
    requires
        0 <= duration_days <= MAX_DURATION_DAYS,
    ensures
        ({
            let result = spec_calibrate(tasks, duration_days, intensity);
            let original = if duration_days < 1 { 1 } else { duration_days };
            let tolerated = (spec_daily_cap(intensity) * 12 / 10) as int;
            &&& total_minutes(result.tasks) == total_minutes(tasks)
            &&& original <= result.duration_days <= spec_max_duration(original)
            &&& result.duration_days <= MAX_DURATION_DAYS
            &&& result.projected_minutes.len() == result.duration_days
            &&& forall|i: int| 0 <= i < result.projected_minutes.len() && #[trigger] result.projected_minutes[i] > tolerated ==> exists|w: int|
                0 <= w < result.warnings.len() && reports_over_capacity(#[trigger] result.warnings[w], i)
        }),
{
    let original = if duration_days < 1 { 1 } else { duration_days };
    let tolerated = (spec_daily_cap(intensity) * 12 / 10) as int;
    let max_duration = spec_max_duration(original);
    let (split, split_warnings) = spec_split(tasks);
    let init = CalState { tasks: split, duration: original, warnings: split_warnings };
    let fuel = spec_budget(split.len() as int, max_duration);
    lemma_split_total(tasks);
    lemma_iterate(init, tolerated, max_duration, fuel);
    let st = spec_iterate(init, tolerated, max_duration, fuel);
    lemma_project_len(st.tasks, st.duration as nat);
    let result = spec_calibrate(tasks, duration_days, intensity);
    let warnings = if st.duration != original {
        st.warnings.push(Warning::DurationExtended { from_days: original as u16, to_days: st.duration as u16 })
    } else {
        st.warnings
    };
    let projected = spec_project(st.tasks, st.duration as nat);
    let report = spec_report(projected, tolerated, spec_daily_cap(intensity), projected.len() as int);
    assert forall|i: int| 0 <= i < result.projected_minutes.len() && #[trigger] result.projected_minutes[i] > tolerated implies exists|w: int|
        0 <= w < result.warnings.len() && reports_over_capacity(#[trigger] result.warnings[w], i) by {
        lemma_report(projected, tolerated, spec_daily_cap(intensity), projected.len() as int, i);
        let w = choose|w: int| 0 <= w < report.len() && reports_over_capacity(#[trigger] report[w], i);
        assert(result.warnings[warnings.len() + w] == report[w]);
    }
}

proof fn lemma_split_nothing(tasks: Seq<GeneratedTaskView>)
    requires
        forall|i: int| 0 <= i < tasks.len() ==> !needs_split(#[trigger] tasks[i]),
    ensures
        spec_split(tasks) == (tasks, Seq::<Warning>::empty()),
    decreases tasks.len(),
{
    if tasks.len() > 0 {
        assert forall|i: int| 0 <= i < tasks.drop_last().len() implies !needs_split(#[trigger] tasks.drop_last()[i]) by {
            assert(tasks.drop_last()[i] == tasks[i]);
        }
        lemma_split_nothing(tasks.drop_last());
        assert(!needs_split(tasks[tasks.len() - 1]));
        assert(tasks.drop_last().push(tasks.last()) == tasks);
    }
}

/// A program already within budget is left alone: when no pinned task needs
/// splitting and no projected day is over the tolerated ceiling, the tasks and
/// the duration come back unchanged.
pub proof fn lemma_within_budget_untouched(tasks: Seq<GeneratedTaskView>, duration_days: int, intensity: Intensity)
    requires
        1 <= duration_days <= MAX_DURATION_DAYS,
        forall|i: int| 0 <= i < tasks.len() ==> !needs_split(#[trigger] tasks[i]),
        forall|d: int|
            0 <= d < duration_days ==> #[trigger] spec_project(tasks, duration_days as nat)[d] <= spec_daily_cap(intensity) * 12 / 10,
    ensures
        spec_calibrate(tasks, duration_days, intensity).tasks == tasks,
        spec_calibrate(tasks, duration_days, intensity).duration_days == duration_days,
{
    lemma_split_nothing(tasks);
    let tolerated = (spec_daily_cap(intensity) * 12 / 10) as int;
    let st = CalState { tasks: tasks, duration: duration_days, warnings: Seq::<Warning>::empty() };
    assert(spec_round(st, tolerated, spec_max_duration(duration_days)) is None);
}

} // verus!
