//! Scaling a lapsed program down: which tasks go, how long the new run is,
//! and how the new program describes itself.
use vstd::prelude::*;
use crate::order::{insert_sorted, lemma_insert_at, lemma_sort_by_contains, lemma_sort_by_multiset, sort_by};
use crate::text::{append, chars_lt, chars_of, push_decimal_u64, decimal, seq_lt};
use crate::time::LocalDate;

verus! {

/// Why a program cannot be scaled down.
#[derive(Clone, Copy, Debug, PartialEq, Eq, Structural)]
pub enum ScaleDownError {
    /// A standing program has no duration to scale.
    StandingProgram,
    /// With one task or none there is nothing to drop.
    NoRemovableTasks,
}

impl ScaleDownError {
    pub fn message(&self) -> (text: &'static str)
        ensures
            text@ == (match *self {
                ScaleDownError::StandingProgram => "standing programs cannot be scaled down"@,
                ScaleDownError::NoRemovableTasks => "program has no removable tasks"@,
            }),
    {
        match self {
            ScaleDownError::StandingProgram => "standing programs cannot be scaled down",
            ScaleDownError::NoRemovableTasks => "program has no removable tasks",
        }
    }
}

/// The program being scaled down, as stored.
#[derive(Clone, Debug, PartialEq, Eq)]
pub struct ProgramForScaleDown {
    pub title: String,
    pub summary: Option<String>,
    pub kind: String,
    pub duration_days: Option<i32>,
    pub intensity: Option<String>,
}

/// An active task template, identified by its id's 128-bit value.
#[derive(Clone, Debug, PartialEq, Eq)]
pub struct TemplateForScaleDown {
    pub id: u128,
    pub title: String,
}

/// How often a template's instances were completed.
#[derive(Clone, Copy, Debug, PartialEq, Eq, Structural)]
pub struct TemplatePerformance {
    pub template_id: u128,
    pub available_count: Option<i64>,
    pub completed_count: Option<i64>,
}

/// How many of `active` templates are dropped: a quarter, at least one,
/// and never all of them.
pub open spec fn spec_drop_count(active: int) -> int {
    let quarter = active / 4;
    let at_least_one = if quarter < 1 { 1 } else { quarter };
    if at_least_one > active - 1 { active - 1 } else { at_least_one }
}

pub fn drop_count(active: usize) -> (count: Result<usize, ScaleDownError>)
    ensures
        active <= 1 ==> count == Err::<usize, ScaleDownError>(ScaleDownError::NoRemovableTasks),
        active > 1 ==> count == Ok::<usize, ScaleDownError>(spec_drop_count(active as int) as usize),
{
    if active <= 1 {
        return Err(ScaleDownError::NoRemovableTasks);
    }
    let quarter = active / 4;
    let at_least_one = if quarter < 1 { 1 } else { quarter };
    Ok(if at_least_one > active - 1 { active - 1 } else { at_least_one })
}

/// The first performance row for a template.
pub open spec fn find_perf(perf: Seq<TemplatePerformance>, id: u128) -> Option<TemplatePerformance>
    decreases perf.len(),
{
    if perf.len() == 0 {
        None
    } else if perf[0].template_id == id {
        Some(perf[0])
    } else {
        find_perf(perf.drop_first(), id)
    }
}

/// What a template is ranked by.
pub struct RankKey {
    pub id: u128,
    pub available: i64,
    pub completed: i64,
    pub title: Seq<char>,
}

pub open spec fn rank_key(t: TemplateForScaleDown, perf: Seq<TemplatePerformance>) -> RankKey {
    let p = find_perf(perf, t.id);
    RankKey {
        id: t.id,
        available: match p {
            Some(x) => match x.available_count {
                Some(v) => v,
                None => 0,
            },
            None => 0,
        },
        completed: match p {
            Some(x) => match x.completed_count {
                Some(v) => v,
                None => 0,
            },
            None => 0,
        },
        title: t.title@,
    }
}

/// The completion rate as a fraction: completed over available, or one
/// when nothing was ever available.
pub open spec fn rate_num(k: RankKey) -> int {
    if k.available <= 0 { 1 } else { k.completed as int }
}

pub open spec fn rate_den(k: RankKey) -> int {
    if k.available <= 0 { 1 } else { k.available as int }
}

/// Whether `x` ranks strictly worse than `y`: a lower completion rate, then
/// more available instances, then the title.
pub open spec fn rank_lt(x: RankKey, y: RankKey) -> bool {
    let l = rate_num(x) * rate_den(y);
    let r = rate_num(y) * rate_den(x);
    l < r || (l == r && (x.available > y.available || (x.available == y.available && seq_lt(x.title, y.title))))
}

pub open spec fn rank_le() -> spec_fn(RankKey, RankKey) -> bool {
    |a: RankKey, b: RankKey| !rank_lt(b, a)
}

pub open spec fn rank_keys(templates: Seq<TemplateForScaleDown>, perf: Seq<TemplatePerformance>) -> Seq<RankKey> {
    Seq::new(templates.len(), |i: int| rank_key(templates[i], perf))
}

/// A count small enough for rates to be told apart. Rates are compared as
/// double-precision quotients; while every count lies within this bound in
/// magnitude, two different fractions `completed / available` never round to
/// the same double, so the quotients order exactly as the fractions do.
/// Beyond it, two rates closer than a double can resolve compare equal and the
/// tie-breaks decide between them.
pub const RATE_EXACT_COUNT: i64 = 33554432;

pub open spec fn count_small(count: Option<i64>) -> bool {
    match count {
        Some(v) => -RATE_EXACT_COUNT <= v <= RATE_EXACT_COUNT,
        None => true,
    }
}

/// Every count in `perf` is within `RATE_EXACT_COUNT` in magnitude.
pub open spec fn counts_exact(perf: Seq<TemplatePerformance>) -> bool {
    forall|i: int| 0 <= i < perf.len() ==> count_small((#[trigger] perf[i]).available_count) && count_small(
        perf[i].completed_count,
    )
}

/// What any ranking of the templates yields as its `count` worst: as many ids
/// as asked for, or all of them when fewer exist, each the id of a template.
pub open spec fn some_templates(templates: Seq<TemplateForScaleDown>, count: int, ids: Seq<u128>) -> bool {
    &&& ids.len() == (if count < templates.len() { count } else { templates.len() as int })
    &&& forall|k: int| 0 <= k < ids.len() ==> exists|j: int| 0 <= j < templates.len() && (#[trigger] templates[j]).id
        == #[trigger] ids[k]
}

/// The ids of the `count` worst-performing templates, worst first; ties keep
/// the templates' order.
pub open spec fn spec_worst(templates: Seq<TemplateForScaleDown>, perf: Seq<TemplatePerformance>, count: int) -> Seq<u128> {
    let sorted = sort_by(rank_keys(templates, perf), rank_le());
    let n = if count < sorted.len() { count } else { sorted.len() as int };
    sorted.take(n).map_values(|k: RankKey| k.id)
}

struct ExecKey {
    id: u128,
    available: i64,
    completed: i64,
    title: Vec<char>,
}

impl ExecKey {
    spec fn key(&self) -> RankKey {
        RankKey { id: self.id, available: self.available, completed: self.completed, title: self.title@ }
    }
}

spec fn key_views(v: Seq<ExecKey>) -> Seq<RankKey> {
    v.map_values(|k: ExecKey| k.key())
}

proof fn lemma_product_fits(n: int, d: int)
    requires
        -0x8000_0000_0000_0000 <= n <= 0x7fff_ffff_ffff_ffff,
        1 <= d <= 0x7fff_ffff_ffff_ffff,
    ensures
        i128::MIN <= n * d <= i128::MAX,
{
    assert(-0x8000_0000_0000_0000 * 0x7fff_ffff_ffff_ffff <= n * d <= 0x7fff_ffff_ffff_ffff * 0x7fff_ffff_ffff_ffff)
        by (nonlinear_arith)
        requires
            -0x8000_0000_0000_0000 <= n <= 0x7fff_ffff_ffff_ffff,
            1 <= d <= 0x7fff_ffff_ffff_ffff,
    ;
}

fn rank_lt_exec(x: &ExecKey, y: &ExecKey) -> (lt: bool)
    ensures
        lt == rank_lt(x.key(), y.key()),
{
    let xn: i128 = if x.available <= 0 { 1 } else { x.completed as i128 };
    let xd: i128 = if x.available <= 0 { 1 } else { x.available as i128 };
    let yn: i128 = if y.available <= 0 { 1 } else { y.completed as i128 };
    let yd: i128 = if y.available <= 0 { 1 } else { y.available as i128 };
    proof {
        lemma_product_fits(xn as int, yd as int);
        lemma_product_fits(yn as int, xd as int);
    }
    let l = xn * yd;
    let r = yn * xd;
    l < r || (l == r && (x.available > y.available || (x.available == y.available && chars_lt(
        x.title.as_slice(),
        y.title.as_slice(),
    ))))
}

fn insert_ranked(v: &mut Vec<ExecKey>, x: ExecKey)
    ensures
        key_views(final(v)@) == insert_sorted(key_views(old(v)@), x.key(), rank_le()),
{
    let ghost le = rank_le();
    let ghost s = key_views(v@);
    let mut pos = v.len();
    let mut done = false;
    while pos > 0 && !done
        invariant
            pos <= v.len(),
            le == rank_le(),
            s == key_views(v@),
            forall|j: int| pos <= j < v.len() ==> !le(#[trigger] s[j], x.key()),
            done ==> pos > 0 && le(s[pos - 1], x.key()),
        decreases pos + if done { 0int } else { 1int },
    {
        if !rank_lt_exec(&x, &v[pos - 1]) {
            done = true;
        } else {
            pos -= 1;
        }
    }
    proof {
        lemma_insert_at(s, x.key(), le, pos as int);
    }
    let ghost xk = x.key();
    v.insert(pos, x);
    assert(key_views(v@) =~= s.take(pos as int) + seq![xk] + s.skip(pos as int));
}

/// `spec_worst` is some choice of the templates.
proof fn lemma_worst_is_some_templates(templates: Seq<TemplateForScaleDown>, perf: Seq<TemplatePerformance>, count: int)
    requires
        count >= 0,
    ensures
        some_templates(templates, count, spec_worst(templates, perf, count)),
{
    let keys = rank_keys(templates, perf);
    let sorted = sort_by(keys, rank_le());
    lemma_sort_by_multiset(keys, rank_le());
    let ids = spec_worst(templates, perf, count);
    assert forall|k: int| 0 <= k < ids.len() implies exists|j: int| 0 <= j < templates.len() && (#[trigger] templates[
        j]).id == #[trigger] ids[k] by {
        let y = sorted[k];
        assert(sorted.contains(y));
        lemma_sort_by_contains(keys, rank_le(), y);
        let j = choose|j: int| 0 <= j < keys.len() && keys[j] == y;
        assert(templates[j].id == ids[k]);
    }
}

/// The ids of the `count` worst-performing templates, worst first: exactly
/// `spec_worst` while the counts are within `RATE_EXACT_COUNT`, and always
/// as many template ids as asked for.
pub fn worst_template_ids(templates: &[TemplateForScaleDown], performance: &[TemplatePerformance], count: usize) -> (ids: Vec<u128>)
    ensures
        counts_exact(performance@) ==> ids@ == spec_worst(templates@, performance@, count as int),
        some_templates(templates@, count as int, ids@),
{
    proof {
        lemma_worst_is_some_templates(templates@, performance@, count as int);
    }
    let ghost keys = rank_keys(templates@, performance@);
    let mut ranked: Vec<ExecKey> = Vec::new();
    let mut i: usize = 0;
    while i < templates.len()
        invariant
            i <= templates@.len(),
            keys == rank_keys(templates@, performance@),
            key_views(ranked@) == sort_by(keys.take(i as int), rank_le()),
        decreases templates.len() - i,
    {
        let t = &templates[i];
        let mut available: i64 = 0;
        let mut completed: i64 = 0;
        let mut j: usize = 0;
        let ghost p = performance@;
        assert(p.skip(0) == p);
        while j < performance.len()
            invariant
                j <= performance@.len(),
                p == performance@,
                find_perf(p.skip(j as int), t.id) == find_perf(p, t.id),
                available == 0 && completed == 0,
            ensures
                j <= performance@.len(),
                find_perf(p.skip(j as int), t.id) == find_perf(p, t.id),
                j < performance@.len() ==> performance@[j as int].template_id == t.id,
            decreases performance.len() - j,
        {
            assert(p.skip(j as int)[0] == performance@[j as int]);
            assert(p.skip(j as int).drop_first() == p.skip(j + 1));
            if performance[j].template_id == t.id {
                break;
            }
            j += 1;
        }
        if j < performance.len() {
            assert(p.skip(j as int)[0] == performance@[j as int]);
            available = match performance[j].available_count {
                Some(v) => v,
                None => 0,
            };
            completed = match performance[j].completed_count {
                Some(v) => v,
                None => 0,
            };
        } else {
            assert(p.skip(j as int).len() == 0);
        }
        let key = ExecKey { id: t.id, available, completed, title: chars_of(t.title.as_str()) };
        assert(key.key() == keys[i as int]);
        assert(keys.take(i + 1).drop_last() == keys.take(i as int));
        insert_ranked(&mut ranked, key);
        i += 1;
    }
    assert(keys.take(templates@.len() as int) == keys);
    let n = if count < ranked.len() { count } else { ranked.len() };
    let mut ids: Vec<u128> = Vec::new();
    let mut k: usize = 0;
    while k < n
        invariant
            k <= n <= ranked@.len(),
            ids@ == key_views(ranked@).take(k as int).map_values(|r: RankKey| r.id),
        decreases n - k,
    {
        ids.push(ranked[k].id);
        assert(key_views(ranked@).take(k + 1).map_values(|r: RankKey| r.id) =~= key_views(ranked@).take(
            k as int,
        ).map_values(|r: RankKey| r.id).push(ranked@[k as int].id));
        k += 1;
    }
    ids
}

/// The positions of the templates a scale-down keeps: every template whose id
/// was not dropped, in their order.
pub open spec fn spec_kept(templates: Seq<TemplateForScaleDown>, dropped: Seq<u128>) -> Seq<usize>
    decreases templates.len(),
{
    if templates.len() == 0 {
        Seq::<usize>::empty()
    } else {
        let prev = spec_kept(templates.drop_last(), dropped);
        if dropped.contains(templates.last().id) {
            prev
        } else {
            prev.push((templates.len() - 1) as usize)
        }
    }
}

fn contains_id(ids: &Vec<u128>, id: u128) -> (found: bool)
    ensures
        found == ids@.contains(id),
{
    let mut i: usize = 0;
    while i < ids.len()
        invariant
            i <= ids@.len(),
            forall|j: int| 0 <= j < i ==> ids@[j] != id,
        decreases ids.len() - i,
    {
        if ids[i] == id {
            return true;
        }
        i += 1;
    }
    false
}

/// What a scale-down does to a program's active templates.
#[derive(Clone, Debug, PartialEq, Eq)]
pub struct ScaleDownPlan {
    /// How many templates are dropped.
    pub drop_count: usize,
    /// The dropped templates' ids, worst first.
    pub dropped: Vec<u128>,
    /// The positions, in `templates`, of the templates that stay, in order.
    pub kept: Vec<usize>,
}

/// Decide a scale-down: a quarter of the templates, at least one and never
/// all, go, the worst performers first, and the rest stay in their order.
/// With one template or none there is nothing to drop.
pub fn plan_scale_down(templates: &[TemplateForScaleDown], performance: &[TemplatePerformance]) -> (plan: Result<
    ScaleDownPlan,
    ScaleDownError,
>)
    ensures
        templates@.len() <= 1 ==> plan == Err::<ScaleDownPlan, ScaleDownError>(ScaleDownError::NoRemovableTasks),
        templates@.len() > 1 ==> (plan matches Ok(p) && p.drop_count == spec_drop_count(templates@.len() as int)
            && (counts_exact(performance@) ==> p.dropped@ == spec_worst(templates@, performance@, p.drop_count as int))
            && some_templates(templates@, p.drop_count as int, p.dropped@) && p.kept@ == spec_kept(
            templates@,
            p.dropped@,
        )),
{
    let count = match drop_count(templates.len()) {
        Ok(c) => c,
        Err(e) => {
            return Err(e);
        },
    };
    let dropped = worst_template_ids(templates, performance, count);
    let mut kept: Vec<usize> = Vec::new();
    let mut i: usize = 0;
    while i < templates.len()
        invariant
            i <= templates@.len(),
            kept@ == spec_kept(templates@.take(i as int), dropped@),
        decreases templates.len() - i,
    {
        assert(templates@.take(i + 1).drop_last() == templates@.take(i as int));
        assert(templates@.take(i + 1).last() == templates@[i as int]);
        if !contains_id(&dropped, templates[i].id) {
            kept.push(i);
        }
        i += 1;
    }
    assert(templates@.take(templates@.len() as int) == templates@);
    Ok(ScaleDownPlan { drop_count: count, dropped, kept })
}

/// The length of the scaled-down run: what was left of the original, at
/// least one day and at most the original duration.
pub open spec fn spec_scaled_duration(duration: int, original_start: int, new_start: int) -> int {
    let elapsed = if new_start - original_start < 0 { 0 } else { new_start - original_start };
    let remaining = duration - elapsed;
    if remaining < 1 {
        1
    } else if remaining > duration {
        duration
    } else {
        remaining
    }
}

/// How long the scaled-down run lasts. A standing program has no duration and
/// cannot be scaled down.
pub fn scaled_duration_days(original_duration: Option<i32>, original_start: LocalDate, new_start: LocalDate) -> (days: Result<
    i32,
    ScaleDownError,
>)
    requires
        original_duration matches Some(d) ==> d >= 1,
    ensures
        match original_duration {
            None => days == Err::<i32, ScaleDownError>(ScaleDownError::StandingProgram),
            Some(d) => days == Ok::<i32, ScaleDownError>(
                spec_scaled_duration(
                    d as int,
                    original_start.days_from_ce as int,
                    new_start.days_from_ce as int,
                ) as i32,
            ),
        },
{
    let duration = match original_duration {
        Some(d) => d,
        None => {
            return Err(ScaleDownError::StandingProgram);
        },
    };
    let diff: i64 = new_start.days_from_ce as i64 - original_start.days_from_ce as i64;
    let elapsed: i64 = if diff < 0 { 0 } else { diff };
    let remaining: i64 = duration as i64 - elapsed;
    let scaled: i64 = if remaining < 1 {
        1
    } else if remaining > duration as i64 {
        duration as i64
    } else {
        remaining
    };
    Ok(scaled as i32)
}

/// The scaled-down program's summary: the original one, or a stock line,
/// followed by what was dropped and kept.
pub open spec fn spec_scaled_summary(summary: Option<Seq<char>>, dropped: nat, kept: nat) -> Seq<char> {
    let base = match summary {
        Some(s) => s,
        None => "Scaled return plan."@,
    };
    base + " Scaled down after a lapse: dropped "@ + decimal(dropped) + " low-completion task(s), kept "@ + decimal(kept)
        + " task(s)."@
}

pub fn scaled_summary(program: &ProgramForScaleDown, dropped_count: usize, kept_count: usize) -> (summary: Option<String>)
    ensures
        summary matches Some(s) && s@ == spec_scaled_summary(
            match program.summary {
                Some(x) => Some(x@),
                None => None,
            },
            dropped_count as nat,
            kept_count as nat,
        ),
{
    let mut out = String::new();
    match &program.summary {
        Some(s) => append(&mut out, s.as_str()),
        None => append(&mut out, "Scaled return plan."),
    }
    append(&mut out, " Scaled down after a lapse: dropped ");
    push_decimal_u64(&mut out, dropped_count as u64);
    append(&mut out, " low-completion task(s), kept ");
    push_decimal_u64(&mut out, kept_count as u64);
    append(&mut out, " task(s).");
    Some(out)
}

/// A pinned day moved onto the scaled-down run: missing reads as the first
/// day, and nothing lands before the first day or after the last.
pub open spec fn spec_clamped_day_offset(day_offset: Option<i64>, duration_days: i32) -> i64 {
    let max_offset = duration_days - 1;
    let current = match day_offset {
        Some(d) => d as int,
        None => 0,
    };
    (if current < 0 { 0 } else if current > max_offset { max_offset } else { current }) as i64
}

/// The day offset a `once` cadence keeps when its program is shortened to
/// `duration_days`.
pub fn clamped_day_offset(day_offset: Option<i64>, duration_days: i32) -> (offset: i64)
    requires
        duration_days >= 1,
    ensures
        offset == spec_clamped_day_offset(day_offset, duration_days),
{
    let max_offset: i64 = duration_days as i64 - 1;
    let current: i64 = match day_offset {
        Some(d) => d,
        None => 0,
    };
    if current < 0 {
        0
    } else if current > max_offset {
        max_offset
    } else {
        current
    }
}

} // verus!
