//! Which notifications actually get sent.
//!
//! A filter, not a scheduler. Three rules decide whether a candidate survives:
//! never more than three in any twenty-four hours, never inside declared quiet
//! hours, and one notification per kind however many enrollments asked for it.
use vstd::prelude::*;
use crate::order::{
    insert_sorted, lemma_insert_at, lemma_insert_sorted_multiset, lemma_map_values_multiset, lemma_sort_by_contains,
    lemma_sort_by_multiset, lemma_sort_by_sorted, sort_by, sorted_by, total_preorder,
};
use crate::time::{local_clock, local_clock_of, TimeZone};

verus! {

/// Three in twenty-four hours is the ceiling, across every kind.
pub const MAX_PER_24_HOURS: usize = 3;

/// The width of the rolling window the cap applies to, in seconds.
pub const CAP_WINDOW_SECONDS: i64 = 86_400;

#[derive(Clone, Copy, Debug, PartialEq, Eq, Structural, PartialOrd, Ord, Hash)]
pub enum NotificationKind {
    /// The one-off recovery offer; it expires, so it is the most valuable.
    RepairAvailable,
    /// Composed across enrollments.
    StreakAtRisk,
    MorningCard,
    EveningCheckIn,
    StandingDrift,
    /// Aggregate only; the first to be dropped.
    CohortPulse,
}

pub open spec fn spec_priority(kind: NotificationKind) -> u8 {
    match kind {
        NotificationKind::RepairAvailable => 0,
        NotificationKind::StreakAtRisk => 1,
        NotificationKind::MorningCard => 2,
        NotificationKind::EveningCheckIn => 3,
        NotificationKind::StandingDrift => 4,
        NotificationKind::CohortPulse => 5,
    }
}

impl NotificationKind {
    /// Lower sorts first and survives the daily cap: ordered by what the user
    /// loses if it never arrives.
    pub fn priority(self) -> (p: u8)
        ensures
            p == spec_priority(self),
    {
        match self {
            NotificationKind::RepairAvailable => 0,
            NotificationKind::StreakAtRisk => 1,
            NotificationKind::MorningCard => 2,
            NotificationKind::EveningCheckIn => 3,
            NotificationKind::StandingDrift => 4,
            NotificationKind::CohortPulse => 5,
        }
    }
}

/// Distinct kinds have distinct priorities.
pub proof fn lemma_priority_injective(a: NotificationKind, b: NotificationKind)
    ensures
        spec_priority(a) == spec_priority(b) <==> a == b,
{
}

/// A window of local time, in seconds since midnight, during which nothing may
/// be delivered. It wraps midnight when `start` is after `end`.
#[derive(Clone, Copy, Debug, PartialEq, Eq, Structural)]
pub struct QuietHours {
    pub start: u32,
    pub end: u32,
}

impl QuietHours {
    /// Half open: `start` is inside, `end` is not. A zero-width window
    /// silences nothing.
    pub open spec fn spec_contains(self, local: u32) -> bool {
        if self.start == self.end {
            false
        } else if self.start < self.end {
            self.start <= local && local < self.end
        } else {
            local >= self.start || local < self.end
        }
    }

    pub fn contains(&self, local: u32) -> (inside: bool)
        ensures
            inside == self.spec_contains(local),
    {
        if self.start == self.end {
            return false;
        }
        if self.start < self.end {
            local >= self.start && local < self.end
        } else {
            local >= self.start || local < self.end
        }
    }
}

#[derive(Clone, Copy, Debug, PartialEq, Eq, Structural)]
pub struct Candidate {
    pub kind: NotificationKind,
    /// When it would be delivered, in seconds since the Unix epoch.
    pub at: i64,
}

/// Why a candidate did not survive.
#[derive(Clone, Copy, Debug, PartialEq, Eq, Structural)]
pub enum Dropped {
    /// Inside the user's declared quiet hours.
    QuietHours,
    /// Three already land in the same rolling twenty-four hours.
    DailyCapReached,
    /// Another candidate of the same kind already covers this delivery.
    ComposedIntoAnother,
}

#[derive(Clone, Debug, Default, PartialEq, Eq)]
pub struct Plan {
    pub send: Vec<Candidate>,
    pub dropped: Vec<(Candidate, Dropped)>,
}

/// A candidate together with its delivery time on the user's local clock,
/// when that is known.
pub type Timed = (Candidate, Option<u32>);

/// Priority first, then time.
pub open spec fn before_by_priority(a: Timed, b: Timed) -> bool {
    spec_priority(a.0.kind) < spec_priority(b.0.kind) || (spec_priority(a.0.kind) == spec_priority(b.0.kind)
        && a.0.at <= b.0.at)
}

/// Time only.
pub open spec fn before_by_time(a: Candidate, b: Candidate) -> bool {
    a.at <= b.at
}

pub open spec fn priority_order() -> spec_fn(Timed, Timed) -> bool {
    |a: Timed, b: Timed| before_by_priority(a, b)
}

pub open spec fn time_order() -> spec_fn(Candidate, Candidate) -> bool {
    |a: Candidate, b: Candidate| before_by_time(a, b)
}

/// The candidates whose kind is not suppressed, in their original order.
pub open spec fn unsuppressed(items: Seq<Timed>, suppressed: Seq<NotificationKind>) -> Seq<Timed>
    decreases items.len(),
{
    if items.len() == 0 {
        items
    } else {
        let rest = unsuppressed(items.drop_last(), suppressed);
        if suppressed.contains(items.last().0.kind) {
            rest
        } else {
            rest.push(items.last())
        }
    }
}

/// How many of the given instants lie strictly within a day of `at`.
pub open spec fn count_near(times: Seq<i64>, at: i64) -> nat
    decreases times.len(),
{
    if times.len() == 0 {
        0
    } else {
        count_near(times.drop_last(), at) + if -CAP_WINDOW_SECONDS < times.last() - at < CAP_WINDOW_SECONDS {
            1nat
        } else {
            0nat
        }
    }
}

pub open spec fn times_of(send: Seq<Candidate>) -> Seq<i64> {
    send.map_values(|c: Candidate| c.at)
}

/// Whether a candidate is dropped given what has been accepted so far, and
/// why: a kind already accepted composes it away; then quiet hours; then the
/// cap over the delivery history and the accepted candidates.
pub open spec fn spec_decide(
    send: Seq<Candidate>,
    item: Timed,
    quiet: Option<QuietHours>,
    already_sent: Seq<i64>,
) -> Option<Dropped> {
    let (candidate, local) = item;
    if exists|i: int| 0 <= i < send.len() && (#[trigger] send[i]).kind == candidate.kind {
        Some(Dropped::ComposedIntoAnother)
    } else if quiet is Some && local is Some && quiet->0.spec_contains(local->0) {
        Some(Dropped::QuietHours)
    } else if count_near(already_sent + times_of(send), candidate.at) >= MAX_PER_24_HOURS {
        Some(Dropped::DailyCapReached)
    } else {
        None
    }
}

/// Candidates considered in order: each is either accepted or dropped with
/// its reason.
pub open spec fn plan_fold(items: Seq<Timed>, quiet: Option<QuietHours>, already_sent: Seq<i64>) -> (
    Seq<Candidate>,
    Seq<(Candidate, Dropped)>,
)
    decreases items.len(),
{
    if items.len() == 0 {
        (seq![], seq![])
    } else {
        let (send, dropped) = plan_fold(items.drop_last(), quiet, already_sent);
        match spec_decide(send, items.last(), quiet, already_sent) {
            Some(reason) => (send, dropped.push((items.last().0, reason))),
            None => (send.push(items.last().0), dropped),
        }
    }
}

/// The plan: suppressed kinds are removed, the rest are considered by
/// priority then time, and what is sent is listed chronologically.
pub open spec fn spec_plan(
    items: Seq<Timed>,
    quiet: Option<QuietHours>,
    already_sent: Seq<i64>,
    suppressed: Seq<NotificationKind>,
) -> (Seq<Candidate>, Seq<(Candidate, Dropped)>) {
    let ordered = sort_by(unsuppressed(items, suppressed), priority_order());
    let (send, dropped) = plan_fold(ordered, quiet, already_sent);
    (sort_by(send, time_order()), dropped)
}

/// The local time of day at which an instant falls in a zone, if known.
pub open spec fn local_seconds_of(zone: Seq<char>, at: int) -> Option<u32> {
    match local_clock_of(zone, at) {
        Some((_, seconds)) => Some(seconds as u32),
        None => None,
    }
}

fn insert_by_priority(v: &mut Vec<Timed>, x: Timed)
    ensures
        final(v)@ == insert_sorted(old(v)@, x, priority_order()),
{
    let ghost le = priority_order();
    let mut pos = v.len();
    let px = x.0.kind.priority();
    let mut done = false;
    while pos > 0 && !done
        invariant
            pos <= v.len(),
            le == priority_order(),
            px == spec_priority(x.0.kind),
            forall|j: int| pos <= j < v.len() ==> !le(#[trigger] v@[j], x),
            done ==> pos > 0 && le(v@[pos - 1], x),
        decreases pos + if done { 0int } else { 1int },
    {
        let p = v[pos - 1].0.kind.priority();
        if p < px || (p == px && v[pos - 1].0.at <= x.0.at) {
            done = true;
        } else {
            pos -= 1;
        }
    }
    proof {
        lemma_insert_at(v@, x, le, pos as int);
    }
    v.insert(pos, x);
    assert(v@ == old(v)@.take(pos as int) + seq![x] + old(v)@.skip(pos as int));
}

fn insert_by_time(v: &mut Vec<Candidate>, x: Candidate)
    ensures
        final(v)@ == insert_sorted(old(v)@, x, time_order()),
{
    let ghost le = time_order();
    let mut pos = v.len();
    let mut done = false;
    while pos > 0 && !done
        invariant
            pos <= v.len(),
            le == time_order(),
            forall|j: int| pos <= j < v.len() ==> !le(#[trigger] v@[j], x),
            done ==> pos > 0 && le(v@[pos - 1], x),
        decreases pos + if done { 0int } else { 1int },
    {
        if v[pos - 1].at <= x.at {
            done = true;
        } else {
            pos -= 1;
        }
    }
    proof {
        lemma_insert_at(v@, x, le, pos as int);
    }
    v.insert(pos, x);
    assert(v@ == old(v)@.take(pos as int) + seq![x] + old(v)@.skip(pos as int));
}

fn contains_kind(kinds: &[NotificationKind], kind: NotificationKind) -> (found: bool)
    ensures
        found == kinds@.contains(kind),
{
    let mut i: usize = 0;
    while i < kinds.len()
        invariant
            i <= kinds.len(),
            forall|j: int| 0 <= j < i ==> kinds@[j] != kind,
        decreases kinds.len() - i,
    {
        if kinds[i] == kind {
            return true;
        }
        i += 1;
    }
    false
}

fn near(t: i64, at: i64) -> (close: bool)
    ensures
        close == (-CAP_WINDOW_SECONDS < t - at < CAP_WINDOW_SECONDS),
{
    let d: i128 = t as i128 - at as i128;
    -86_400 < d && d < 86_400
}

proof fn lemma_count_near_prefix(times: Seq<i64>, at: i64, k: int)
    requires
        0 <= k <= times.len(),
    ensures
        count_near(times.take(k), at) <= count_near(times, at),
    decreases times.len(),
{
    if k < times.len() {
        assert(times.drop_last().take(k) == times.take(k));
        lemma_count_near_prefix(times.drop_last(), at, k);
    } else {
        assert(times.take(k) == times);
    }
}

/// Whether the cap already holds three deliveries within a day of `at`.
fn cap_reached(already_sent: &[i64], send: &Vec<Candidate>, at: i64) -> (reached: bool)
    ensures
        reached == (count_near(already_sent@ + times_of(send@), at) >= MAX_PER_24_HOURS),
{
    let ghost all = already_sent@ + times_of(send@);
    let mut n: usize = 0;
    let mut i: usize = 0;
    while i < already_sent.len()
        invariant
            i <= already_sent.len(),
            all == already_sent@ + times_of(send@),
            n == count_near(all.take(i as int), at),
            n < 3,
        decreases already_sent.len() - i,
    {
        assert(all.take(i + 1).drop_last() == all.take(i as int));
        if near(already_sent[i], at) {
            n += 1;
            if n == 3 {
                proof {
                    lemma_count_near_prefix(all, at, i + 1);
                }
                return true;
            }
        }
        i += 1;
    }
    let mut k: usize = 0;
    while k < send.len()
        invariant
            k <= send.len(),
            all == already_sent@ + times_of(send@),
            all.len() == already_sent.len() + send.len(),
            n == count_near(all.take(already_sent.len() + k), at),
            n < 3,
        decreases send.len() - k,
    {
        assert(all.take(already_sent.len() + k + 1).drop_last() == all.take(already_sent.len() + k));
        assert(all[already_sent.len() + k] == send@[k as int].at);
        if near(send[k].at, at) {
            n += 1;
            if n == 3 {
                proof {
                    lemma_count_near_prefix(all, at, already_sent.len() + k + 1);
                }
                return true;
            }
        }
        k += 1;
    }
    assert(all.take(all.len() as int) == all);
    false
}

/// Decide what to send, given each candidate's local delivery time.
pub fn plan_with_local_times(
    items: &[Timed],
    quiet: Option<QuietHours>,
    already_sent: &[i64],
    suppressed: &[NotificationKind],
) -> (plan: Plan)
    ensures
        (plan.send@, plan.dropped@) == spec_plan(items@, quiet, already_sent@, suppressed@),
{
    let ghost by_priority = priority_order();
    let ghost by_time = time_order();
    // Filter out suppressed kinds, then sort by priority and time.
    let mut ordered: Vec<Timed> = Vec::new();
    let ghost mut kept: Seq<Timed> = seq![];
    let mut i: usize = 0;
    while i < items.len()
        invariant
            i <= items.len(),
            kept == unsuppressed(items@.take(i as int), suppressed@),
            by_priority == priority_order(),
            ordered@ == sort_by(kept, by_priority),
        decreases items.len() - i,
    {
        assert(items@.take(i + 1).drop_last() == items@.take(i as int));
        assert(items@.take(i + 1).last() == items@[i as int]);
        if !contains_kind(suppressed, items[i].0.kind) {
            proof {
                assert(kept.push(items@[i as int]).drop_last() == kept);
                kept = kept.push(items@[i as int]);
            }
            insert_by_priority(&mut ordered, items[i]);
        }
        i += 1;
    }
    assert(items@.take(items.len() as int) == items@);
    // Consider each candidate in turn.
    let mut send: Vec<Candidate> = Vec::new();
    let mut dropped: Vec<(Candidate, Dropped)> = Vec::new();
    let mut k: usize = 0;
    while k < ordered.len()
        invariant
            k <= ordered.len(),
            (send@, dropped@) == plan_fold(ordered@.take(k as int), quiet, already_sent@),
        decreases ordered.len() - k,
    {
        assert(ordered@.take(k + 1).drop_last() == ordered@.take(k as int));
        assert(ordered@.take(k + 1).last() == ordered@[k as int]);
        let (candidate, local) = ordered[k];
        let mut composed = false;
        let mut j: usize = 0;
        while j < send.len()
            invariant
                j <= send.len(),
                !composed ==> forall|m: int| 0 <= m < j ==> (#[trigger] send@[m]).kind != candidate.kind,
                composed ==> exists|m: int| 0 <= m < send.len() && (#[trigger] send@[m]).kind == candidate.kind,
            decreases send.len() - j,
        {
            if send[j].kind == candidate.kind {
                composed = true;
            }
            j += 1;
        }
        if composed {
            dropped.push((candidate, Dropped::ComposedIntoAnother));
        } else {
            let quiet_hit = match (quiet, local) {
                (Some(window), Some(seconds)) => window.contains(seconds),
                _ => false,
            };
            if quiet_hit {
                dropped.push((candidate, Dropped::QuietHours));
            } else if cap_reached(already_sent, &send, candidate.at) {
                dropped.push((candidate, Dropped::DailyCapReached));
            } else {
                send.push(candidate);
            }
        }
        k += 1;
    }
    assert(ordered@.take(ordered.len() as int) == ordered@);
    // List what is sent chronologically.
    let mut chronological: Vec<Candidate> = Vec::new();
    let mut m: usize = 0;
    while m < send.len()
        invariant
            m <= send.len(),
            chronological@ == sort_by(send@.take(m as int), by_time),
            by_time == time_order(),
        decreases send.len() - m,
    {
        assert(send@.take(m + 1).drop_last() == send@.take(m as int));
        assert(send@.take(m + 1).last() == send@[m as int]);
        insert_by_time(&mut chronological, send[m]);
        m += 1;
    }
    assert(send@.take(send.len() as int) == send@);
    Plan { send: chronological, dropped }
}

/// Decide what to send, evaluating quiet hours on the user's local clock in
/// the given zone. `already_sent` is the delivery history, so the cap spans job
/// runs; entries far from every candidate do not matter.
pub fn plan(
    candidates: &[Candidate],
    quiet: Option<QuietHours>,
    zone: &TimeZone,
    already_sent: &[i64],
    suppressed: &[NotificationKind],
) -> (plan: Plan)
    ensures
        (plan.send@, plan.dropped@) == spec_plan(
            Seq::new(candidates@.len(), |i: int| (candidates@[i], local_seconds_of(zone@, candidates@[i].at as int))),
            quiet,
            already_sent@,
            suppressed@,
        ),
{
    let ghost timed = Seq::new(candidates@.len(), |i: int| (candidates@[i], local_seconds_of(zone@, candidates@[i].at as int)));
    let mut items: Vec<Timed> = Vec::new();
    let mut i: usize = 0;
    while i < candidates.len()
        invariant
            i <= candidates.len(),
            items@ == timed.take(i as int),
            timed.len() == candidates@.len(),
            timed == Seq::new(candidates@.len(), |i: int| (candidates@[i], local_seconds_of(zone@, candidates@[i].at as int))),
        decreases candidates.len() - i,
    {
        let local = match local_clock(zone, candidates[i].at) {
            Some((_, seconds)) => Some(seconds),
            None => None,
        };
        items.push((candidates[i], local));
        assert(timed.take(i + 1) == timed.take(i as int).push(timed[i as int]));
        i += 1;
    }
    assert(timed.take(candidates.len() as int) == timed);
    plan_with_local_times(items.as_slice(), quiet, already_sent, suppressed)
}


/// Whether quiet hours silence a candidate with this local delivery time.
pub open spec fn quiet_hit(quiet: Option<QuietHours>, local: Option<u32>) -> bool {
    quiet is Some && local is Some && quiet->0.spec_contains(local->0)
}

/// No two entries share a kind.
pub open spec fn one_per_kind(send: Seq<Candidate>) -> bool {
    forall|i: int, j: int| 0 <= i < j < send.len() ==> (#[trigger] send[i]).kind != (#[trigger] send[j]).kind
}

proof fn lemma_unsuppressed(items: Seq<Timed>, suppressed: Seq<NotificationKind>)
    ensures
        unsuppressed(items, suppressed).len() <= items.len(),
        forall|i: int| 0 <= i < unsuppressed(items, suppressed).len() ==> {
            &&& !suppressed.contains((#[trigger] unsuppressed(items, suppressed)[i]).0.kind)
            &&& items.contains(unsuppressed(items, suppressed)[i])
        },
    decreases items.len(),
{
    if items.len() > 0 {
        lemma_unsuppressed(items.drop_last(), suppressed);
        let rest = unsuppressed(items.drop_last(), suppressed);
        assert forall|i: int| 0 <= i < rest.len() implies items.contains(#[trigger] rest[i]) by {
            let k = choose|k: int| 0 <= k < items.drop_last().len() && items.drop_last()[k] == rest[i];
            assert(items[k] == rest[i]);
        }
        assert(items[items.len() - 1] == items.last());
    }
}

/// Facts about considering candidates in order: each one lands in exactly one
/// of the two lists, every accepted one comes from the input and was not
/// silenced by quiet hours, and no kind is accepted twice.
proof fn lemma_fold(items: Seq<Timed>, quiet: Option<QuietHours>, already_sent: Seq<i64>)
    ensures
        ({
            let (send, dropped) = plan_fold(items, quiet, already_sent);
            &&& send.len() + dropped.len() == items.len()
            &&& one_per_kind(send)
            &&& forall|i: int| 0 <= i < send.len() ==> exists|j: int|
                0 <= j < items.len() && (#[trigger] items[j]).0 == #[trigger] send[i] && !quiet_hit(quiet, items[j].1)
            &&& forall|i: int| 0 <= i < dropped.len() ==> exists|j: int|
                0 <= j < items.len() && (#[trigger] items[j]).0 == (#[trigger] dropped[i]).0
        }),
    decreases items.len(),
{
    if items.len() > 0 {
        let prefix = items.drop_last();
        lemma_fold(prefix, quiet, already_sent);
        let (send, dropped) = plan_fold(prefix, quiet, already_sent);
        let item = items.last();
        assert forall|i: int| 0 <= i < send.len() implies exists|j: int|
            0 <= j < items.len() && (#[trigger] items[j]).0 == #[trigger] send[i] && !quiet_hit(quiet, items[j].1) by {
            let j = choose|j: int| 0 <= j < prefix.len() && (#[trigger] prefix[j]).0 == send[i] && !quiet_hit(quiet, prefix[j].1);
            assert(items[j] == prefix[j]);
        }
        assert forall|i: int| 0 <= i < dropped.len() implies exists|j: int|
            0 <= j < items.len() && (#[trigger] items[j]).0 == (#[trigger] dropped[i]).0 by {
            let j = choose|j: int| 0 <= j < prefix.len() && (#[trigger] prefix[j]).0 == dropped[i].0;
            assert(items[j] == prefix[j]);
        }
        let last = items.len() - 1;
        assert(items[last] == item);
        match spec_decide(send, item, quiet, already_sent) {
            Some(reason) => {
                let d2 = dropped.push((item.0, reason));
                assert forall|i: int| 0 <= i < d2.len() implies exists|j: int|
                    0 <= j < items.len() && (#[trigger] items[j]).0 == (#[trigger] d2[i]).0 by {
                    if i == dropped.len() {
                        assert(items[last].0 == d2[i].0);
                    } else {
                        assert(d2[i] == dropped[i]);
                    }
                }
            },
            None => {
                let s2 = send.push(item.0);
                assert forall|i: int| 0 <= i < s2.len() implies exists|j: int|
                    0 <= j < items.len() && (#[trigger] items[j]).0 == #[trigger] s2[i] && !quiet_hit(quiet, items[j].1) by {
                    if i == send.len() {
                        assert(items[last].0 == s2[i]);
                    } else {
                        assert(s2[i] == send[i]);
                    }
                }
                assert(one_per_kind(s2));
            },
        }
    }
}

/// Sorted insertion of a candidate of a new kind keeps one entry per kind.
proof fn lemma_insert_one_per_kind(s: Seq<Candidate>, x: Candidate)
    requires
        one_per_kind(s),
        forall|k: int| 0 <= k < s.len() ==> (#[trigger] s[k]).kind != x.kind,
    ensures
        one_per_kind(insert_sorted(s, x, time_order())),
    decreases s.len(),
{
    if s.len() == 0 {
    } else if time_order()(s.last(), x) {
    } else {
        let prefix = s.drop_last();
        let last = s.last();
        lemma_insert_one_per_kind(prefix, x);
        let inner = insert_sorted(prefix, x, time_order());
        lemma_insert_sorted_multiset(prefix, x, time_order());
        broadcast use vstd::seq_lib::group_to_multiset_ensures, vstd::multiset::group_multiset_axioms;
        assert forall|k: int| 0 <= k < inner.len() implies (#[trigger] inner[k]).kind != last.kind by {
            let y = inner[k];
            assert(inner.contains(y));
            assert(inner.to_multiset().count(y) > 0);
            if y != x {
                assert(prefix.to_multiset().count(y) > 0);
                assert(prefix.contains(y));
                let m = choose|m: int| 0 <= m < prefix.len() && prefix[m] == y;
                assert(s[m] == y);
                assert(s[s.len() - 1] == last);
            } else {
                assert(s[s.len() - 1] == last);
            }
        }
        let r = inner.push(last);
        assert forall|i: int, j: int| 0 <= i < j < r.len() implies (#[trigger] r[i]).kind != (#[trigger] r[j]).kind by {
            if j == r.len() - 1 {
                assert(r[i] == inner[i]);
            } else {
                assert(r[i] == inner[i] && r[j] == inner[j]);
            }
        }
    }
}

proof fn lemma_sort_one_per_kind(s: Seq<Candidate>)
    requires
        one_per_kind(s),
    ensures
        one_per_kind(sort_by(s, time_order())),
    decreases s.len(),
{
    if s.len() > 0 {
        let prefix = s.drop_last();
        assert forall|i: int, j: int| 0 <= i < j < prefix.len() implies (#[trigger] prefix[i]).kind != (#[trigger] prefix[j]).kind by {
            assert(prefix[i] == s[i] && prefix[j] == s[j]);
        }
        lemma_sort_one_per_kind(prefix);
        let sorted = sort_by(prefix, time_order());
        assert forall|k: int| 0 <= k < sorted.len() implies (#[trigger] sorted[k]).kind != s.last().kind by {
            let y = sorted[k];
            assert(sorted.contains(y));
            lemma_sort_by_contains(prefix, time_order(), y);
            let m = choose|m: int| 0 <= m < prefix.len() && prefix[m] == y;
            assert(s[m] == y);
            assert(s[s.len() - 1] == s.last());
        }
        lemma_insert_one_per_kind(sorted, s.last());
    }
}

pub open spec fn candidates_of_timed(items: Seq<Timed>) -> Seq<Candidate> {
    items.map_values(|t: Timed| t.0)
}

pub open spec fn candidates_of_dropped(dropped: Seq<(Candidate, Dropped)>) -> Seq<Candidate> {
    dropped.map_values(|d: (Candidate, Dropped)| d.0)
}

/// Considering candidates in order sends or drops each of them exactly once.
proof fn lemma_fold_permutation(items: Seq<Timed>, quiet: Option<QuietHours>, already_sent: Seq<i64>)
    ensures
        ({
            let (send, dropped) = plan_fold(items, quiet, already_sent);
            (send + candidates_of_dropped(dropped)).to_multiset() == candidates_of_timed(items).to_multiset()
        }),
    decreases items.len(),
{
    broadcast use vstd::multiset::group_multiset_axioms;
    broadcast use vstd::seq_lib::to_multiset_build;

    let (send, dropped) = plan_fold(items, quiet, already_sent);
    if items.len() == 0 {
        assert(send + candidates_of_dropped(dropped) =~= candidates_of_timed(items));
    } else {
        let prefix = items.drop_last();
        let x = items.last();
        lemma_fold_permutation(prefix, quiet, already_sent);
        let (s0, d0) = plan_fold(prefix, quiet, already_sent);
        assert(candidates_of_timed(items) =~= candidates_of_timed(prefix).push(x.0));
        let before = s0 + candidates_of_dropped(d0);
        vstd::seq_lib::lemma_multiset_commutative(s0, candidates_of_dropped(d0));
        match spec_decide(s0, x, quiet, already_sent) {
            Some(reason) => {
                assert(candidates_of_dropped(dropped) =~= candidates_of_dropped(d0).push(x.0));
                assert(send + candidates_of_dropped(dropped) =~= before.push(x.0));
            },
            None => {
                vstd::seq_lib::lemma_multiset_commutative(s0.push(x.0), candidates_of_dropped(d0));
                assert(s0.push(x.0).to_multiset() =~= s0.to_multiset().insert(x.0));
                assert((s0.push(x.0) + candidates_of_dropped(d0)).to_multiset() =~= before.to_multiset().insert(x.0));
            },
        }
    }
}

/// Every candidate that is not suppressed is accounted for, either sent or
/// dropped with a reason, each exactly once; suppressed kinds appear in neither list; no kind is
/// sent twice (two enrollments asking for the same kind get one
/// notification); nothing is sent inside quiet hours; and what is sent is in
/// chronological order.
pub proof fn lemma_plan_laws(
    items: Seq<Timed>,
    quiet: Option<QuietHours>,
    already_sent: Seq<i64>,
    suppressed: Seq<NotificationKind>,
)
    ensures
        ({
            let (send, dropped) = spec_plan(items, quiet, already_sent, suppressed);
            &&& send.len() + dropped.len() == unsuppressed(items, suppressed).len()
            &&& (send + candidates_of_dropped(dropped)).to_multiset() == candidates_of_timed(
                unsuppressed(items, suppressed),
            ).to_multiset()
            &&& forall|i: int| 0 <= i < send.len() ==> !suppressed.contains((#[trigger] send[i]).kind)
            &&& forall|i: int| 0 <= i < dropped.len() ==> !suppressed.contains((#[trigger] dropped[i]).0.kind)
            &&& one_per_kind(send)
            &&& forall|i: int| 0 <= i < send.len() ==> exists|j: int|
                0 <= j < items.len() && (#[trigger] items[j]).0 == #[trigger] send[i] && !quiet_hit(quiet, items[j].1)
            &&& sorted_by(send, time_order())
        }),
{
    let kept = unsuppressed(items, suppressed);
    let ordered = sort_by(kept, priority_order());
    lemma_unsuppressed(items, suppressed);
    lemma_sort_by_multiset(kept, priority_order());
    lemma_fold(ordered, quiet, already_sent);
    let (folded, dropped) = plan_fold(ordered, quiet, already_sent);
    let send = sort_by(folded, time_order());
    lemma_sort_by_multiset(folded, time_order());
    lemma_fold_permutation(ordered, quiet, already_sent);
    lemma_map_values_multiset(ordered, kept, |t: Timed| t.0);
    assert(candidates_of_timed(ordered) == ordered.map_values(|t: Timed| t.0));
    assert(candidates_of_timed(kept) == kept.map_values(|t: Timed| t.0));
    assert((send + candidates_of_dropped(dropped)).to_multiset() == (folded + candidates_of_dropped(
        dropped,
    )).to_multiset()) by {
        vstd::seq_lib::lemma_multiset_commutative(send, candidates_of_dropped(dropped));
        vstd::seq_lib::lemma_multiset_commutative(folded, candidates_of_dropped(dropped));
    }
    lemma_sort_one_per_kind(folded);
    assert(total_preorder(time_order()));
    lemma_sort_by_sorted(folded, time_order());
    // Every element of `ordered` is an unsuppressed input item.
    assert forall|k: int| 0 <= k < ordered.len() implies
        !suppressed.contains((#[trigger] ordered[k]).0.kind) && items.contains(ordered[k]) by {
        let y = ordered[k];
        assert(ordered.contains(y));
        lemma_sort_by_contains(kept, priority_order(), y);
        let m = choose|m: int| 0 <= m < kept.len() && kept[m] == y;
    }
    assert forall|i: int| 0 <= i < send.len() implies exists|j: int|
        0 <= j < items.len() && (#[trigger] items[j]).0 == #[trigger] send[i] && !quiet_hit(quiet, items[j].1)
        && !suppressed.contains(send[i].kind) by {
        let y = send[i];
        assert(send.contains(y));
        lemma_sort_by_contains(folded, time_order(), y);
        let m = choose|m: int| 0 <= m < folded.len() && folded[m] == y;
        let k = choose|k: int| 0 <= k < ordered.len() && (#[trigger] ordered[k]).0 == folded[m] && !quiet_hit(quiet, ordered[k].1);
        assert(items.contains(ordered[k]));
        let j = choose|j: int| 0 <= j < items.len() && items[j] == ordered[k];
    }
    assert forall|i: int| 0 <= i < dropped.len() implies !suppressed.contains((#[trigger] dropped[i]).0.kind) by {
        let k = choose|k: int| 0 <= k < ordered.len() && (#[trigger] ordered[k]).0 == dropped[i].0;
    }
}

/// Every instant lies within a day of every other.
pub open spec fn all_within_a_day(items: Seq<Timed>, already_sent: Seq<i64>) -> bool {
    &&& forall|i: int, j: int|
        0 <= i < items.len() && 0 <= j < items.len() ==> -CAP_WINDOW_SECONDS < (#[trigger] items[i]).0.at
            - (#[trigger] items[j]).0.at < CAP_WINDOW_SECONDS
    &&& forall|i: int, k: int|
        0 <= i < items.len() && 0 <= k < already_sent.len() ==> -CAP_WINDOW_SECONDS < #[trigger] already_sent[k]
            - (#[trigger] items[i]).0.at < CAP_WINDOW_SECONDS
}

proof fn lemma_count_near_all(times: Seq<i64>, at: i64)
    requires
        forall|k: int| 0 <= k < times.len() ==> -CAP_WINDOW_SECONDS < #[trigger] times[k] - at < CAP_WINDOW_SECONDS,
    ensures
        count_near(times, at) == times.len(),
    decreases times.len(),
{
    if times.len() > 0 {
        lemma_count_near_all(times.drop_last(), at);
    }
}

proof fn lemma_fold_cap(items: Seq<Timed>, quiet: Option<QuietHours>, already_sent: Seq<i64>)
    requires
        all_within_a_day(items, already_sent),
    ensures
        ({
            let send = plan_fold(items, quiet, already_sent).0;
            &&& send.len() == 0 || send.len() + already_sent.len() <= MAX_PER_24_HOURS
            &&& forall|i: int| 0 <= i < send.len() ==> exists|j: int| 0 <= j < items.len() && (#[trigger] items[j]).0 == #[trigger] send[i]
        }),
    decreases items.len(),
{
    if items.len() > 0 {
        let prefix = items.drop_last();
        assert(all_within_a_day(prefix, already_sent)) by {
            assert forall|i: int, j: int|
                0 <= i < prefix.len() && 0 <= j < prefix.len() implies -CAP_WINDOW_SECONDS < (#[trigger] prefix[i]).0.at
                    - (#[trigger] prefix[j]).0.at < CAP_WINDOW_SECONDS by {
                assert(prefix[i] == items[i] && prefix[j] == items[j]);
            }
            assert forall|i: int, k: int|
                0 <= i < prefix.len() && 0 <= k < already_sent.len() implies -CAP_WINDOW_SECONDS < #[trigger] already_sent[k]
                    - (#[trigger] prefix[i]).0.at < CAP_WINDOW_SECONDS by {
                assert(prefix[i] == items[i]);
            }
        }
        lemma_fold_cap(prefix, quiet, already_sent);
        let (send, dropped) = plan_fold(prefix, quiet, already_sent);
        let item = items.last();
        let last = items.len() - 1;
        assert(items[last] == item);
        assert forall|i: int| 0 <= i < send.len() implies exists|j: int| 0 <= j < items.len() && (#[trigger] items[j]).0 == #[trigger] send[i] by {
            let j = choose|j: int| 0 <= j < prefix.len() && (#[trigger] prefix[j]).0 == send[i];
            assert(items[j] == prefix[j]);
        }
        if spec_decide(send, item, quiet, already_sent) is None {
            let all = already_sent + times_of(send);
            assert forall|k: int| 0 <= k < all.len() implies -CAP_WINDOW_SECONDS < #[trigger] all[k] - item.0.at < CAP_WINDOW_SECONDS by {
                if k < already_sent.len() {
                    assert(all[k] == already_sent[k]);
                } else {
                    let i = k - already_sent.len();
                    assert(all[k] == send[i].at);
                    let j = choose|j: int| 0 <= j < items.len() && (#[trigger] items[j]).0 == send[i];
                }
            }
            lemma_count_near_all(all, item.0.at);
            let s2 = send.push(item.0);
            assert forall|i: int| 0 <= i < s2.len() implies exists|j: int| 0 <= j < items.len() && (#[trigger] items[j]).0 == #[trigger] s2[i] by {
                if i == send.len() {
                    assert(items[last].0 == s2[i]);
                } else {
                    assert(s2[i] == send[i]);
                }
            }
        }
    }
}

/// Never more than three in twenty-four hours: when every candidate and
/// every earlier delivery lie within one day of each other, the plan sends
/// nothing at all or brings the total to at most three.
pub proof fn lemma_plan_cap(
    items: Seq<Timed>,
    quiet: Option<QuietHours>,
    already_sent: Seq<i64>,
    suppressed: Seq<NotificationKind>,
)
    requires
        all_within_a_day(items, already_sent),
    ensures
        ({
            let send = spec_plan(items, quiet, already_sent, suppressed).0;
            send.len() == 0 || send.len() + already_sent.len() <= MAX_PER_24_HOURS
        }),
{
    let kept = unsuppressed(items, suppressed);
    let ordered = sort_by(kept, priority_order());
    lemma_unsuppressed(items, suppressed);
    assert forall|k: int| 0 <= k < ordered.len() implies items.contains(#[trigger] ordered[k]) by {
        let y = ordered[k];
        assert(ordered.contains(y));
        lemma_sort_by_contains(kept, priority_order(), y);
        let m = choose|m: int| 0 <= m < kept.len() && kept[m] == y;
    }
    assert(all_within_a_day(ordered, already_sent)) by {
        assert forall|i: int, j: int|
            0 <= i < ordered.len() && 0 <= j < ordered.len() implies -CAP_WINDOW_SECONDS < (#[trigger] ordered[i]).0.at
                - (#[trigger] ordered[j]).0.at < CAP_WINDOW_SECONDS by {
            assert(items.contains(ordered[i]) && items.contains(ordered[j]));
            let a = choose|a: int| 0 <= a < items.len() && items[a] == ordered[i];
            let b = choose|b: int| 0 <= b < items.len() && items[b] == ordered[j];
        }
        assert forall|i: int, k: int|
            0 <= i < ordered.len() && 0 <= k < already_sent.len() implies -CAP_WINDOW_SECONDS < #[trigger] already_sent[k]
                - (#[trigger] ordered[i]).0.at < CAP_WINDOW_SECONDS by {
            assert(items.contains(ordered[i]));
            let a = choose|a: int| 0 <= a < items.len() && items[a] == ordered[i];
        }
    }
    lemma_fold_cap(ordered, quiet, already_sent);
    lemma_sort_by_multiset(plan_fold(ordered, quiet, already_sent).0, time_order());
}

/// How many of the given instants fall in the day-long window starting at
/// `lo`: any two of them are less than a day apart.
pub open spec fn count_window(times: Seq<i64>, lo: int) -> nat
    decreases times.len(),
{
    if times.len() == 0 {
        0
    } else {
        count_window(times.drop_last(), lo) + if in_window(times.last(), lo) {
            1nat
        } else {
            0nat
        }
    }
}

pub open spec fn in_window(t: i64, lo: int) -> bool {
    lo <= t < lo + CAP_WINDOW_SECONDS
}

proof fn lemma_count_window_add(a: Seq<i64>, b: Seq<i64>, lo: int)
    ensures
        count_window(a + b, lo) == count_window(a, lo) + count_window(b, lo),
    decreases b.len(),
{
    if b.len() > 0 {
        assert((a + b).drop_last() == a + b.drop_last());
        assert((a + b).last() == b.last());
        lemma_count_window_add(a, b.drop_last(), lo);
    } else {
        assert(a + b == a);
    }
}

proof fn lemma_count_window_remove(t: Seq<i64>, m: int, lo: int)
    requires
        0 <= m < t.len(),
    ensures
        count_window(t, lo) == count_window(t.remove(m), lo) + if in_window(t[m], lo) {
            1nat
        } else {
            0nat
        },
{
    let a = t.take(m);
    let b = t.skip(m + 1);
    assert(t == a + seq![t[m]] + b);
    assert(t.remove(m) == a + b);
    lemma_count_window_add(a + seq![t[m]], b, lo);
    lemma_count_window_add(a, seq![t[m]], lo);
    lemma_count_window_add(a, b, lo);
    let one = seq![t[m]];
    assert(one.drop_last() =~= Seq::<i64>::empty());
    assert(one.last() == t[m]);
    assert(count_window(one, lo) == count_window(one.drop_last(), lo) + if in_window(t[m], lo) {
        1nat
    } else {
        0nat
    });
}

/// Counting a window does not depend on the order of the instants.
proof fn lemma_count_window_permutation(s: Seq<i64>, t: Seq<i64>, lo: int)
    requires
        s.to_multiset() == t.to_multiset(),
    ensures
        count_window(s, lo) == count_window(t, lo),
    decreases s.len(),
{
    broadcast use vstd::multiset::group_multiset_axioms;
    broadcast use vstd::seq_lib::to_multiset_build, vstd::seq_lib::to_multiset_remove, vstd::seq_lib::to_multiset_len,
        vstd::seq_lib::to_multiset_contains;

    if s.len() == 0 {
        assert(s.to_multiset().len() == 0);
        assert(t.to_multiset().len() == t.len());
        assert(t.len() == 0);
    } else {
        let x = s.last();
        let rest = s.drop_last();
        assert(s == rest.push(x));
        assert(s.to_multiset().count(x) > 0);
        assert(t.to_multiset().contains(x));
        assert(t.contains(x));
        let m = choose|m: int| 0 <= m < t.len() && t[m] == x;
        assert(rest.to_multiset() =~= t.remove(m).to_multiset());
        lemma_count_window_permutation(rest, t.remove(m), lo);
        lemma_count_window_remove(t, m, lo);
    }
}

/// Instants in a window are all within a day of one of them.
proof fn lemma_window_within_near(times: Seq<i64>, lo: int, at: i64)
    requires
        in_window(at, lo),
    ensures
        count_window(times, lo) <= count_near(times, at),
    decreases times.len(),
{
    if times.len() > 0 {
        lemma_window_within_near(times.drop_last(), lo, at);
    }
}

/// Each accepted candidate had fewer than three deliveries within a day of it
/// among the history and the candidates accepted before it.
proof fn lemma_fold_accepts_under_cap(items: Seq<Timed>, quiet: Option<QuietHours>, already_sent: Seq<i64>)
    ensures
        ({
            let send = plan_fold(items, quiet, already_sent).0;
            forall|j: int| 0 <= j < send.len() ==> count_near(already_sent + times_of(#[trigger] send.take(j)), send[j].at)
                < MAX_PER_24_HOURS
        }),
    decreases items.len(),
{
    if items.len() > 0 {
        lemma_fold_accepts_under_cap(items.drop_last(), quiet, already_sent);
        let send = plan_fold(items.drop_last(), quiet, already_sent).0;
        if spec_decide(send, items.last(), quiet, already_sent) is None {
            let s2 = send.push(items.last().0);
            assert forall|j: int| 0 <= j < s2.len() implies count_near(already_sent + times_of(#[trigger] s2.take(j)), s2[j].at)
                < MAX_PER_24_HOURS by {
                if j < send.len() {
                    assert(s2.take(j) == send.take(j));
                    assert(s2[j] == send[j]);
                } else {
                    assert(s2.take(j) == send);
                }
            }
        }
    }
}

/// The last accepted candidate that falls in a window, when one does.
proof fn lemma_last_in_window(send: Seq<Candidate>, lo: int) -> (j: int)
    requires
        count_window(times_of(send), lo) > 0,
    ensures
        0 <= j < send.len(),
        in_window(send[j].at, lo),
        count_window(times_of(send), lo) == count_window(times_of(send.take(j)), lo) + 1,
    decreases send.len(),
{
    let rest = send.drop_last();
    assert(times_of(send).drop_last() == times_of(rest));
    assert(times_of(send).last() == send.last().at);
    if in_window(send.last().at, lo) {
        assert(send.take(send.len() - 1) == rest);
        send.len() - 1
    } else {
        let j = lemma_last_in_window(rest, lo);
        assert(rest.take(j) == send.take(j));
        assert(rest[j] == send[j]);
        j
    }
}

/// Never more than three in twenty-four hours, whatever the planner is given:
/// no day-long window that holds a delivery the plan sends holds more than
/// three deliveries, counting those already sent.
pub proof fn lemma_plan_window_cap(
    items: Seq<Timed>,
    quiet: Option<QuietHours>,
    already_sent: Seq<i64>,
    suppressed: Seq<NotificationKind>,
    lo: int,
)
    ensures
        ({
            let send = spec_plan(items, quiet, already_sent, suppressed).0;
            count_window(times_of(send), lo) > 0 ==> count_window(already_sent + times_of(send), lo)
                <= MAX_PER_24_HOURS
        }),
{
    let ordered = sort_by(unsuppressed(items, suppressed), priority_order());
    let folded = plan_fold(ordered, quiet, already_sent).0;
    let send = sort_by(folded, time_order());
    lemma_sort_by_multiset(folded, time_order());
    lemma_map_values_multiset(send, folded, |c: Candidate| c.at);
    lemma_count_window_permutation(times_of(send), times_of(folded), lo);
    lemma_count_window_add(already_sent, times_of(send), lo);
    lemma_count_window_add(already_sent, times_of(folded), lo);
    if count_window(times_of(folded), lo) > 0 {
        let j = lemma_last_in_window(folded, lo);
        lemma_fold_accepts_under_cap(ordered, quiet, already_sent);
        let before = already_sent + times_of(folded.take(j));
        assert(count_near(before, folded[j].at) < MAX_PER_24_HOURS);
        lemma_window_within_near(before, lo, folded[j].at);
        lemma_count_window_add(already_sent, times_of(folded.take(j)), lo);
    }
}

} // verus!
