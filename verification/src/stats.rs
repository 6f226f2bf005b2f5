//! Consistency and momentum, computed per enrollment.
//!
//! Every figure is an `Option`: `None` means there was nothing to measure,
//! which is shown as a dash rather than as a zero.
use vstd::prelude::*;
use crate::scoring::round_div;
use crate::weekly::{i32_saturating_add, sat_add, WeekBucket};

verus! {

/// Trailing window for consistency, in local days.
pub const CONSISTENCY_WINDOW_DAYS: u32 = 30;

/// Number of prior ISO weeks momentum compares against.
pub const MOMENTUM_BASELINE_WEEKS: usize = 4;

/// One finalised day's contribution to the trailing figures.
#[derive(Clone, Copy, Debug, PartialEq, Eq, Structural)]
pub struct DayTotals {
    pub earned: i32,
    pub available: i32,
    /// Declared rest days leave the denominator entirely.
    pub is_rest: bool,
}

impl DayTotals {
    pub fn new(earned: i32, available: i32) -> (day: Self)
        ensures
            day == (DayTotals { earned, available, is_rest: false }),
    {
        DayTotals { earned, available, is_rest: false }
    }

    pub fn rest() -> (day: Self)
        ensures
            day == (DayTotals { earned: 0, available: 0, is_rest: true }),
    {
        DayTotals { earned: 0, available: 0, is_rest: true }
    }

    /// A miss that a banked freeze absorbed: it stays in the denominator with
    /// nothing earned, because a freeze protects the streak, not the figure.
    pub fn frozen(available: i32) -> (day: Self)
        ensures
            day == (DayTotals { earned: 0, available, is_rest: false }),
    {
        DayTotals { earned: 0, available, is_rest: false }
    }
}

/// Whether `numerator / denominator` sits exactly halfway between two whole
/// numbers whose lower one is 14, 28, 56 or 57. The rate is taken as a binary
/// double-precision quotient times one hundred, and for these four halves that
/// product falls just below the half, so it rounds down; every other half
/// rounds up.
pub open spec fn rate_half_rounds_down(numerator: int, denominator: int) -> bool {
    let lower = numerator / denominator;
    &&& (2 * numerator) % denominator == 0
    &&& ((2 * numerator) / denominator) % 2 == 1
    &&& (lower == 14 || lower == 28 || lower == 56 || lower == 57)
}

/// Earned over available as a rounded percentage capped at 100, or `None` when
/// nothing was available. Halves round up, except the four that
/// `rate_half_rounds_down` names.
pub open spec fn spec_completion_rate(earned: int, available: int) -> Option<u8> {
    if available <= 0 {
        None
    } else {
        let e = if earned < 0 { 0 } else { earned };
        let rate = if rate_half_rounds_down(e * 100, available) {
            (e * 100) / available
        } else {
            round_div(e * 100, available)
        };
        Some((if rate > 100 { 100 } else { rate }) as u8)
    }
}

pub fn completion_rate(earned: i32, available: i32) -> (rate: Option<u8>)
    ensures
        rate == spec_completion_rate(earned as int, available as int),
        rate matches Some(r) ==> r <= 100,
{
    if available <= 0 {
        return None;
    }
    let e: i64 = if earned < 0 { 0 } else { earned as i64 };
    let a: i64 = available as i64;
    assert(0 <= e * 100 <= 100 * 0x7fff_ffff) by (nonlinear_arith)
        requires
            0 <= e <= 0x7fff_ffff,
    ;
    let n: i64 = e * 100;
    let lower: i64 = n / a;
    let rate: i64 = if (2 * n) % a == 0 && ((2 * n) / a) % 2 == 1
        && (lower == 14 || lower == 28 || lower == 56 || lower == 57) {
        lower
    } else {
        (2 * n + a) / (2 * a)
    };
    assert(rate >= 0) by (nonlinear_arith)
        requires
            n >= 0,
            a > 0,
            rate == (2 * n + a) / (2 * a) || rate == n / a,
    ;
    if rate > 100 {
        Some(100)
    } else {
        Some(rate as u8)
    }
}

/// Saturating sums of earned and available points over the non-rest days.
pub open spec fn spec_totals(days: Seq<DayTotals>) -> (int, int)
    decreases days.len(),
{
    if days.len() == 0 {
        (0, 0)
    } else {
        let (earned, available) = spec_totals(days.drop_last());
        let day = days.last();
        if day.is_rest {
            (earned, available)
        } else {
            (sat_add(earned, day.earned as int), sat_add(available, day.available as int))
        }
    }
}

/// Both running totals of a range of days fit in an `i32`.
pub proof fn lemma_totals_in_range(days: Seq<DayTotals>)
    ensures
        i32::MIN <= spec_totals(days).0 <= i32::MAX,
        i32::MIN <= spec_totals(days).1 <= i32::MAX,
    decreases days.len(),
{
    if days.len() > 0 {
        lemma_totals_in_range(days.drop_last());
    }
}

/// Sum a set of days into an `(earned, available)` pair, dropping rest days.
pub fn totals(days: &[DayTotals]) -> (sums: (i32, i32))
    ensures
        sums.0 == spec_totals(days@).0,
        sums.1 == spec_totals(days@).1,
{
    let mut earned: i32 = 0;
    let mut available: i32 = 0;
    let mut i: usize = 0;
    while i < days.len()
        invariant
            i <= days.len(),
            earned == spec_totals(days@.take(i as int)).0,
            available == spec_totals(days@.take(i as int)).1,
        decreases days.len() - i,
    {
        assert(days@.take(i + 1).drop_last() == days@.take(i as int));
        let day = days[i];
        if !day.is_rest {
            earned = i32_saturating_add(earned, day.earned);
            available = i32_saturating_add(available, day.available);
        }
        i += 1;
    }
    assert(days@.take(days.len() as int) == days@);
    (earned, available)
}

/// Bucket points added on top of a running `(earned, available)` pair.
pub open spec fn spec_add_buckets(start: (int, int), buckets: Seq<WeekBucket>) -> (int, int)
    decreases buckets.len(),
{
    if buckets.len() == 0 {
        start
    } else {
        let (earned, available) = spec_add_buckets(start, buckets.drop_last());
        let bucket = buckets.last();
        (
            sat_add(earned, bucket.spec_earned_points()),
            sat_add(available, bucket.spec_available_points()),
        )
    }
}

/// Trailing consistency for one enrollment: the days' totals plus the weekly
/// buckets on both sides of the ratio, as a completion rate.
pub open spec fn spec_consistency(days: Seq<DayTotals>, buckets: Seq<WeekBucket>) -> Option<u8> {
    let (earned, available) = spec_add_buckets(spec_totals(days), buckets);
    spec_completion_rate(earned, available)
}

pub fn consistency(days: &[DayTotals], buckets: &[WeekBucket]) -> (rate: Option<u8>)
    ensures
        rate == spec_consistency(days@, buckets@),
{
    let (mut earned, mut available) = totals(days);
    let ghost start = (earned as int, available as int);
    let mut i: usize = 0;
    while i < buckets.len()
        invariant
            i <= buckets.len(),
            start == spec_totals(days@),
            earned == spec_add_buckets(start, buckets@.take(i as int)).0,
            available == spec_add_buckets(start, buckets@.take(i as int)).1,
        decreases buckets.len() - i,
    {
        assert(buckets@.take(i + 1).drop_last() == buckets@.take(i as int));
        earned = i32_saturating_add(earned, buckets[i].earned_points());
        available = i32_saturating_add(available, buckets[i].available_points());
        i += 1;
    }
    assert(buckets@.take(buckets.len() as int) == buckets@);
    completion_rate(earned, available)
}

/// Resting is neutral: a declared rest day, wherever it falls, changes neither
/// side of the ratio, so it can never lower consistency.
pub proof fn lemma_rest_day_is_neutral(before: Seq<DayTotals>, after: Seq<DayTotals>, rest: DayTotals)
    requires
        rest.is_rest,
    ensures
        spec_totals(before + seq![rest] + after) == spec_totals(before + after),
    decreases after.len(),
{
    if after.len() == 0 {
        assert((before + seq![rest] + after).drop_last() == before);
        assert(before + after == before);
    } else {
        lemma_rest_day_is_neutral(before, after.drop_last(), rest);
        assert((before + seq![rest] + after).drop_last() == before + seq![rest] + after.drop_last());
        assert((before + after).drop_last() == before + after.drop_last());
    }
}

/// The consistency figure is unchanged by adding a rest day anywhere.
pub proof fn lemma_rest_day_cannot_lower_consistency(
    before: Seq<DayTotals>,
    after: Seq<DayTotals>,
    buckets: Seq<WeekBucket>,
)
    ensures
        spec_consistency(before + seq![DayTotals { earned: 0, available: 0, is_rest: true }] + after, buckets)
            == spec_consistency(before + after, buckets),
{
    lemma_rest_day_is_neutral(before, after, DayTotals { earned: 0, available: 0, is_rest: true });
}

/// A frozen day is not a rest day: it adds its available points to the
/// denominator and nothing to the numerator.
pub proof fn lemma_frozen_day_counts(days: Seq<DayTotals>, available: i32)
    ensures
        spec_totals(days.push(DayTotals { earned: 0, available, is_rest: false })) == (
            spec_totals(days).0,
            sat_add(spec_totals(days).1, available as int),
        ),
{
    lemma_totals_in_range(days);
    assert(days.push(DayTotals { earned: 0, available, is_rest: false }).drop_last() == days);
}

/// One ISO week's totals, for momentum.
#[derive(Clone, Copy, Debug, PartialEq, Eq, Structural, Default)]
pub struct WeekTotals {
    pub earned: i32,
    pub available: i32,
}

impl WeekTotals {
    pub open spec fn spec_rate(self) -> Option<u8> {
        spec_completion_rate(self.earned as int, self.available as int)
    }

    pub fn rate(&self) -> (rate: Option<u8>)
        ensures
            rate == self.spec_rate(),
    {
        completion_rate(self.earned, self.available)
    }
}

/// The rates of the (at most four) most recent weeks that had work in them,
/// most recent first.
pub open spec fn spec_baseline(previous: Seq<WeekTotals>) -> Seq<u8> {
    let recent = if previous.len() > MOMENTUM_BASELINE_WEEKS {
        previous.subrange(previous.len() - MOMENTUM_BASELINE_WEEKS, previous.len() as int)
    } else {
        previous
    };
    spec_rates_newest_first(recent)
}

/// The defined rates of a run of weeks, newest first.
pub open spec fn spec_rates_newest_first(weeks: Seq<WeekTotals>) -> Seq<u8>
    decreases weeks.len(),
{
    if weeks.len() == 0 {
        seq![]
    } else {
        let rest = spec_rates_newest_first(weeks.drop_last());
        match weeks.last().spec_rate() {
            Some(rate) => seq![rate] + rest,
            None => rest,
        }
    }
}

pub open spec fn spec_sum_rates(rates: Seq<u8>) -> int
    decreases rates.len(),
{
    if rates.len() == 0 {
        0
    } else {
        spec_sum_rates(rates.drop_last()) + rates.last() as int
    }
}

/// This week's rate minus the mean of the baseline weeks, in signed
/// percentage points rounded to the nearest point; `None` until there is both
/// a current week with work and at least one baseline week with work.
pub open spec fn spec_momentum(this_week: WeekTotals, previous: Seq<WeekTotals>) -> Option<i16> {
    match this_week.spec_rate() {
        None => None,
        Some(current) => {
            let baseline = spec_baseline(previous);
            if baseline.len() == 0 {
                None
            } else {
                let n = baseline.len() as int;
                Some(round_div(current as int * n - spec_sum_rates(baseline), n) as i16)
            }
        },
    }
}

proof fn lemma_sum_rates_bound(rates: Seq<u8>)
    ensures
        0 <= spec_sum_rates(rates) <= 255 * rates.len(),
    decreases rates.len(),
{
    if rates.len() > 0 {
        lemma_sum_rates_bound(rates.drop_last());
    }
}

proof fn lemma_rates_len(weeks: Seq<WeekTotals>)
    ensures
        spec_rates_newest_first(weeks).len() <= weeks.len(),
        forall|i: int| 0 <= i < spec_rates_newest_first(weeks).len()
            ==> #[trigger] spec_rates_newest_first(weeks)[i] <= 100,
    decreases weeks.len(),
{
    if weeks.len() > 0 {
        lemma_rates_len(weeks.drop_last());
    }
}

pub fn momentum(this_week: WeekTotals, previous_weeks: &[WeekTotals]) -> (delta: Option<i16>)
    ensures
        delta == spec_momentum(this_week, previous_weeks@),
{
    let current = match this_week.rate() {
        Some(rate) => rate,
        None => return None,
    };
    let len = previous_weeks.len();
    let start: usize = if len > MOMENTUM_BASELINE_WEEKS { len - MOMENTUM_BASELINE_WEEKS } else { 0 };
    let ghost recent = if len > MOMENTUM_BASELINE_WEEKS {
        previous_weeks@.subrange(len - MOMENTUM_BASELINE_WEEKS, len as int)
    } else {
        previous_weeks@
    };
    assert(recent == previous_weeks@.subrange(start as int, len as int));
    // Walk the recent weeks oldest to newest, keeping the defined rates.
    let mut sum: u32 = 0;
    let mut count: u32 = 0;
    let mut i: usize = start;
    while i < len
        invariant
            start <= i <= len,
            len == previous_weeks@.len(),
            len - start <= 4,
            recent == previous_weeks@.subrange(start as int, len as int),
            count as int == spec_rates_newest_first(previous_weeks@.subrange(start as int, i as int)).len(),
            sum as int == spec_sum_rates(spec_rates_newest_first(previous_weeks@.subrange(start as int, i as int))),
            count <= i - start,
            sum <= 100 * count,
        decreases len - i,
    {
        let ghost before = previous_weeks@.subrange(start as int, i as int);
        let ghost after = previous_weeks@.subrange(start as int, i + 1);
        assert(after.drop_last() == before);
        proof {
            lemma_rates_len(before);
        }
        match previous_weeks[i].rate() {
            Some(rate) => {
                proof {
                    lemma_sum_rates_of_prepend(rate, spec_rates_newest_first(before));
                }
                sum = sum + rate as u32;
                count = count + 1;
            },
            None => {},
        }
        i += 1;
    }
    if count == 0 {
        return None;
    }
    let n: i64 = count as i64;
    assert(0 <= current as i64 * n <= 100 * n) by (nonlinear_arith)
        requires
            0 <= current <= 100,
            1 <= n,
    ;
    let numerator: i64 = current as i64 * n - sum as i64;
    let delta: i64 = if numerator >= 0 {
        (2 * numerator + n) / (2 * n)
    } else {
        -((-2 * numerator + n) / (2 * n))
    };
    proof {
        lemma_rates_len(recent);
    }
    assert(-100 <= delta <= 100) by (nonlinear_arith)
        requires
            1 <= n <= 4,
            -100 * n <= numerator <= 100 * n,
            numerator >= 0 ==> delta == (2 * numerator + n) / (2 * n),
            numerator < 0 ==> delta == -((-2 * numerator + n) / (2 * n)),
    ;
    Some(delta as i16)
}

/// The sum of a sequence of rates is unchanged by where the newest is put.
proof fn lemma_sum_rates_of_prepend(rate: u8, rest: Seq<u8>)
    ensures
        spec_sum_rates(seq![rate] + rest) == rate as int + spec_sum_rates(rest),
    decreases rest.len(),
{
    if rest.len() > 0 {
        lemma_sum_rates_of_prepend(rate, rest.drop_last());
        assert((seq![rate] + rest).drop_last() == seq![rate] + rest.drop_last());
    } else {
        assert((seq![rate] + rest).drop_last() == rest);
    }
}

} // verus!
