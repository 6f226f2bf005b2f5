//! Floating (`n_per_week`) tasks and the weekly buckets that hold them.
//!
//! A floating task appears on every day of its ISO week, is excluded from
//! every day's available points, and scores through a per-week quota instead.
use vstd::prelude::*;

verus! {

/// `x + y` clamped to the `i32` range.
pub open spec fn sat_add(x: int, y: int) -> int {
    if x + y > i32::MAX {
        i32::MAX as int
    } else if x + y < i32::MIN {
        i32::MIN as int
    } else {
        x + y
    }
}

/// `x * y` clamped to the `i32` range.
pub open spec fn sat_mul(x: int, y: int) -> int {
    if x * y > i32::MAX {
        i32::MAX as int
    } else if x * y < i32::MIN {
        i32::MIN as int
    } else {
        x * y
    }
}

/// A count as an `i32`, saturating at `i32::MAX`.
pub open spec fn count_as_i32(count: int) -> int {
    if count > i32::MAX { i32::MAX as int } else { count }
}

pub fn i32_saturating_mul(x: i32, y: i32) -> (r: i32)
    ensures
        r == sat_mul(x as int, y as int),
{
    assert(-0x8000_0000 * 0x8000_0000 <= (x as int) * (y as int) <= 0x8000_0000 * 0x8000_0000)
        by (nonlinear_arith)
        requires
            -0x8000_0000 <= x <= 0x7fff_ffff,
            -0x8000_0000 <= y <= 0x7fff_ffff,
    ;
    let wide: i64 = x as i64 * y as i64;
    if wide > i32::MAX as i64 {
        i32::MAX
    } else if wide < i32::MIN as i64 {
        i32::MIN
    } else {
        wide as i32
    }
}

pub fn i32_saturating_add(x: i32, y: i32) -> (r: i32)
    ensures
        r == sat_add(x as int, y as int),
{
    let wide: i64 = x as i64 + y as i64;
    if wide > i32::MAX as i64 {
        i32::MAX
    } else if wide < i32::MIN as i64 {
        i32::MIN
    } else {
        wide as i32
    }
}

#[derive(Clone, Copy, Debug, PartialEq, Eq, Structural)]
pub enum WeeklyError {
    /// The quota was already met; the task should not have been on screen.
    QuotaAlreadyMet,
}

/// One `n_per_week` template's progress through one ISO week.
#[derive(Clone, Copy, Debug, PartialEq, Eq, Structural)]
pub struct WeekBucket {
    pub required: u32,
    pub completed: u32,
    pub points_each: i32,
}

impl WeekBucket {
    pub open spec fn spec_quota_met(self) -> bool {
        self.completed >= self.required
    }

    /// Points each times the quota, saturating.
    pub open spec fn spec_available_points(self) -> int {
        sat_mul(self.points_each as int, count_as_i32(self.required as int))
    }

    /// Points each times the completions, capped at the quota, saturating.
    pub open spec fn spec_earned_points(self) -> int {
        let counted = if self.completed < self.required {
            self.completed
        } else {
            self.required
        };
        sat_mul(self.points_each as int, count_as_i32(counted as int))
    }

    pub fn new(required: u32, points_each: i32) -> (bucket: Self)
        ensures
            bucket == (WeekBucket { required, completed: 0, points_each }),
    {
        WeekBucket { required, completed: 0, points_each }
    }

    pub fn quota_met(&self) -> (met: bool)
        ensures
            met == self.spec_quota_met(),
    {
        self.completed >= self.required
    }

    pub fn remaining(&self) -> (left: u32)
        ensures
            left == (if self.completed >= self.required {
                0
            } else {
                self.required - self.completed
            }),
    {
        if self.completed >= self.required {
            0
        } else {
            self.required - self.completed
        }
    }

    /// Whether the row is still rendered for the rest of the week: it is
    /// removed once the quota is met.
    pub fn shows_today(&self) -> (shown: bool)
        ensures
            shown == !self.spec_quota_met(),
    {
        !self.quota_met()
    }

    /// The bucket's contribution to the consistency denominator.
    pub fn available_points(&self) -> (points: i32)
        ensures
            points == self.spec_available_points(),
    {
        let required: i32 = if self.required > i32::MAX as u32 {
            i32::MAX
        } else {
            self.required as i32
        };
        i32_saturating_mul(self.points_each, required)
    }

    /// The bucket's contribution to the consistency numerator. Clamped at the
    /// quota, so over-delivery cannot push a figure above 100%.
    pub fn earned_points(&self) -> (points: i32)
        ensures
            points == self.spec_earned_points(),
    {
        let counted = if self.completed < self.required {
            self.completed
        } else {
            self.required
        };
        let counted: i32 = if counted > i32::MAX as u32 {
            i32::MAX
        } else {
            counted as i32
        };
        i32_saturating_mul(self.points_each, counted)
    }

    /// Record one completion; refused once the quota is met.
    pub fn complete_one(&mut self) -> (result: Result<(), WeeklyError>)
        ensures
            old(self).spec_quota_met() ==> result == Err::<(), WeeklyError>(
                WeeklyError::QuotaAlreadyMet,
            ) && *final(self) == *old(self),
            !old(self).spec_quota_met() ==> result == Ok::<(), WeeklyError>(())
                && *final(self) == (WeekBucket {
                completed: (old(self).completed + 1) as u32,
                ..*old(self)
            }),
    {
        if self.quota_met() {
            return Err(WeeklyError::QuotaAlreadyMet);
        }
        self.completed = self.completed + 1;
        Ok(())
    }

    /// Reverse a completion; a no-op at zero.
    pub fn uncomplete_one(&mut self)
        ensures
            *final(self) == (WeekBucket {
                completed: if old(self).completed == 0 {
                    0
                } else {
                    (old(self).completed - 1) as u32
                },
                ..*old(self)
            }),
    {
        if self.completed > 0 {
            self.completed = self.completed - 1;
        }
    }
}

/// Unticking a completion that was just recorded restores the bucket exactly.
pub proof fn lemma_complete_then_uncomplete(bucket: WeekBucket)
    requires
        !bucket.spec_quota_met(),
    ensures
        ({
            let ticked = WeekBucket { completed: (bucket.completed + 1) as u32, ..bucket };
            let unticked = WeekBucket {
                completed: if ticked.completed == 0 {
                    0
                } else {
                    (ticked.completed - 1) as u32
                },
                ..ticked
            };
            unticked == bucket
        }),
{
}

/// A bucket never earns more than it makes available, however many
/// completions it recorded.
pub proof fn lemma_earned_within_available(bucket: WeekBucket)
    requires
        bucket.points_each >= 0,
    ensures
        0 <= bucket.spec_earned_points() <= bucket.spec_available_points(),
{
    let counted = if bucket.completed < bucket.required {
        bucket.completed
    } else {
        bucket.required
    };
    let c = count_as_i32(counted as int);
    let r = count_as_i32(bucket.required as int);
    let p = bucket.points_each as int;
    assert(0 <= c <= r);
    assert(0 <= p * c <= p * r) by (nonlinear_arith)
        requires
            0 <= c <= r,
            0 <= p,
    ;
}

/// The week's earned points depend only on how many sessions were done, never
/// on which days: the same number of completions yields the same bucket.
pub proof fn lemma_bucket_depends_only_on_count(a: WeekBucket, b: WeekBucket)
    requires
        a.required == b.required,
        a.points_each == b.points_each,
        a.completed == b.completed,
    ensures
        a.spec_earned_points() == b.spec_earned_points(),
        a.spec_available_points() == b.spec_available_points(),
        a.spec_quota_met() == b.spec_quota_met(),
{
}

/// One materialised task instance, as far as scoring is concerned.
#[derive(Clone, Copy, Debug, PartialEq, Eq, Structural)]
pub struct InstancePoints {
    pub points: i32,
    pub is_floating: bool,
}

/// The sum of the points of the non-floating instances.
pub open spec fn spec_day_points(instances: Seq<InstancePoints>) -> int
    decreases instances.len(),
{
    if instances.len() == 0 {
        0
    } else {
        let last = instances.last();
        spec_day_points(instances.drop_last()) + if last.is_floating {
            0
        } else {
            last.points as int
        }
    }
}

/// Every running total of the day's points fits in an `i32`.
pub open spec fn day_points_fit(instances: Seq<InstancePoints>) -> bool {
    forall|k: int|
        0 <= k <= instances.len() ==> i32::MIN <= #[trigger] spec_day_points(instances.take(k))
            <= i32::MAX
}

/// A day's available points. Floating tasks are excluded, so an untouched
/// floating task can never drag a day's score down.
pub fn day_available_points(instances: &[InstancePoints]) -> (points: i32)
    requires
        day_points_fit(instances@),
    ensures
        points == spec_day_points(instances@),
{
    let mut total: i32 = 0;
    let mut i: usize = 0;
    while i < instances.len()
        invariant
            i <= instances.len(),
            day_points_fit(instances@),
            total == spec_day_points(instances@.take(i as int)),
        decreases instances.len() - i,
    {
        let instance = instances[i];
        assert(instances@.take(i + 1).drop_last() == instances@.take(i as int));
        assert(i32::MIN <= spec_day_points(instances@.take(i + 1)) <= i32::MAX);
        if !instance.is_floating {
            total = total + instance.points;
        }
        i += 1;
    }
    assert(instances@.take(instances.len() as int) == instances@);
    total
}

/// A day's earned points, on the same basis as its available points.
pub fn day_earned_points(completed: &[InstancePoints]) -> (points: i32)
    requires
        day_points_fit(completed@),
    ensures
        points == spec_day_points(completed@),
{
    day_available_points(completed)
}

} // verus!
