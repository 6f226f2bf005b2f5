//! What the database stores, as plain values, and the few decisions made
//! directly on stored rows.
use vstd::prelude::*;
use crate::time::LocalDate;
use crate::weekly::WeekBucket;

verus! {

/// `uuid::Uuid`, declared so that rows can carry ids through unchanged;
/// nothing inside an id is read.
#[verifier::external_type_specification]
#[verifier::external_body]
pub struct ExUuid(uuid::Uuid);

#[derive(Clone, Copy, Debug, PartialEq, Eq, Structural)]
pub enum ProgramKind {
    Curriculum,
    Routine,
    Project,
    Standing,
}

#[derive(Clone, Copy, Debug, PartialEq, Eq, Structural)]
pub enum Intensity {
    Light,
    Standard,
    Heavy,
}

#[derive(Clone, Copy, Debug, PartialEq, Eq, Structural)]
pub enum EnrollmentStatus {
    Active,
    Paused,
    Completed,
    Abandoned,
}

#[derive(Clone, Copy, Debug, PartialEq, Eq, Structural)]
pub enum DayStatus {
    Open,
    Complete,
    Partial,
    Missed,
    Rest,
    Frozen,
}

#[derive(Clone, Copy, Debug, PartialEq, Eq, Structural)]
pub enum StreakState {
    Active,
    AtRisk,
    Repairable,
    Broken,
}

#[derive(Clone, Copy, Debug, PartialEq, Eq, Structural)]
pub enum PushProvider {
    Expo,
}

#[derive(Clone, Copy, Debug, PartialEq, Eq, Structural)]
pub enum DevicePlatform {
    Ios,
    Android,
    Web,
}

/// How a queued job is retried.
#[derive(Clone, Copy, Debug, PartialEq, Eq, Structural)]
pub struct JobRetryPolicy {
    pub max_attempts: i32,
    pub delay_seconds: i64,
}

impl Default for JobRetryPolicy {
    /// Three attempts, a minute apart.
    fn default() -> (policy: Self)
        ensures
            policy == (JobRetryPolicy { max_attempts: 3, delay_seconds: 60 }),
    {
        JobRetryPolicy { max_attempts: 3, delay_seconds: 60 }
    }
}

#[derive(Clone, Copy, Debug, PartialEq, Eq, Structural)]
pub enum RegisterDevicePlatform {
    Ios,
    Android,
    Web,
}

impl RegisterDevicePlatform {
    /// The stored spelling of the platform.
    pub fn as_db_value(self) -> (value: &'static str)
        ensures
            value@ == (match self {
                RegisterDevicePlatform::Ios => "ios"@,
                RegisterDevicePlatform::Android => "android"@,
                RegisterDevicePlatform::Web => "web"@,
            }),
    {
        match self {
            RegisterDevicePlatform::Ios => "ios",
            RegisterDevicePlatform::Android => "android",
            RegisterDevicePlatform::Web => "web",
        }
    }
}

/// The big-endian value of the first eight bytes, as two's complement.
pub open spec fn be_prefix(bytes: Seq<u8>, n: int) -> int
    decreases n,
{
    if n <= 0 {
        0
    } else {
        be_prefix(bytes, n - 1) * 256 + bytes[n - 1]
    }
}

/// `256` to the power `n`.
pub open spec fn byte_span(n: int) -> int
    decreases n,
{
    if n <= 0 {
        1
    } else {
        byte_span(n - 1) * 256
    }
}

proof fn lemma_be_prefix_bound(bytes: Seq<u8>, n: int)
    requires
        0 <= n <= bytes.len(),
    ensures
        0 <= be_prefix(bytes, n) < byte_span(n),
    decreases n,
{
    if n > 0 {
        lemma_be_prefix_bound(bytes, n - 1);
        let p = be_prefix(bytes, n - 1);
        let b = bytes[n - 1];
        let c = byte_span(n - 1);
        assert(0 <= p * 256 + b < c * 256) by (nonlinear_arith)
            requires
                0 <= p < c,
                0 <= b < 256,
        ;
    }
}

/// The key the per-enrollment advisory lock is taken under: the first eight
/// bytes of the enrollment's identifier, read as a big-endian signed integer.
pub fn advisory_lock_key(enrollment_id: [u8; 16]) -> (key: i64)
    ensures
        key == (#[verifier::truncate] (be_prefix(enrollment_id@, 8) as i64)),
{
    let mut acc: u64 = 0;
    let mut i: usize = 0;
    assert(byte_span(7) == 0x100000000000000) by {
        reveal_with_fuel(byte_span, 8);
    }
    while i < 8
        invariant
            i <= 8,
            enrollment_id@.len() == 16,
            acc == be_prefix(enrollment_id@, i as int),
            byte_span(7) == 0x100000000000000,
        decreases 8 - i,
    {
        proof {
            lemma_be_prefix_bound(enrollment_id@, i as int);
            lemma_byte_span_grows(i as int, 7);
        }
        assert(acc * 256 + enrollment_id@[i as int] <= u64::MAX) by (nonlinear_arith)
            requires
                acc < 0x100000000000000,
                enrollment_id@[i as int] < 256,
        ;
        acc = acc * 256 + enrollment_id[i] as u64;
        i += 1;
    }
    #[verifier::truncate]
    (acc as i64)
}

proof fn lemma_byte_span_grows(a: int, b: int)
    requires
        0 <= a <= b,
    ensures
        byte_span(a) <= byte_span(b),
    decreases b - a,
{
    if a < b {
        lemma_byte_span_grows(a, b - 1);
        assert(byte_span(b - 1) >= 1) by {
            lemma_byte_span_positive(b - 1);
        }
    }
}

proof fn lemma_byte_span_positive(n: int)
    ensures
        byte_span(n) >= 1,
    decreases n,
{
    if n > 0 {
        lemma_byte_span_positive(n - 1);
    }
}

/// A stored weekly quota bucket.
pub struct WeekBucketRow {
    pub enrollment_id: uuid::Uuid,
    pub iso_year: i32,
    pub iso_week: i32,
    pub template_id: uuid::Uuid,
    pub required: i32,
    pub completed: i32,
    pub points_each: i32,
}

impl WeekBucketRow {
    /// Lift a stored row into the domain type. The columns are plain
    /// integers, so a negative one reads as zero rather than wrapping.
    pub fn to_domain(&self) -> (bucket: WeekBucket)
        ensures
            bucket == (WeekBucket {
                required: if self.required < 0 { 0 } else { self.required as u32 },
                completed: if self.completed < 0 { 0 } else { self.completed as u32 },
                points_each: self.points_each,
            }),
    {
        WeekBucket {
            required: if self.required < 0 { 0 } else { self.required as u32 },
            completed: if self.completed < 0 { 0 } else { self.completed as u32 },
            points_each: self.points_each,
        }
    }
}

/// A stored streak.
pub struct StreakStateRow {
    pub enrollment_id: uuid::Uuid,
    pub current: i32,
    pub longest: i32,
    pub freezes: i16,
    pub clean_run: i16,
    pub last_counted_date: Option<LocalDate>,
    pub repair_used_month: Option<LocalDate>,
    pub state: StreakState,
}

/// A streak as it is written back.
pub struct NewStreakState {
    pub enrollment_id: uuid::Uuid,
    pub current: i32,
    pub longest: i32,
    pub freezes: i16,
    pub clean_run: i16,
    pub last_counted_date: Option<LocalDate>,
    pub repair_used_month: Option<LocalDate>,
    pub state: StreakState,
}

/// What a stored idempotency key says about a request.
#[derive(Clone, Copy, Debug, PartialEq, Eq, Structural)]
pub enum IdempotencyDecision {
    /// No live key: handle the request.
    Missing,
    /// The same request was handled: answer as before.
    Replay,
    /// The key was used for a different request.
    Conflict,
}

/// A live key replays only the request it was stored for.
pub fn idempotency_decision(stored_hash: Option<&[u8]>, request_hash: &[u8]) -> (decision: IdempotencyDecision)
    ensures
        decision == (match stored_hash {
            None => IdempotencyDecision::Missing,
            Some(h) => if h@ == request_hash@ { IdempotencyDecision::Replay } else { IdempotencyDecision::Conflict },
        }),
{
    let h = match stored_hash {
        None => {
            return IdempotencyDecision::Missing;
        },
        Some(h) => h,
    };
    if h.len() != request_hash.len() {
        assert(h@.len() != request_hash@.len());
        return IdempotencyDecision::Conflict;
    }
    let mut i: usize = 0;
    while i < h.len()
        invariant
            i <= h@.len(),
            stored_hash == Some(h),
            h@.len() == request_hash@.len(),
            forall|j: int| 0 <= j < i ==> h@[j] == request_hash@[j],
        decreases h.len() - i,
    {
        if h[i] != request_hash[i] {
            assert(h@[i as int] != request_hash@[i as int]);
            return IdempotencyDecision::Conflict;
        }
        i += 1;
    }
    assert(h@ =~= request_hash@);
    IdempotencyDecision::Replay
}

} // verus!
