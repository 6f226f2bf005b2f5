//! Starting a session and applying a batch of offline changes: the defaults a
//! new user gets, the standing tasks they start with, the order changes are
//! applied in, and the days they touched.
use vstd::prelude::*;
use crate::order::{insert_sorted, lemma_insert_at, sort_by};
use crate::scoring::{spec_task_points, task_points};
use crate::text::trim;

verus! {

broadcast use vstd::string::group_string_axioms;

/// The time zone a new user starts in when none is given.
pub open spec fn default_timezone() -> Seq<char> {
    "Africa/Lagos"@
}

/// The name a new user goes by when none is given.
pub open spec fn default_display_name() -> Seq<char> {
    "Dapper"@
}

pub open spec fn given_or(value: Option<Seq<char>>, fallback: Seq<char>) -> Seq<char> {
    match value {
        Some(v) => if trim(v).len() > 0 { v } else { fallback },
        None => fallback,
    }
}

fn given_or_default(value: Option<&str>, fallback: &str) -> (chosen: String)
    ensures
        chosen@ == given_or(
            match value {
                Some(v) => Some(v@),
                None => None,
            },
            fallback@,
        ),
{
    match value {
        Some(v) => {
            let chars = crate::text::chars_of(v);
            let (a, b) = crate::text::trim_bounds(chars.as_slice());
            if a < b {
                v.to_owned()
            } else {
                fallback.to_owned()
            }
        },
        None => fallback.to_owned(),
    }
}

/// A new user's time zone and display name: what they gave, unless it is
/// blank.
pub fn session_defaults(timezone: Option<&str>, display_name: Option<&str>) -> (chosen: (String, String))
    ensures
        chosen.0@ == given_or(
            match timezone {
                Some(v) => Some(v@),
                None => None,
            },
            default_timezone(),
        ),
        chosen.1@ == given_or(
            match display_name {
                Some(v) => Some(v@),
                None => None,
            },
            default_display_name(),
        ),
{
    (given_or_default(timezone, "Africa/Lagos"), given_or_default(display_name, "Dapper"))
}

/// A standing task every new user starts with.
#[derive(Clone, Copy, Debug, PartialEq, Eq)]
pub struct SeedTemplate {
    pub position: i32,
    pub title: &'static str,
    pub minutes: u16,
    pub points: i32,
}

/// Taking vitamins and ten minutes of meditation, both daily and of the
/// lowest difficulty.
pub fn standing_seed() -> (seed: Vec<SeedTemplate>)
    ensures
        seed@.len() == 2,
        seed@[0].position == 1 && seed@[0].title@ == "Take vitamins"@ && seed@[0].minutes == 5 && seed@[0].points
            == spec_task_points(1, 5),
        seed@[1].position == 2 && seed@[1].title@ == "Meditate for 10 minutes"@ && seed@[1].minutes == 10
            && seed@[1].points == spec_task_points(1, 10),
{
    let mut seed: Vec<SeedTemplate> = Vec::new();
    seed.push(SeedTemplate { position: 1, title: "Take vitamins", minutes: 5, points: task_points(1, 5) });
    seed.push(SeedTemplate { position: 2, title: "Meditate for 10 minutes", minutes: 10, points: task_points(1, 10) });
    seed
}

/// When a change was made on the client: seconds, then nanoseconds.
pub type ClientTime = (i64, u32);

pub open spec fn time_le(a: ClientTime, b: ClientTime) -> bool {
    a.0 < b.0 || (a.0 == b.0 && a.1 <= b.1)
}

pub open spec fn stamp_order() -> spec_fn((ClientTime, usize), (ClientTime, usize)) -> bool {
    |a: (ClientTime, usize), b: (ClientTime, usize)| time_le(a.0, b.0)
}

/// The order offline changes are applied in: by client time, changes made at
/// the same moment in the order they were sent.
pub open spec fn spec_apply_order(stamps: Seq<ClientTime>) -> Seq<usize> {
    sort_by(Seq::new(stamps.len(), |i: int| (stamps[i], i as usize)), stamp_order()).map_values(
        |k: (ClientTime, usize)| k.1,
    )
}

fn insert_stamp(v: &mut Vec<(ClientTime, usize)>, x: (ClientTime, usize))
    ensures
        final(v)@ == insert_sorted(old(v)@, x, stamp_order()),
{
    let ghost le = stamp_order();
    let mut pos = v.len();
    let mut done = false;
    while pos > 0 && !done
        invariant
            pos <= v.len(),
            le == stamp_order(),
            forall|j: int| pos <= j < v.len() ==> !le(#[trigger] v@[j], x),
            done ==> pos > 0 && le(v@[pos - 1], x),
        decreases pos + if done { 0int } else { 1int },
    {
        let (t, _) = v[pos - 1];
        if t.0 < x.0.0 || (t.0 == x.0.0 && t.1 <= x.0.1) {
            done = true;
        } else {
            pos -= 1;
        }
    }
    proof {
        lemma_insert_at(v@, x, le, pos as int);
    }
    v.insert(pos, x);
    assert(v@ == old(v)@.take(pos as int) + seq![x] + old(v)@.skip(pos as int));
}

/// The positions of the changes in the order they are applied.
pub fn apply_order(stamps: &[ClientTime]) -> (order: Vec<usize>)
    ensures
        order@ == spec_apply_order(stamps@),
{
    let ghost base = Seq::new(stamps@.len(), |i: int| (stamps@[i], i as usize));
    let mut keys: Vec<(ClientTime, usize)> = Vec::new();
    let mut i: usize = 0;
    while i < stamps.len()
        invariant
            i <= stamps@.len(),
            base == Seq::new(stamps@.len(), |i: int| (stamps@[i], i as usize)),
            keys@ == sort_by(base.take(i as int), stamp_order()),
        decreases stamps.len() - i,
    {
        assert(base.take(i + 1).drop_last() == base.take(i as int));
        assert(base.take(i + 1).last() == base[i as int]);
        insert_stamp(&mut keys, (stamps[i], i));
        i += 1;
    }
    assert(base.take(stamps@.len() as int) == base);
    let mut order: Vec<usize> = Vec::new();
    let mut k: usize = 0;
    while k < keys.len()
        invariant
            k <= keys@.len(),
            order@ == keys@.take(k as int).map_values(|x: (ClientTime, usize)| x.1),
        decreases keys.len() - k,
    {
        order.push(keys[k].1);
        assert(keys@.take(k + 1).map_values(|x: (ClientTime, usize)| x.1) =~= keys@.take(k as int).map_values(
            |x: (ClientTime, usize)| x.1,
        ).push(keys@[k as int].1));
        k += 1;
    }
    assert(keys@.take(keys@.len() as int) == keys@);
    order
}

pub open spec fn strictly_increasing(s: Seq<u128>) -> bool {
    forall|i: int, j: int| 0 <= i < j < s.len() ==> s[i] < s[j]
}

/// The days a batch touched, each once, in ascending order of id.
pub fn affected_days(days: &[u128]) -> (unique: Vec<u128>)
    ensures
        strictly_increasing(unique@),
        forall|x: u128| unique@.contains(x) <==> days@.contains(x),
{
    let mut unique: Vec<u128> = Vec::new();
    let mut i: usize = 0;
    while i < days.len()
        invariant
            i <= days@.len(),
            strictly_increasing(unique@),
            forall|x: u128| unique@.contains(x) <==> days@.take(i as int).contains(x),
        decreases days.len() - i,
    {
        let x = days[i];
        let ghost before = unique@;
        assert(days@.take(i + 1) == days@.take(i as int).push(x));
        let mut pos = unique.len();
        let mut found = false;
        while pos > 0 && !found && unique[pos - 1] >= x
            invariant
                pos <= unique@.len(),
                unique@ == before,
                strictly_increasing(before),
                forall|j: int| pos <= j < before.len() ==> before[j] > x,
                found ==> pos > 0 && before[pos - 1] == x,
            decreases pos + if found { 0int } else { 1int },
        {
            if unique[pos - 1] == x {
                found = true;
            } else {
                pos -= 1;
            }
        }
        if !found {
            unique.insert(pos, x);
            proof {
                assert(unique@ == before.take(pos as int) + seq![x] + before.skip(pos as int));
                if pos > 0 {
                    assert(before[pos - 1] < x);
                }
                assert forall|a: int, b: int| 0 <= a < b < unique@.len() implies unique@[a] < unique@[b] by {
                    if b < pos {
                    } else if b == pos {
                        if a < pos - 1 {
                            assert(before[a] < before[pos - 1]);
                        }
                    } else if a < pos {
                        assert(unique@[b] == before[b - 1]);
                        if a < pos - 1 && pos > 0 {
                            assert(before[a] < before[b - 1]);
                        }
                    } else if a == pos {
                        assert(unique@[b] == before[b - 1]);
                    } else {
                        assert(unique@[a] == before[a - 1] && unique@[b] == before[b - 1]);
                    }
                }
                let t1 = days@.take(i + 1);
                let t0 = days@.take(i as int);
                assert forall|y: u128| unique@.contains(y) <==> t1.contains(y) by {
                    if unique@.contains(y) {
                        let k = choose|k: int| 0 <= k < unique@.len() && unique@[k] == y;
                        if k < pos {
                            assert(before[k] == y);
                            assert(before.contains(y));
                        } else if k > pos {
                            assert(before[k - 1] == y);
                            assert(before.contains(y));
                        }
                        if before.contains(y) {
                            let m = choose|m: int| 0 <= m < t0.len() && t0[m] == y;
                            assert(t1[m] == y);
                        } else {
                            assert(y == x);
                            assert(t1[i as int] == x);
                        }
                    }
                    if t1.contains(y) {
                        let m = choose|m: int| 0 <= m < t1.len() && t1[m] == y;
                        if m < i {
                            assert(t0[m] == y);
                            assert(before.contains(y));
                            let k = choose|k: int| 0 <= k < before.len() && before[k] == y;
                            if k < pos {
                                assert(unique@[k] == y);
                            } else {
                                assert(unique@[k + 1] == y);
                            }
                        } else {
                            assert(y == x);
                            assert(unique@[pos as int] == x);
                        }
                    }
                }
            }
        } else {
            assert(before.contains(x));
            assert forall|y: u128| unique@.contains(y) <==> days@.take(i + 1).contains(y) by {
                let t1 = days@.take(i + 1);
                let t0 = days@.take(i as int);
                if t1.contains(y) {
                    let m = choose|m: int| 0 <= m < t1.len() && t1[m] == y;
                    if m < i {
                        assert(t0[m] == y);
                    }
                }
                if unique@.contains(y) {
                    assert(t0.contains(y));
                    let m = choose|m: int| 0 <= m < t0.len() && t0[m] == y;
                    assert(t1[m] == y);
                }
            }
        }
        i += 1;
    }
    assert(days@.take(days@.len() as int) == days@);
    unique
}

} // verus!
