//! Which reminders a user is due, what each says, and how a delivery plan
//! turns into the events that are stored.
use vstd::prelude::*;
use crate::notify::{plan, spec_plan, local_seconds_of, Candidate, Dropped, NotificationKind, Plan, QuietHours, Timed};
use crate::text::{append, push_decimal_i64, signed_decimal};
use crate::time::{local_clock, local_clock_of, TimeZone};

verus! {

broadcast use vstd::string::group_string_axioms;

/// Whether a reminder scheduled at `scheduled` is due at `local`, both in
/// seconds since local midnight: from the scheduled moment on, for less than
/// `window` seconds.
pub open spec fn spec_due_now(local: u32, scheduled: u32, window: i64) -> bool {
    let delta = local as int - scheduled as int;
    delta >= 0 && delta < window
}

pub fn due_now(local: u32, scheduled: u32, window: i64) -> (due: bool)
    ensures
        due == spec_due_now(local, scheduled, window),
{
    let delta: i64 = local as i64 - scheduled as i64;
    delta >= 0 && delta < window
}

/// Quiet hours exist only when both ends are set.
pub fn quiet_hours(start: Option<u32>, end: Option<u32>) -> (quiet: Option<QuietHours>)
    ensures
        quiet == (match (start, end) {
            (Some(s), Some(e)) => Some(QuietHours { start: s, end: e }),
            _ => None,
        }),
{
    match (start, end) {
        (Some(s), Some(e)) => Some(QuietHours { start: s, end: e }),
        _ => None,
    }
}

pub open spec fn spec_kind_value(kind: NotificationKind) -> Seq<char> {
    match kind {
        NotificationKind::RepairAvailable => "repair_available"@,
        NotificationKind::StreakAtRisk => "streak_at_risk"@,
        NotificationKind::MorningCard => "morning_card"@,
        NotificationKind::EveningCheckIn => "evening_check_in"@,
        NotificationKind::StandingDrift => "standing_drift"@,
        NotificationKind::CohortPulse => "cohort_pulse"@,
    }
}

/// The stored spelling of a notification kind.
pub fn kind_value(kind: NotificationKind) -> (value: &'static str)
    ensures
        value@ == spec_kind_value(kind),
{
    match kind {
        NotificationKind::RepairAvailable => "repair_available",
        NotificationKind::StreakAtRisk => "streak_at_risk",
        NotificationKind::MorningCard => "morning_card",
        NotificationKind::EveningCheckIn => "evening_check_in",
        NotificationKind::StandingDrift => "standing_drift",
        NotificationKind::CohortPulse => "cohort_pulse",
    }
}

pub open spec fn spec_drop_reason(reason: Dropped) -> Seq<char> {
    match reason {
        Dropped::QuietHours => "quiet_hours"@,
        Dropped::DailyCapReached => "daily_cap_reached"@,
        Dropped::ComposedIntoAnother => "composed_into_another"@,
    }
}

/// The stored spelling of why a reminder was dropped.
pub fn drop_reason(reason: Dropped) -> (value: &'static str)
    ensures
        value@ == spec_drop_reason(reason),
{
    match reason {
        Dropped::QuietHours => "quiet_hours",
        Dropped::DailyCapReached => "daily_cap_reached",
        Dropped::ComposedIntoAnother => "composed_into_another",
    }
}

/// The numbers a reminder carries for the client.
#[derive(Clone, Copy, Debug, PartialEq, Eq, Structural)]
pub struct EventPayload {
    pub remaining_tasks: Option<i64>,
    pub at_risk_streaks: Option<i64>,
    pub repairable_enrollments: Option<i64>,
}

/// A reminder before delivery planning.
#[derive(Clone, Debug, PartialEq, Eq)]
pub struct EventDraft {
    pub kind: NotificationKind,
    pub at: i64,
    pub title: &'static str,
    pub body: String,
    pub payload: EventPayload,
}

pub struct EventDraftView {
    pub kind: NotificationKind,
    pub at: i64,
    pub title: Seq<char>,
    pub body: Seq<char>,
    pub payload: EventPayload,
}

impl View for EventDraft {
    type V = EventDraftView;

    open spec fn view(&self) -> EventDraftView {
        EventDraftView { kind: self.kind, at: self.at, title: self.title@, body: self.body@, payload: self.payload }
    }
}

pub open spec fn morning_body(remaining: i64) -> Seq<char> {
    if remaining == 1 {
        "1 task waiting today"@
    } else {
        signed_decimal(remaining as int) + " tasks waiting today"@
    }
}

pub open spec fn evening_body(remaining: i64, at_risk: i64) -> Seq<char> {
    if at_risk > 0 {
        "A streak is at risk. Finish what matters."@
    } else if remaining == 0 {
        "Today is logged."@
    } else if remaining == 1 {
        "1 task left today"@
    } else {
        signed_decimal(remaining as int) + " tasks left today"@
    }
}

pub open spec fn spec_morning(at: i64, remaining: i64) -> EventDraftView {
    EventDraftView {
        kind: NotificationKind::MorningCard,
        at,
        title: "Today"@,
        body: morning_body(remaining),
        payload: EventPayload { remaining_tasks: Some(remaining), at_risk_streaks: None, repairable_enrollments: None },
    }
}

pub open spec fn spec_evening(at: i64, remaining: i64, at_risk: i64) -> EventDraftView {
    EventDraftView {
        kind: NotificationKind::EveningCheckIn,
        at,
        title: "Check in"@,
        body: evening_body(remaining, at_risk),
        payload: EventPayload {
            remaining_tasks: Some(remaining),
            at_risk_streaks: Some(at_risk),
            repairable_enrollments: None,
        },
    }
}

pub open spec fn spec_at_risk(at: i64, count: i64) -> EventDraftView {
    EventDraftView {
        kind: NotificationKind::StreakAtRisk,
        at,
        title: "Streak at risk"@,
        body: "Finish enough today to protect it."@,
        payload: EventPayload { remaining_tasks: None, at_risk_streaks: Some(count), repairable_enrollments: None },
    }
}

pub open spec fn spec_repair(at: i64, count: i64) -> EventDraftView {
    EventDraftView {
        kind: NotificationKind::RepairAvailable,
        at,
        title: "Repair available"@,
        body: "A missed day can still be repaired today."@,
        payload: EventPayload { remaining_tasks: None, at_risk_streaks: None, repairable_enrollments: Some(count) },
    }
}

impl EventDraft {
    /// The morning card: how much is waiting today.
    pub fn morning(at: i64, remaining: i64) -> (draft: EventDraft)
        ensures
            draft@ == spec_morning(at, remaining),
    {
        let mut body = String::new();
        if remaining == 1 {
            append(&mut body, "1 task waiting today");
        } else {
            push_decimal_i64(&mut body, remaining);
            append(&mut body, " tasks waiting today");
        }
        EventDraft {
            kind: NotificationKind::MorningCard,
            at,
            title: "Today",
            body,
            payload: EventPayload { remaining_tasks: Some(remaining), at_risk_streaks: None, repairable_enrollments: None },
        }
    }

    /// The evening check-in: a streak at risk comes first, then what is
    /// left.
    pub fn evening(at: i64, remaining: i64, at_risk: i64) -> (draft: EventDraft)
        ensures
            draft@ == spec_evening(at, remaining, at_risk),
    {
        let mut body = String::new();
        if at_risk > 0 {
            append(&mut body, "A streak is at risk. Finish what matters.");
        } else if remaining == 0 {
            append(&mut body, "Today is logged.");
        } else if remaining == 1 {
            append(&mut body, "1 task left today");
        } else {
            push_decimal_i64(&mut body, remaining);
            append(&mut body, " tasks left today");
        }
        EventDraft {
            kind: NotificationKind::EveningCheckIn,
            at,
            title: "Check in",
            body,
            payload: EventPayload {
                remaining_tasks: Some(remaining),
                at_risk_streaks: Some(at_risk),
                repairable_enrollments: None,
            },
        }
    }

    pub fn at_risk(at: i64, count: i64) -> (draft: EventDraft)
        ensures
            draft@ == spec_at_risk(at, count),
    {
        let mut body = String::new();
        append(&mut body, "Finish enough today to protect it.");
        EventDraft {
            kind: NotificationKind::StreakAtRisk,
            at,
            title: "Streak at risk",
            body,
            payload: EventPayload { remaining_tasks: None, at_risk_streaks: Some(count), repairable_enrollments: None },
        }
    }

    pub fn repair(at: i64, count: i64) -> (draft: EventDraft)
        ensures
            draft@ == spec_repair(at, count),
    {
        let mut body = String::new();
        append(&mut body, "A missed day can still be repaired today.");
        EventDraft {
            kind: NotificationKind::RepairAvailable,
            at,
            title: "Repair available",
            body,
            payload: EventPayload { remaining_tasks: None, at_risk_streaks: None, repairable_enrollments: Some(count) },
        }
    }
}

/// What a user has set up for reminders, times in seconds since local
/// midnight.
#[derive(Clone, Copy, Debug, PartialEq, Eq, Structural)]
pub struct ReminderSettings {
    pub morning_at: u32,
    pub evening_at: u32,
    pub quiet_start: Option<u32>,
    pub quiet_end: Option<u32>,
}

/// Reminders are due for a quarter of an hour from their scheduled time.
pub const DUE_WINDOW_SECONDS: i64 = 900;

/// The reminders a user is due now: the morning card in its window, the
/// evening check-in in its window (with a streak-at-risk alert when one is),
/// and a repair offer whenever one is open.
pub open spec fn spec_drafts(
    now: i64,
    local: u32,
    settings: ReminderSettings,
    remaining: i64,
    at_risk: i64,
    repairable: i64,
) -> Seq<EventDraftView> {
    let morning = if spec_due_now(local, settings.morning_at, DUE_WINDOW_SECONDS) {
        seq![spec_morning(now, remaining)]
    } else {
        Seq::<EventDraftView>::empty()
    };
    let evening = if spec_due_now(local, settings.evening_at, DUE_WINDOW_SECONDS) {
        if at_risk > 0 {
            seq![spec_evening(now, remaining, at_risk), spec_at_risk(now, at_risk)]
        } else {
            seq![spec_evening(now, remaining, at_risk)]
        }
    } else {
        Seq::<EventDraftView>::empty()
    };
    let repair = if repairable > 0 { seq![spec_repair(now, repairable)] } else { Seq::<EventDraftView>::empty() };
    morning + evening + repair
}

pub open spec fn draft_views(v: Seq<EventDraft>) -> Seq<EventDraftView> {
    v.map_values(|d: EventDraft| d@)
}

pub fn drafts_for(now: i64, local: u32, settings: ReminderSettings, remaining: i64, at_risk: i64, repairable: i64) -> (drafts: Vec<
    EventDraft,
>)
    ensures
        draft_views(drafts@) == spec_drafts(now, local, settings, remaining, at_risk, repairable),
{
    let mut drafts: Vec<EventDraft> = Vec::new();
    if due_now(local, settings.morning_at, DUE_WINDOW_SECONDS) {
        drafts.push(EventDraft::morning(now, remaining));
    }
    let ghost m = draft_views(drafts@);
    if due_now(local, settings.evening_at, DUE_WINDOW_SECONDS) {
        drafts.push(EventDraft::evening(now, remaining, at_risk));
        if at_risk > 0 {
            drafts.push(EventDraft::at_risk(now, at_risk));
        }
    }
    let ghost me = draft_views(drafts@);
    if repairable > 0 {
        drafts.push(EventDraft::repair(now, repairable));
    }
    let ghost spec_m = if spec_due_now(local, settings.morning_at, DUE_WINDOW_SECONDS) {
        seq![spec_morning(now, remaining)]
    } else {
        Seq::<EventDraftView>::empty()
    };
    assert(m =~= spec_m);
    assert(draft_views(drafts@) =~= spec_drafts(now, local, settings, remaining, at_risk, repairable));
    drafts
}

/// A stored notification event.
#[derive(Clone, Debug, PartialEq, Eq)]
pub struct EventRecord {
    pub kind: &'static str,
    pub scheduled_at: i64,
    pub title: &'static str,
    pub body: String,
    pub payload: EventPayload,
    pub status: &'static str,
    pub skipped_reason: Option<&'static str>,
}

pub struct EventRecordView {
    pub kind: Seq<char>,
    pub scheduled_at: i64,
    pub title: Seq<char>,
    pub body: Seq<char>,
    pub payload: EventPayload,
    pub status: Seq<char>,
    pub skipped_reason: Option<Seq<char>>,
}

impl View for EventRecord {
    type V = EventRecordView;

    open spec fn view(&self) -> EventRecordView {
        EventRecordView {
            kind: self.kind@,
            scheduled_at: self.scheduled_at,
            title: self.title@,
            body: self.body@,
            payload: self.payload,
            status: self.status@,
            skipped_reason: match self.skipped_reason {
                Some(r) => Some(r@),
                None => None,
            },
        }
    }
}

/// The first draft of a kind.
pub open spec fn draft_of_kind(drafts: Seq<EventDraftView>, kind: NotificationKind) -> Option<EventDraftView>
    decreases drafts.len(),
{
    if drafts.len() == 0 {
        None
    } else if drafts[0].kind == kind {
        Some(drafts[0])
    } else {
        draft_of_kind(drafts.drop_first(), kind)
    }
}

pub open spec fn record_of(d: EventDraftView, status: Seq<char>, reason: Option<Seq<char>>) -> EventRecordView {
    EventRecordView {
        kind: spec_kind_value(d.kind),
        scheduled_at: d.at,
        title: d.title,
        body: d.body,
        payload: d.payload,
        status,
        skipped_reason: reason,
    }
}

/// The queued events for what is sent, each from the first draft of its kind.
pub open spec fn queued_records(drafts: Seq<EventDraftView>, send: Seq<Candidate>) -> Seq<EventRecordView>
    decreases send.len(),
{
    if send.len() == 0 {
        Seq::<EventRecordView>::empty()
    } else {
        let prev = queued_records(drafts, send.drop_last());
        match draft_of_kind(drafts, send.last().kind) {
            Some(d) => prev.push(record_of(d, "queued"@, None)),
            None => prev,
        }
    }
}

/// The skipped events for what was dropped, with the reason.
pub open spec fn skipped_records(drafts: Seq<EventDraftView>, dropped: Seq<(Candidate, Dropped)>) -> Seq<EventRecordView>
    decreases dropped.len(),
{
    if dropped.len() == 0 {
        Seq::<EventRecordView>::empty()
    } else {
        let prev = skipped_records(drafts, dropped.drop_last());
        match draft_of_kind(drafts, dropped.last().0.kind) {
            Some(d) => prev.push(record_of(d, "skipped"@, Some(spec_drop_reason(dropped.last().1)))),
            None => prev,
        }
    }
}

pub open spec fn record_views(v: Seq<EventRecord>) -> Seq<EventRecordView> {
    v.map_values(|r: EventRecord| r@)
}

fn find_draft(drafts: &Vec<EventDraft>, kind: NotificationKind) -> (found: Option<usize>)
    ensures
        match found {
            Some(i) => i < drafts@.len() && draft_of_kind(draft_views(drafts@), kind) == Some(drafts@[i as int]@),
            None => draft_of_kind(draft_views(drafts@), kind) is None,
        },
{
    let ghost all = draft_views(drafts@);
    let mut i: usize = 0;
    assert(all.skip(0) == all);
    while i < drafts.len()
        invariant
            i <= drafts@.len(),
            all == draft_views(drafts@),
            draft_of_kind(all.skip(i as int), kind) == draft_of_kind(all, kind),
        decreases drafts.len() - i,
    {
        assert(all.skip(i as int)[0] == drafts@[i as int]@);
        if drafts[i].kind == kind {
            return Some(i);
        }
        assert(all.skip(i as int).drop_first() == all.skip(i + 1));
        i += 1;
    }
    None
}

fn record(d: &EventDraft, status: &'static str, reason: Option<&'static str>) -> (r: EventRecord)
    ensures
        r@ == record_of(
            d@,
            status@,
            match reason {
                Some(x) => Some(x@),
                None => None,
            },
        ),
{
    EventRecord {
        kind: kind_value(d.kind),
        scheduled_at: d.at,
        title: d.title,
        body: d.body.clone(),
        payload: d.payload,
        status,
        skipped_reason: reason,
    }
}

/// The events a delivery plan leaves behind: one queued event for each
/// reminder sent, then one skipped event, with its reason, for each dropped.
pub fn events_for(drafts: &Vec<EventDraft>, planned: &Plan) -> (events: Vec<EventRecord>)
    ensures
        record_views(events@) == queued_records(draft_views(drafts@), planned.send@) + skipped_records(
            draft_views(drafts@),
            planned.dropped@,
        ),
{
    let ghost dv = draft_views(drafts@);
    let mut events: Vec<EventRecord> = Vec::new();
    let mut i: usize = 0;
    while i < planned.send.len()
        invariant
            i <= planned.send@.len(),
            dv == draft_views(drafts@),
            record_views(events@) == queued_records(dv, planned.send@.take(i as int)),
        decreases planned.send.len() - i,
    {
        let ghost before = record_views(events@);
        assert(planned.send@.take(i + 1).drop_last() == planned.send@.take(i as int));
        assert(planned.send@.take(i + 1).last() == planned.send@[i as int]);
        match find_draft(drafts, planned.send[i].kind) {
            Some(k) => {
                let r = record(&drafts[k], "queued", None);
                events.push(r);
                assert(record_views(events@) == before.push(r@));
            },
            None => {},
        }
        i += 1;
    }
    assert(planned.send@.take(planned.send@.len() as int) == planned.send@);
    let ghost queued = record_views(events@);
    let mut j: usize = 0;
    while j < planned.dropped.len()
        invariant
            j <= planned.dropped@.len(),
            dv == draft_views(drafts@),
            record_views(events@) == queued + skipped_records(dv, planned.dropped@.take(j as int)),
        decreases planned.dropped.len() - j,
    {
        let ghost before = record_views(events@);
        assert(planned.dropped@.take(j + 1).drop_last() == planned.dropped@.take(j as int));
        assert(planned.dropped@.take(j + 1).last() == planned.dropped@[j as int]);
        let (candidate, reason) = planned.dropped[j];
        match find_draft(drafts, candidate.kind) {
            Some(k) => {
                let r = record(&drafts[k], "skipped", Some(drop_reason(reason)));
                events.push(r);
                assert(record_views(events@) == before.push(r@));
            },
            None => {},
        }
        j += 1;
    }
    assert(planned.dropped@.take(planned.dropped@.len() as int) == planned.dropped@);
    events
}

fn candidates_of(drafts: &Vec<EventDraft>) -> (candidates: Vec<Candidate>)
    ensures
        candidates@.len() == drafts@.len(),
        forall|k: int| 0 <= k < drafts@.len() ==> (#[trigger] candidates@[k]) == (Candidate { kind: drafts@[k].kind, at: drafts@[k].at }),
{
    let mut candidates: Vec<Candidate> = Vec::new();
    let mut i: usize = 0;
    while i < drafts.len()
        invariant
            i <= drafts@.len(),
            candidates@.len() == i,
            forall|k: int| 0 <= k < i ==> (#[trigger] candidates@[k]) == (Candidate { kind: drafts@[k].kind, at: drafts@[k].at }),
        decreases drafts.len() - i,
    {
        candidates.push(Candidate { kind: drafts[i].kind, at: drafts[i].at });
        i += 1;
    }
    candidates
}

/// Everything stored for one user on one run: the reminders due at the
/// user's local time of day are planned against quiet hours, the daily cap and
/// what was already sent in the last day, and each comes out queued or
/// skipped. `None` when the local clock of `now` in the user's zone lies
/// outside chrono's calendar.
pub fn notifications_for_user(
    now: i64,
    settings: ReminderSettings,
    remaining: i64,
    at_risk: i64,
    repairable: i64,
    zone: &TimeZone,
    already_sent: &[i64],
) -> (events: Option<Vec<EventRecord>>)
    ensures
        match local_clock_of(zone@, now as int) {
            None => events is None,
            Some((_, seconds)) => events matches Some(events) && {
                let drafts = spec_drafts(now, seconds as u32, settings, remaining, at_risk, repairable);
                let quiet = match (settings.quiet_start, settings.quiet_end) {
                    (Some(s), Some(e)) => Some(QuietHours { start: s, end: e }),
                    _ => None,
                };
                let items = Seq::new(
                    drafts.len(),
                    |i: int|
                        (
                            Candidate { kind: drafts[i].kind, at: drafts[i].at },
                            local_seconds_of(zone@, drafts[i].at as int),
                        ),
                );
                let (send, dropped) = spec_plan(items, quiet, already_sent@, Seq::<NotificationKind>::empty());
                &&& drafts.len() == 0 ==> events@.len() == 0
                &&& drafts.len() > 0 ==> record_views(events@) == queued_records(drafts, send)
                    + skipped_records(drafts, dropped)
            },
        },
{
    let local = match local_clock(zone, now) {
        Some((_, seconds)) => seconds,
        None => return None,
    };
    let drafts = drafts_for(now, local, settings, remaining, at_risk, repairable);
    if drafts.len() == 0 {
        return Some(Vec::new());
    }
    let quiet = quiet_hours(settings.quiet_start, settings.quiet_end);
    let candidates = candidates_of(&drafts);
    let none: Vec<NotificationKind> = Vec::new();
    let planned = plan(candidates.as_slice(), quiet, zone, already_sent, none.as_slice());
    let ghost dv = draft_views(drafts@);
    assert(Seq::new(candidates@.len(), |i: int| (candidates@[i], local_seconds_of(zone@, candidates@[i].at as int)))
        =~= Seq::new(
        dv.len(),
        |i: int| (Candidate { kind: dv[i].kind, at: dv[i].at }, local_seconds_of(zone@, dv[i].at as int)),
    ));
    assert(none@ =~= Seq::<NotificationKind>::empty());
    Some(events_for(&drafts, &planned))
}

} // verus!
