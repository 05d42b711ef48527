//! Reconciliation of changed local records with the remote calendar: how a
//! record is projected into a remote event, which remote operations a sync
//! performs, and what the sync records once they have run.
use vstd::prelude::*;

use crate::event::{CalendarEvent, Date, EventId, EventView, ReservationId, TimeOfDay, Timestamp};
use crate::store::{RowView, StoredReservation};

verus! {

/// A start or end of a remote event, always in UTC.
#[derive(Clone, Copy, Debug, PartialEq, Eq, Structural)]
pub enum RemoteTime {
    /// A timed entry at `time` on `date`, with a zero offset.
    Timed { date: Date, time: TimeOfDay },
    /// A whole-day entry.
    AllDay { date: Date },
}

/// The time zone that every projected time is written in.
pub const REMOTE_TIME_ZONE: &'static str = "GMT+00:00";

/// The fields of a remote calendar event that a sync writes.
#[derive(Debug)]
pub struct RemoteEvent {
    pub summary: String,
    pub description: String,
    pub start: RemoteTime,
    pub end: RemoteTime,
    pub location: Option<String>,
}

pub struct RemoteEventView {
    pub summary: Seq<char>,
    pub description: Seq<char>,
    pub start: RemoteTime,
    pub end: RemoteTime,
    pub location: Option<Seq<char>>,
}

impl View for RemoteEvent {
    type V = RemoteEventView;

    open spec fn view(&self) -> RemoteEventView {
        RemoteEventView {
            summary: self.summary@,
            description: self.description@,
            start: self.start,
            end: self.end,
            location: crate::event::opt_str_view(self.location),
        }
    }
}

/// A timed start maps to a timed entry, a start without time to a whole day.
pub open spec fn project_start(e: EventView) -> RemoteTime {
    match e.time_begin {
        Some(t) => RemoteTime::Timed { date: e.date_begin, time: t },
        None => RemoteTime::AllDay { date: e.date_begin },
    }
}

/// Without an explicit end the remote end equals the start; an explicit end
/// is written as it is stored (a date-only end is already exclusive).
pub open spec fn project_end(e: EventView) -> RemoteTime {
    match e.date_end {
        None => project_start(e),
        Some(d) => match e.time_end {
            Some(t) => RemoteTime::Timed { date: d, time: t },
            None => RemoteTime::AllDay { date: d },
        },
    }
}

/// The detail, followed by the url on a line of its own when there is one.
pub open spec fn project_description(e: EventView) -> Seq<char> {
    match e.url {
        Some(u) => e.detail + seq!['\n'] + u,
        None => e.detail,
    }
}

pub open spec fn project(e: EventView) -> RemoteEventView {
    RemoteEventView {
        summary: e.title,
        description: project_description(e),
        start: project_start(e),
        end: project_end(e),
        location: e.location,
    }
}

fn start_of(e: &CalendarEvent) -> (r: RemoteTime)
    ensures
        r == project_start(e@),
{
    match e.time_begin {
        Some(t) => RemoteTime::Timed { date: e.date_begin, time: t },
        None => RemoteTime::AllDay { date: e.date_begin },
    }
}

/// The remote event that mirrors a local record.
pub fn to_remote_event(e: &CalendarEvent) -> (r: RemoteEvent)
    ensures
        r@ == project(e@),
{
    let start = start_of(e);
    let end = match e.date_end {
        None => start,
        Some(d) => match e.time_end {
            Some(t) => RemoteTime::Timed { date: d, time: t },
            None => RemoteTime::AllDay { date: d },
        },
    };
    let mut description = e.detail.clone();
    match &e.url {
        Some(u) => {
            proof {
                reveal_strlit("\n");
            }
            description.append("\n");
            assert("\n"@ =~= seq!['\n']);
            description.append(u.as_str());
            assert(description@ =~= project_description(e@));
        },
        None => {},
    }
    RemoteEvent {
        summary: e.title.clone(),
        description,
        start,
        end,
        location: match &e.location {
            Some(l) => Some(l.clone()),
            None => None,
        },
    }
}

/// A stored association of a local reservation with its remote event.
#[derive(Debug)]
pub struct EventMapping {
    pub reservation_id: ReservationId,
    pub event_id: EventId,
}

pub struct MappingView {
    pub reservation_id: Seq<char>,
    pub event_id: Seq<char>,
}

impl View for EventMapping {
    type V = MappingView;

    open spec fn view(&self) -> MappingView {
        MappingView { reservation_id: self.reservation_id@, event_id: self.event_id@ }
    }
}

pub open spec fn mappings_view(v: Seq<EventMapping>) -> Seq<MappingView> {
    v.map_values(|m: EventMapping| m@)
}

/// The remote event of the first mapping of `rid`, if any.
pub open spec fn mapped_event(mappings: Seq<MappingView>, rid: Seq<char>) -> Option<Seq<char>>
    decreases mappings.len(),
{
    if mappings.len() == 0 {
        None
    } else if mappings[0].reservation_id == rid {
        Some(mappings[0].event_id)
    } else {
        mapped_event(mappings.drop_first(), rid)
    }
}

/// What a sync asks of the remote calendar for one reservation.
#[derive(Debug)]
pub enum RemoteAction {
    Create { body: RemoteEvent },
    Patch { event_id: EventId, body: RemoteEvent },
    Delete { event_id: EventId },
}

/// One remote operation, with the reservation it serves and when that
/// reservation last changed.
#[derive(Debug)]
pub struct PlannedOp {
    pub reservation_id: ReservationId,
    pub updated_at: Timestamp,
    pub action: RemoteAction,
}

pub enum ActionView {
    Create { body: RemoteEventView },
    Patch { event_id: Seq<char>, body: RemoteEventView },
    Delete { event_id: Seq<char> },
}

pub struct OpView {
    pub reservation_id: Seq<char>,
    pub updated_at: int,
    pub action: ActionView,
}

impl View for PlannedOp {
    type V = OpView;

    open spec fn view(&self) -> OpView {
        OpView {
            reservation_id: self.reservation_id@,
            updated_at: self.updated_at as int,
            action: match &self.action {
                RemoteAction::Create { body } => ActionView::Create { body: body@ },
                RemoteAction::Patch { event_id, body } => ActionView::Patch {
                    event_id: event_id@,
                    body: body@,
                },
                RemoteAction::Delete { event_id } => ActionView::Delete { event_id: event_id@ },
            },
        }
    }
}

pub open spec fn ops_view(v: Seq<PlannedOp>) -> Seq<OpView> {
    v.map_values(|o: PlannedOp| o@)
}

/// The operation for one changed row: a mapped row is deleted remotely when
/// cancelled and patched with all its fields otherwise; an unmapped row is
/// created unless cancelled, and a cancelled unmapped row needs nothing.
pub open spec fn op_for(row: RowView, mappings: Seq<MappingView>) -> Option<OpView> {
    let e = row.event;
    match mapped_event(mappings, e.id) {
        Some(eid) => if e.invalid {
            Some(
                OpView {
                    reservation_id: e.id,
                    updated_at: row.updated_at,
                    action: ActionView::Delete { event_id: eid },
                },
            )
        } else {
            Some(
                OpView {
                    reservation_id: e.id,
                    updated_at: row.updated_at,
                    action: ActionView::Patch { event_id: eid, body: project(e) },
                },
            )
        },
        None => if e.invalid {
            None
        } else {
            Some(
                OpView {
                    reservation_id: e.id,
                    updated_at: row.updated_at,
                    action: ActionView::Create { body: project(e) },
                },
            )
        },
    }
}

/// The operations for the changed rows, in their order.
pub open spec fn plan(rows: Seq<RowView>, mappings: Seq<MappingView>) -> Seq<OpView>
    decreases rows.len(),
{
    if rows.len() == 0 {
        Seq::empty()
    } else {
        let prev = plan(rows.drop_last(), mappings);
        match op_for(rows.last(), mappings) {
            Some(op) => prev.push(op),
            None => prev,
        }
    }
}

pub open spec fn rows_view(v: Seq<StoredReservation>) -> Seq<RowView> {
    v.map_values(|r: StoredReservation| r@)
}

fn find_mapping<'a>(mappings: &'a Vec<EventMapping>, rid: &String) -> (r: Option<&'a EventMapping>)
    ensures
        r is None ==> mapped_event(mappings_view(mappings@), rid@) is None,
        r is Some ==> mapped_event(mappings_view(mappings@), rid@) == Some(r->0.event_id@),
{
    let ghost all = mappings_view(mappings@);
    let mut i: usize = 0;
    assert(all.skip(0) =~= all);
    while i < mappings.len()
        invariant
            i <= mappings@.len(),
            all == mappings_view(mappings@),
            mapped_event(all, rid@) == mapped_event(all.skip(i as int), rid@),
        decreases mappings@.len() - i,
    {
        assert(all.skip(i as int)[0] == mappings@[i as int]@);
        if mappings[i].reservation_id.is(rid) {
            return Some(&mappings[i]);
        }
        assert(all.skip(i as int).drop_first() =~= all.skip(i + 1));
        i += 1;
    }
    None
}

fn copy_event_id(id: &EventId) -> (r: EventId)
    ensures
        r@ == id@,
{
    EventId::new(id.as_str())
}

/// The remote operations that bring the remote calendar in line with the
/// changed rows, given the user's stored mappings.
pub fn plan_sync(changed: &Vec<StoredReservation>, mappings: &Vec<EventMapping>) -> (r: Vec<PlannedOp>)
    ensures
        ops_view(r@) == plan(rows_view(changed@), mappings_view(mappings@)),
{
    let ghost rows = rows_view(changed@);
    let ghost ms = mappings_view(mappings@);
    let mut out: Vec<PlannedOp> = Vec::new();
    let mut i: usize = 0;
    while i < changed.len()
        invariant
            i <= changed@.len(),
            rows == rows_view(changed@),
            ms == mappings_view(mappings@),
            ops_view(out@) == plan(rows.take(i as int), ms),
        decreases changed@.len() - i,
    {
        proof {
            assert(rows.take(i + 1).drop_last() =~= rows.take(i as int));
            assert(rows.take(i + 1).last() == changed@[i as int]@);
        }
        let row = &changed[i];
        let e = &row.event;
        let ghost before = out@;
        match find_mapping(mappings, &e.id) {
            Some(m) => {
                let action = if e.invalid {
                    RemoteAction::Delete { event_id: copy_event_id(&m.event_id) }
                } else {
                    RemoteAction::Patch { event_id: copy_event_id(&m.event_id), body: to_remote_event(e) }
                };
                let op = PlannedOp {
                    reservation_id: ReservationId::new(e.id.as_str()),
                    updated_at: row.updated_at,
                    action,
                };
                out.push(op);
                assert(ops_view(out@) =~= ops_view(before).push(op@));
            },
            None => {
                if !e.invalid {
                    let op = PlannedOp {
                        reservation_id: ReservationId::new(e.id.as_str()),
                        updated_at: row.updated_at,
                        action: RemoteAction::Create { body: to_remote_event(e) },
                    };
                    out.push(op);
                    assert(ops_view(out@) =~= ops_view(before).push(op@));
                }
            },
        }
        i += 1;
    }
    assert(rows.take(changed@.len() as int) =~= rows);
    out
}

/// What came back from the remote calendar for one operation.
#[derive(Debug)]
pub enum OpOutcome {
    /// The event was created under this remote id.
    Created { event_id: EventId },
    /// The patch or delete went through.
    Applied,
    /// The remote event does not exist.
    NotFound,
    /// Any other failure (rate limit, expired authorisation, network).
    Failed,
}

/// An operation is settled when it went through; deleting an event that is
/// already gone counts as done.
pub open spec fn settled(op: OpView, outcome: OpOutcome) -> bool {
    match op.action {
        ActionView::Create { .. } => outcome is Created,
        ActionView::Patch { .. } => outcome is Applied,
        ActionView::Delete { .. } => outcome is Applied || outcome is NotFound,
    }
}

/// The mappings that the first `n` operations created, in order.
pub open spec fn created_mappings(ops: Seq<OpView>, outcomes: Seq<OpOutcome>, n: int) -> Seq<MappingView>
    decreases n,
{
    if n <= 0 {
        Seq::empty()
    } else {
        let prev = created_mappings(ops, outcomes, n - 1);
        match (ops[n - 1].action, outcomes[n - 1]) {
            (ActionView::Create { .. }, OpOutcome::Created { event_id }) => prev.push(
                MappingView { reservation_id: ops[n - 1].reservation_id, event_id: event_id@ },
            ),
            _ => prev,
        }
    }
}

/// The instant just before `t` (or `t` itself at the start of time).
pub open spec fn just_before(t: int) -> int {
    if t > i64::MIN {
        t - 1
    } else {
        t
    }
}

/// The watermark after the first `n` operations: `now`, held back to just
/// before the change of every reservation whose operation did not settle, so
/// that the next sync takes it up again.
pub open spec fn watermark_after(ops: Seq<OpView>, outcomes: Seq<OpOutcome>, now: int, n: int) -> int
    decreases n,
{
    if n <= 0 {
        now
    } else {
        let prev = watermark_after(ops, outcomes, now, n - 1);
        if !settled(ops[n - 1], outcomes[n - 1]) && just_before(ops[n - 1].updated_at) < prev {
            just_before(ops[n - 1].updated_at)
        } else {
            prev
        }
    }
}

/// What a finished sync records: the new mappings and the new watermark.
#[derive(Debug)]
pub struct SyncOutcome {
    pub new_mappings: Vec<EventMapping>,
    pub watermark: Timestamp,
}

/// Records the outcome of a sync whose operations ran with the given
/// results, one per operation, finished at `now`.
pub fn finish_sync(ops: &Vec<PlannedOp>, outcomes: &Vec<OpOutcome>, now: Timestamp) -> (r: SyncOutcome)
    requires
        ops@.len() == outcomes@.len(),
    ensures
        mappings_view(r.new_mappings@) == created_mappings(ops_view(ops@), outcomes@, ops@.len() as int),
        r.watermark == watermark_after(ops_view(ops@), outcomes@, now as int, ops@.len() as int),
{
    let ghost ov = ops_view(ops@);
    let mut new_mappings: Vec<EventMapping> = Vec::new();
    let mut watermark: Timestamp = now;
    let mut i: usize = 0;
    while i < ops.len()
        invariant
            i <= ops@.len() == outcomes@.len(),
            ov == ops_view(ops@),
            mappings_view(new_mappings@) == created_mappings(ov, outcomes@, i as int),
            watermark == watermark_after(ov, outcomes@, now as int, i as int),
        decreases ops@.len() - i,
    {
        let op = &ops[i];
        assert(ov[i as int] == op@);
        let ok = match (&op.action, &outcomes[i]) {
            (RemoteAction::Create { .. }, OpOutcome::Created { event_id }) => {
                let m = EventMapping {
                    reservation_id: ReservationId::new(op.reservation_id.as_str()),
                    event_id: copy_event_id(event_id),
                };
                let ghost before = new_mappings@;
                new_mappings.push(m);
                assert(mappings_view(new_mappings@) =~= mappings_view(before).push(m@));
                true
            },
            (RemoteAction::Patch { .. }, OpOutcome::Applied) => true,
            (RemoteAction::Delete { .. }, OpOutcome::Applied) => true,
            (RemoteAction::Delete { .. }, OpOutcome::NotFound) => true,
            _ => false,
        };
        if !ok {
            let b = if op.updated_at > i64::MIN {
                op.updated_at - 1
            } else {
                op.updated_at
            };
            if b < watermark {
                watermark = b;
            }
        }
        i += 1;
    }
    SyncOutcome { new_mappings, watermark }
}

/// A sync touches only changed rows, and each changed row that needs
/// remote work gets its operation: a mapped row is deleted when cancelled
/// and patched otherwise, a live unmapped row is created.
pub proof fn lemma_plan_covers_changes(rows: Seq<RowView>, mappings: Seq<MappingView>)
    ensures
        plan(rows, mappings).len() <= rows.len(),
        forall|k: int|
            0 <= k < plan(rows, mappings).len() ==> exists|i: int|
                0 <= i < rows.len() && #[trigger] op_for(rows[i], mappings) == Some(
                    #[trigger] plan(rows, mappings)[k],
                ),
        forall|i: int|
            0 <= i < rows.len() && (#[trigger] op_for(rows[i], mappings)) is Some ==> exists|k: int|
                0 <= k < plan(rows, mappings).len() && op_for(rows[i], mappings) == Some(
                    plan(rows, mappings)[k],
                ),
    decreases rows.len(),
{
    if rows.len() > 0 {
        let init = rows.drop_last();
        lemma_plan_covers_changes(init, mappings);
        let p = plan(rows, mappings);
        let q = plan(init, mappings);
        let n = rows.len() - 1;
        assert(rows.last() == rows[n]);
        assert forall|k: int| 0 <= k < p.len() implies exists|i: int|
            0 <= i < rows.len() && #[trigger] op_for(rows[i], mappings) == Some(#[trigger] p[k]) by {
            if k < q.len() {
                assert(p[k] == q[k]);
                let i = choose|i: int| 0 <= i < init.len() && #[trigger] op_for(init[i], mappings) == Some(q[k]);
                assert(init[i] == rows[i]);
            } else {
                assert(op_for(rows[n], mappings) == Some(p[k]));
            }
        }
        assert forall|i: int| 0 <= i < rows.len() && (#[trigger] op_for(rows[i], mappings)) is Some implies exists|k: int|
            0 <= k < p.len() && op_for(rows[i], mappings) == Some(p[k]) by {
            if i < n {
                assert(init[i] == rows[i]);
                assert(op_for(init[i], mappings) is Some);
                let k = choose|k: int| 0 <= k < q.len() && op_for(init[i], mappings) == Some(q[k]);
                assert(p[k] == q[k]);
            } else {
                assert(p[q.len() as int] == op_for(rows[n], mappings)->0);
            }
        }
    }
}

/// When the changed rows have distinct ids, no two operations of a sync
/// serve the same reservation: each row gets at most one remote call.
pub proof fn lemma_plan_one_op_per_row(rows: Seq<RowView>, mappings: Seq<MappingView>)
    requires
        forall|a: int, b: int| 0 <= a < b < rows.len() ==> rows[a].event.id != rows[b].event.id,
    ensures
        forall|k1: int, k2: int|
            0 <= k1 < k2 < plan(rows, mappings).len() ==> plan(rows, mappings)[k1].reservation_id
                != plan(rows, mappings)[k2].reservation_id,
    decreases rows.len(),
{
    if rows.len() > 0 {
        let init = rows.drop_last();
        let n = rows.len() - 1;
        lemma_plan_one_op_per_row(init, mappings);
        lemma_plan_covers_changes(init, mappings);
        let p = plan(rows, mappings);
        let q = plan(init, mappings);
        assert forall|k1: int, k2: int| 0 <= k1 < k2 < p.len() implies p[k1].reservation_id != p[k2].reservation_id by {
            if k2 >= q.len() {
                assert(p[k1] == q[k1]);
                let i = choose|i: int| 0 <= i < init.len() && #[trigger] op_for(init[i], mappings) == Some(q[k1]);
                assert(init[i] == rows[i]);
                assert(p[k2] == op_for(rows[n], mappings)->0);
            } else {
                assert(p[k1] == q[k1] && p[k2] == q[k2]);
            }
        }
    }
}

/// When every operation settles, the watermark moves to `now`, past every
/// change that the sync carried.
pub proof fn lemma_all_settled_advances(ops: Seq<OpView>, outcomes: Seq<OpOutcome>, now: int, n: int)
    requires
        0 <= n <= ops.len(),
        n <= outcomes.len(),
        forall|i: int| 0 <= i < n ==> settled(ops[i], #[trigger] outcomes[i]),
    ensures
        watermark_after(ops, outcomes, now, n) == now,
    decreases n,
{
    if n > 0 {
        lemma_all_settled_advances(ops, outcomes, now, n - 1);
    }
}

/// The watermark never falls behind the previous one, never passes `now`,
/// and stays before the change of every reservation whose operation did not
/// settle.
pub proof fn lemma_watermark_bounds(ops: Seq<OpView>, outcomes: Seq<OpOutcome>, now: int, last: int, n: int)
    requires
        0 <= n <= ops.len(),
        n <= outcomes.len(),
        i64::MIN <= last <= now,
        forall|i: int| 0 <= i < n ==> (#[trigger] ops[i]).updated_at > last,
    ensures
        last <= watermark_after(ops, outcomes, now, n) <= now,
        forall|i: int|
            0 <= i < n && !settled(ops[i], outcomes[i]) ==> watermark_after(ops, outcomes, now, n)
                < (#[trigger] ops[i]).updated_at,
    decreases n,
{
    if n > 0 {
        lemma_watermark_bounds(ops, outcomes, now, last, n - 1);
    }
}

/// The kinds of remote calendar a user can bind.
#[derive(Clone, Copy, Debug, PartialEq, Eq, Structural, PartialOrd, Ord, Hash)]
pub enum TargetType {
    GoogleCalendar,
}

impl TargetType {
    pub fn name(&self) -> (r: &'static str)
        ensures
            r@ == "GoogleCalendar"@,
    {
        "GoogleCalendar"
    }
}

/// A user's binding to a remote calendar: the calendar the service may
/// write to, and the sync watermark.
#[derive(Debug)]
pub struct RemoteBinding {
    pub calendar_id: String,
    pub last_synced: Timestamp,
}

impl RemoteBinding {
    /// The target this binding makes available: none until a calendar id
    /// has been entered.
    pub fn target(&self) -> (r: Option<(TargetType, Timestamp)>)
        ensures
            self.calendar_id@.len() == 0 ==> r is None,
            self.calendar_id@.len() > 0 ==> r == Some((TargetType::GoogleCalendar, self.last_synced)),
    {
        if self.calendar_id.as_str().is_empty() {
            None
        } else {
            Some((TargetType::GoogleCalendar, self.last_synced))
        }
    }
}

} // verus!
