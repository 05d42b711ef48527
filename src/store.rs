//! The local store of reservations: an idempotent upsert that only writes
//! (and only stamps `updated_at`) when a visible field changes, cancellation
//! of bookings that vanished from a provider's listing, and the queries that
//! feed the remote reconciler.
use vstd::prelude::*;
use vstd::utf8::encode_utf8;

use crate::event::{
    events_view, instant_of, same_visible, with_invalid, CalendarEvent, EventView, Timestamp, UserId,
};

verus! {

/// One stored reservation: a user's copy of an event and when it last changed.
#[derive(Debug)]
pub struct StoredReservation {
    pub user_id: UserId,
    pub event: CalendarEvent,
    pub updated_at: Timestamp,
}

pub struct RowView {
    pub user: u32,
    pub event: EventView,
    pub updated_at: int,
}

impl View for StoredReservation {
    type V = RowView;

    open spec fn view(&self) -> RowView {
        RowView { user: self.user_id.0, event: self.event@, updated_at: self.updated_at as int }
    }
}

impl StoredReservation {
    pub fn copy(&self) -> (r: StoredReservation)
        ensures
            r@ == self@,
    {
        StoredReservation {
            user_id: self.user_id,
            event: self.event.copy(),
            updated_at: self.updated_at,
        }
    }
}

pub open spec fn has_key(row: RowView, user: u32, id: Seq<char>) -> bool {
    row.user == user && row.event.id == id
}

/// No two rows share a `(user, id)` key.
pub open spec fn keys_unique(rows: Seq<RowView>) -> bool {
    forall|i: int, j: int|
        0 <= i < rows.len() && 0 <= j < rows.len() && i != j ==> !has_key(
            rows[j],
            rows[i].user,
            rows[i].event.id,
        )
}

/// The position of the row with key `(user, id)`, if there is one.
pub open spec fn find_row(rows: Seq<RowView>, user: u32, id: Seq<char>) -> Option<int> {
    if exists|i: int| 0 <= i < rows.len() && has_key(rows[i], user, id) {
        Some(choose|i: int| 0 <= i < rows.len() && has_key(rows[i], user, id))
    } else {
        None
    }
}

/// What an incoming record amounts to against the stored one: a record
/// that would revive a cancelled booking stays cancelled unless revival is
/// allowed.
pub open spec fn effective_event(stored: EventView, incoming: EventView, allow_uncancel: bool) -> EventView {
    if revives(stored, incoming, allow_uncancel) {
        with_invalid(incoming, true)
    } else {
        incoming
    }
}

/// The incoming record would clear the cancellation of the stored one
/// without being allowed to.
pub open spec fn revives(stored: EventView, incoming: EventView, allow_uncancel: bool) -> bool {
    stored.invalid && !incoming.invalid && !allow_uncancel
}

/// One upsert: the new rows, whether a row was written, and whether a
/// revival was refused.
pub open spec fn upsert_one(
    rows: Seq<RowView>,
    user: u32,
    e: EventView,
    now: int,
    allow_uncancel: bool,
) -> (Seq<RowView>, bool, bool) {
    match find_row(rows, user, e.id) {
        None => (rows.push(RowView { user, event: e, updated_at: now }), true, false),
        Some(i) => {
            let eff = effective_event(rows[i].event, e, allow_uncancel);
            let flagged = revives(rows[i].event, e, allow_uncancel);
            if same_visible(rows[i].event, eff) {
                (rows, false, flagged)
            } else {
                (rows.update(i, RowView { user, event: eff, updated_at: now }), true, flagged)
            }
        },
    }
}

/// A batch of upserts in order: the new rows, how many rows were written,
/// and the ids whose revival was refused.
pub open spec fn upsert_all(
    rows: Seq<RowView>,
    user: u32,
    events: Seq<EventView>,
    now: int,
    allow_uncancel: bool,
) -> (Seq<RowView>, nat, Seq<Seq<char>>)
    decreases events.len(),
{
    if events.len() == 0 {
        (rows, 0, Seq::empty())
    } else {
        let prev = upsert_all(rows, user, events.drop_last(), now, allow_uncancel);
        let step = upsert_one(prev.0, user, events.last(), now, allow_uncancel);
        (
            step.0,
            prev.1 + if step.1 {
                1nat
            } else {
                0nat
            },
            if step.2 {
                prev.2.push(events.last().id)
            } else {
                prev.2
            },
        )
    }
}

/// `id` begins with `prefix`, compared as UTF-8 bytes.
pub open spec fn has_prefix(id: Seq<char>, prefix: Seq<char>) -> bool {
    encode_utf8(prefix).is_prefix_of(encode_utf8(id))
}

/// A stored booking that vanished from a provider's complete listing of
/// active bookings: it belongs to the user and the provider, is not yet
/// cancelled, starts after `now`, and its id was not listed.
pub open spec fn vanished(
    row: RowView,
    user: u32,
    prefix: Seq<char>,
    present: Seq<Seq<char>>,
    now: int,
) -> bool {
    &&& row.user == user
    &&& has_prefix(row.event.id, prefix)
    &&& !row.event.invalid
    &&& instant_of(row.event.date_begin, row.event.time_begin) > now
    &&& !present.contains(row.event.id)
}

/// The row after cancellation by absence: vanished bookings become invalid
/// and are stamped `now`, so that the remote calendar learns of them.
pub open spec fn cancel_row(
    row: RowView,
    user: u32,
    prefix: Seq<char>,
    present: Seq<Seq<char>>,
    now: int,
) -> RowView {
    if vanished(row, user, prefix, present, now) {
        RowView { event: with_invalid(row.event, true), updated_at: now, ..row }
    } else {
        row
    }
}

/// How many rows vanished.
pub open spec fn vanished_count(
    rows: Seq<RowView>,
    user: u32,
    prefix: Seq<char>,
    present: Seq<Seq<char>>,
    now: int,
) -> nat
    decreases rows.len(),
{
    if rows.len() == 0 {
        0
    } else {
        vanished_count(rows.drop_last(), user, prefix, present, now) + if vanished(
            rows.last(),
            user,
            prefix,
            present,
            now,
        ) {
            1nat
        } else {
            0nat
        }
    }
}

/// The user's rows written after `watermark`, in store order.
pub open spec fn changed_since(rows: Seq<RowView>, user: u32, watermark: int) -> Seq<RowView> {
    rows.filter(|r: RowView| r.user == user && r.updated_at > watermark)
}

/// The ids, in order, that the user has no row for.
pub open spec fn unknown_ids(rows: Seq<RowView>, user: u32, ids: Seq<Seq<char>>) -> Seq<Seq<char>> {
    ids.filter(|id: Seq<char>| find_row(rows, user, id) is None)
}

fn starts_with(s: &String, prefix: &str) -> (r: bool)
    ensures
        r == has_prefix(s@, prefix@),
{
    let a = s.as_str().as_bytes();
    let p = prefix.as_bytes();
    if p.len() > a.len() {
        return false;
    }
    let mut i: usize = 0;
    while i < p.len()
        invariant
            i <= p@.len() <= a@.len(),
            a@ == encode_utf8(s@),
            p@ == encode_utf8(prefix@),
            forall|j: int| 0 <= j < i ==> a@[j] == p@[j],
        decreases p.len() - i,
    {
        if a[i] != p[i] {
            assert(p@[i as int] != a@.subrange(0, p@.len() as int)[i as int]);
            return false;
        }
        i += 1;
    }
    assert(p@ =~= a@.subrange(0, p@.len() as int));
    true
}

fn contains_string(v: &Vec<String>, s: &String) -> (r: bool)
    ensures
        r == strings_view(v@).contains(s@),
{
    let mut i: usize = 0;
    while i < v.len()
        invariant
            i <= v@.len(),
            forall|j: int| 0 <= j < i ==> v@[j]@ != s@,
        decreases v.len() - i,
    {
        if v[i] == *s {
            assert(strings_view(v@)[i as int] == s@);
            return true;
        }
        i += 1;
    }
    assert(!strings_view(v@).contains(s@)) by {
        assert(forall|j: int| 0 <= j < v@.len() ==> strings_view(v@)[j] == v@[j]@);
    }
    false
}

/// Relies on chrono's `Utc::now`: the current time in microseconds since
/// the epoch. Nothing is known of the value.
#[verifier::external_body]
pub(crate) fn current_timestamp() -> (r: Timestamp) {
    chrono::Utc::now().timestamp_micros()
}

/// What one batch of upserts did.
#[derive(Debug)]
pub struct UpsertSummary {
    /// Rows inserted or changed.
    pub changed: u64,
    /// Ids of cancelled bookings that the batch tried to revive.
    pub flagged: Vec<String>,
}

pub open spec fn strings_view(v: Seq<String>) -> Seq<Seq<char>> {
    v.map_values(|s: String| s@)
}

/// The reservations of all users, keyed by `(user, id)`.
#[derive(Debug)]
pub struct ReservationTable {
    rows: Vec<StoredReservation>,
}

impl View for ReservationTable {
    type V = Seq<RowView>;

    closed spec fn view(&self) -> Seq<RowView> {
        self.rows@.map_values(|r: StoredReservation| r@)
    }
}

impl ReservationTable {
    pub open spec fn wf(&self) -> bool {
        keys_unique(self@)
    }

    pub fn new() -> (r: ReservationTable)
        ensures
            r@ == Seq::<RowView>::empty(),
            r.wf(),
    {
        let r = ReservationTable { rows: Vec::new() };
        assert(r@ =~= Seq::<RowView>::empty());
        r
    }

    pub fn len(&self) -> (r: usize)
        ensures
            r == self@.len(),
    {
        self.rows.len()
    }

    /// Adds a row read from storage, unless its key is already present;
    /// returns whether it was added.
    pub fn load_row(&mut self, row: StoredReservation) -> (r: bool)
        requires
            old(self).wf(),
        ensures
            final(self).wf(),
            r == (find_row(old(self)@, row.user_id.0, row.event.id@) is None),
            r ==> final(self)@ == old(self)@.push(row@),
            !r ==> final(self)@ == old(self)@,
    {
        if self.find(row.user_id, &row.event.id).is_some() {
            return false;
        }
        let ghost before = self@;
        let ghost v = row@;
        self.rows.push(row);
        assert(self@ =~= before.push(v));
        true
    }

    /// The row at position `i`.
    pub fn row(&self, i: usize) -> (r: &StoredReservation)
        requires
            i < self@.len(),
        ensures
            r@ == self@[i as int],
    {
        &self.rows[i]
    }

    fn find(&self, user_id: UserId, id: &String) -> (r: Option<usize>)
        requires
            self.wf(),
        ensures
            r is None ==> find_row(self@, user_id.0, id@) is None,
            r is Some ==> find_row(self@, user_id.0, id@) == Some(r->0 as int),
    {
        let mut i: usize = 0;
        while i < self.rows.len()
            invariant
                i <= self.rows.len(),
                self.wf(),
                forall|j: int| 0 <= j < i ==> !has_key(self@[j], user_id.0, id@),
            decreases self.rows.len() - i,
        {
            let row = &self.rows[i];
            if row.user_id.0 == user_id.0 && row.event.id == *id {
                assert(has_key(self@[i as int], user_id.0, id@));
                return Some(i);
            }
            i += 1;
        }
        None
    }

    /// Inserts `e` for the user, or rewrites the stored row when a visible
    /// field differs, stamping `now`; an identical record writes nothing.
    /// Returns whether a row was written and whether a revival was refused.
    pub fn upsert_event_at(
        &mut self,
        user_id: UserId,
        e: &CalendarEvent,
        now: Timestamp,
        allow_uncancel: bool,
    ) -> (r: (bool, bool))
        requires
            old(self).wf(),
        ensures
            final(self).wf(),
            final(self)@ == upsert_one(old(self)@, user_id.0, e@, now as int, allow_uncancel).0,
            r.0 == upsert_one(old(self)@, user_id.0, e@, now as int, allow_uncancel).1,
            r.1 == upsert_one(old(self)@, user_id.0, e@, now as int, allow_uncancel).2,
    {
        let ghost rows = self@;
        match self.find(user_id, &e.id) {
            None => {
                let row = StoredReservation { user_id, event: e.copy(), updated_at: now };
                self.rows.push(row);
                assert(self@ =~= rows.push(row@));
                (true, false)
            },
            Some(i) => {
                let stored = &self.rows[i].event;
                let flagged = stored.invalid && !e.invalid && !allow_uncancel;
                let mut eff = e.copy();
                if flagged {
                    eff.invalid = true;
                }
                assert(eff@ == effective_event(rows[i as int].event, e@, allow_uncancel));
                if stored.same_visible_fields(&eff) {
                    (false, flagged)
                } else {
                    let row = StoredReservation { user_id, event: eff, updated_at: now };
                    self.rows.set(i, row);
                    assert(self@ =~= rows.update(i as int, row@));
                    (true, flagged)
                }
            },
        }
    }

    /// Upserts a batch in order, all stamped `now`; see [`Self::upsert_event_at`].
    pub fn upsert_events_at(
        &mut self,
        user_id: UserId,
        events: &Vec<CalendarEvent>,
        now: Timestamp,
        allow_uncancel: bool,
    ) -> (r: UpsertSummary)
        requires
            old(self).wf(),
        ensures
            final(self).wf(),
            final(self)@ == upsert_all(old(self)@, user_id.0, events_view(events@), now as int, allow_uncancel).0,
            r.changed == upsert_all(old(self)@, user_id.0, events_view(events@), now as int, allow_uncancel).1,
            strings_view(r.flagged@) == upsert_all(old(self)@, user_id.0, events_view(events@), now as int, allow_uncancel).2,
    {
        let ghost start = self@;
        let ghost evs = events_view(events@);
        let mut changed: u64 = 0;
        let mut flagged: Vec<String> = Vec::new();
        let mut i: usize = 0;
        while i < events.len()
            invariant
                i <= events.len(),
                evs == events_view(events@),
                self.wf(),
                self@ == upsert_all(start, user_id.0, evs.take(i as int), now as int, allow_uncancel).0,
                changed == upsert_all(start, user_id.0, evs.take(i as int), now as int, allow_uncancel).1,
                changed <= i,
                strings_view(flagged@) == upsert_all(start, user_id.0, evs.take(i as int), now as int, allow_uncancel).2,
            decreases events.len() - i,
        {
            proof {
                assert(evs.take(i + 1).drop_last() =~= evs.take(i as int));
                assert(evs.take(i + 1).last() == events@[i as int]@);
            }
            let (written, refused) = self.upsert_event_at(user_id, &events[i], now, allow_uncancel);
            if written {
                changed += 1;
            }
            if refused {
                let ghost before = flagged@;
                flagged.push(events[i].id.clone());
                assert(strings_view(flagged@) =~= strings_view(before).push(events@[i as int].id@));
            }
            i += 1;
        }
        assert(evs.take(events.len() as int) =~= evs);
        UpsertSummary { changed, flagged }
    }

    /// Upserts a batch stamped with the current time.
    pub fn upsert_events(
        &mut self,
        user_id: UserId,
        events: &Vec<CalendarEvent>,
        allow_uncancel: bool,
    ) -> (r: UpsertSummary)
        requires
            old(self).wf(),
        ensures
            final(self).wf(),
            exists|now: int|
                #[trigger] upsert_all(old(self)@, user_id.0, events_view(events@), now, allow_uncancel)
                    == (final(self)@, r.changed as nat, strings_view(r.flagged@)),
    {
        let now = current_timestamp();
        self.upsert_events_at(user_id, events, now, allow_uncancel)
    }

    /// Marks as cancelled, stamping `now`, every booking of the user whose id
    /// starts with `prefix`, that is not cancelled yet, starts after `now`
    /// and is missing from `present`. Returns how many were cancelled.
    pub fn cancel_missing_at(
        &mut self,
        user_id: UserId,
        prefix: &str,
        present: &Vec<String>,
        now: Timestamp,
    ) -> (r: u64)
        requires
            old(self).wf(),
        ensures
            final(self).wf(),
            final(self)@ == Seq::new(old(self)@.len(), |i: int| cancel_row(old(self)@[i], user_id.0, prefix@, strings_view(present@), now as int)),
            r == vanished_count(old(self)@, user_id.0, prefix@, strings_view(present@), now as int),
    {
        let ghost start = self@;
        let ghost ids = strings_view(present@);
        let mut count: u64 = 0;
        let mut i: usize = 0;
        while i < self.rows.len()
            invariant
                i <= self@.len() == start.len(),
                ids == strings_view(present@),
                forall|j: int| 0 <= j < i ==> self@[j] == cancel_row(start[j], user_id.0, prefix@, ids, now as int),
                forall|j: int| i <= j < start.len() ==> self@[j] == start[j],
                count == vanished_count(start.take(i as int), user_id.0, prefix@, ids, now as int),
                count <= i,
            decreases start.len() - i,
        {
            proof {
                assert(start.take(i + 1).drop_last() =~= start.take(i as int));
                assert(start.take(i + 1).last() == start[i as int]);
            }
            let row = &self.rows[i];
            let hit = row.user_id.0 == user_id.0 && starts_with(&row.event.id, prefix) && !row.event.invalid
                && row.event.start_instant() > now as i128 && !contains_string(present, &row.event.id);
            if hit {
                let mut event = row.event.copy();
                event.invalid = true;
                let updated = StoredReservation { user_id: row.user_id, event, updated_at: now };
                let ghost cur = self@;
                self.rows.set(i, updated);
                assert(self@ =~= cur.update(i as int, updated@));
                count += 1;
            }
            i += 1;
        }
        let ghost fin = Seq::new(start.len(), |k: int| cancel_row(start[k], user_id.0, prefix@, ids, now as int));
        assert(self@ =~= fin);
        assert(start.take(start.len() as int) =~= start);
        assert(keys_unique(self@)) by {
            assert forall|a: int, b: int|
                0 <= a < self@.len() && 0 <= b < self@.len() && a != b implies !has_key(
                self@[b],
                self@[a].user,
                self@[a].event.id,
            ) by {
                assert(self@[a].user == start[a].user && self@[a].event.id == start[a].event.id);
                assert(self@[b].user == start[b].user && self@[b].event.id == start[b].event.id);
                assert(!has_key(start[b], start[a].user, start[a].event.id));
            }
        }
        count
    }

    /// [`Self::cancel_missing_at`] at the current time.
    pub fn cancel_missing(&mut self, user_id: UserId, prefix: &str, present: &Vec<String>) -> (r: u64)
        requires
            old(self).wf(),
        ensures
            final(self).wf(),
            exists|now: int|
                #[trigger] vanished_count(old(self)@, user_id.0, prefix@, strings_view(present@), now) == r
                    && final(self)@ == Seq::new(old(self)@.len(), |i: int| cancel_row(old(self)@[i], user_id.0, prefix@, strings_view(present@), now)),
    {
        let now = current_timestamp();
        self.cancel_missing_at(user_id, prefix, present, now)
    }

    /// Copies of the user's rows written after `watermark`, in store order.
    pub fn changed_since(&self, user_id: UserId, watermark: Timestamp) -> (r: Vec<StoredReservation>)
        ensures
            r@.map_values(|x: StoredReservation| x@) == changed_since(self@, user_id.0, watermark as int),
    {
        let ghost pred = |r: RowView| r.user == user_id.0 && r.updated_at > watermark as int;
        let mut out: Vec<StoredReservation> = Vec::new();
        let mut i: usize = 0;
        while i < self.rows.len()
            invariant
                i <= self@.len(),
                pred == (|r: RowView| r.user == user_id.0 && r.updated_at > watermark as int),
                out@.map_values(|x: StoredReservation| x@) == self@.take(i as int).filter(pred),
            decreases self@.len() - i,
        {
            proof {
                reveal(Seq::filter);
                assert(self@.take(i + 1).drop_last() =~= self@.take(i as int));
                assert(self@.take(i + 1).last() == self@[i as int]);
            }
            let row = &self.rows[i];
            if row.user_id.0 == user_id.0 && row.updated_at > watermark {
                let ghost before = out@;
                out.push(row.copy());
                assert(out@.map_values(|x: StoredReservation| x@) =~= before.map_values(|x: StoredReservation| x@).push(self@[i as int]));
            }
            i += 1;
        }
        assert(self@.take(self@.len() as int) =~= self@);
        out
    }

    /// The ids, in order, for which the user has no stored row.
    pub fn filter_ids(&self, user_id: UserId, ids: &Vec<String>) -> (r: Vec<String>)
        requires
            self.wf(),
        ensures
            strings_view(r@) == unknown_ids(self@, user_id.0, strings_view(ids@)),
    {
        let ghost all = strings_view(ids@);
        let ghost pred = |id: Seq<char>| find_row(self@, user_id.0, id) is None;
        let mut out: Vec<String> = Vec::new();
        let mut i: usize = 0;
        while i < ids.len()
            invariant
                i <= ids@.len(),
                self.wf(),
                all == strings_view(ids@),
                pred == (|id: Seq<char>| find_row(self@, user_id.0, id) is None),
                strings_view(out@) == all.take(i as int).filter(pred),
            decreases ids@.len() - i,
        {
            proof {
                reveal(Seq::filter);
                assert(all.take(i + 1).drop_last() =~= all.take(i as int));
                assert(all.take(i + 1).last() == ids@[i as int]@);
            }
            if self.find(user_id, &ids[i]).is_none() {
                let ghost before = out@;
                out.push(ids[i].clone());
                assert(strings_view(out@) =~= strings_view(before).push(ids@[i as int]@));
            }
            i += 1;
        }
        assert(all.take(ids@.len() as int) =~= all);
        out
    }
}

/// With unique keys, the row that holds a key is the one `find_row` names.
pub proof fn lemma_find_row(rows: Seq<RowView>, user: u32, id: Seq<char>, i: int)
    requires
        keys_unique(rows),
        0 <= i < rows.len(),
        has_key(rows[i], user, id),
    ensures
        find_row(rows, user, id) == Some(i),
{
    let j = choose|j: int| 0 <= j < rows.len() && has_key(rows[j], user, id);
    if j != i {
        assert(!has_key(rows[j], rows[i].user, rows[i].event.id));
    }
}

/// An upsert keeps keys unique, keeps every existing row in place under its
/// key, and never shrinks the store.
pub proof fn lemma_upsert_one_keeps_keys(rows: Seq<RowView>, user: u32, e: EventView, now: int, allow_uncancel: bool)
    requires
        keys_unique(rows),
    ensures
        keys_unique(upsert_one(rows, user, e, now, allow_uncancel).0),
        upsert_one(rows, user, e, now, allow_uncancel).0.len() >= rows.len(),
        forall|k: int|
            0 <= k < rows.len() ==> (#[trigger] upsert_one(rows, user, e, now, allow_uncancel).0[k]).user == rows[k].user
                && upsert_one(rows, user, e, now, allow_uncancel).0[k].event.id == rows[k].event.id,
{
    let res = upsert_one(rows, user, e, now, allow_uncancel).0;
    match find_row(rows, user, e.id) {
        None => {
            assert forall|a: int, b: int|
                0 <= a < res.len() && 0 <= b < res.len() && a != b implies !has_key(
                res[b],
                res[a].user,
                res[a].event.id,
            ) by {
                if a < rows.len() && b < rows.len() {
                    assert(!has_key(rows[b], rows[a].user, rows[a].event.id));
                } else if a < rows.len() {
                    assert(!has_key(rows[a], user, e.id));
                } else {
                    assert(!has_key(rows[b], user, e.id));
                }
            }
        },
        Some(i) => {
            assert forall|a: int, b: int|
                0 <= a < res.len() && 0 <= b < res.len() && a != b implies !has_key(
                res[b],
                res[a].user,
                res[a].event.id,
            ) by {
                assert(!has_key(rows[b], rows[a].user, rows[a].event.id));
            }
        },
    }
}

/// A batch of one record is one upsert.
pub proof fn lemma_upsert_single(rows: Seq<RowView>, user: u32, e: EventView, now: int, allow_uncancel: bool)
    ensures
        upsert_all(rows, user, seq![e], now, allow_uncancel).0 == upsert_one(rows, user, e, now, allow_uncancel).0,
        upsert_all(rows, user, seq![e], now, allow_uncancel).1 == if upsert_one(rows, user, e, now, allow_uncancel).1 {
            1nat
        } else {
            0nat
        },
{
    let s = seq![e];
    assert(s.drop_last() =~= Seq::<EventView>::empty());
    assert(s.last() == e);
    assert(upsert_all(rows, user, Seq::<EventView>::empty(), now, allow_uncancel).0 == rows);
    assert(upsert_all(rows, user, Seq::<EventView>::empty(), now, allow_uncancel).1 == 0);
}

/// Upserting the same record twice in a row: the second call writes
/// nothing, so the rows and every `updated_at` stay as the first call left
/// them.
pub proof fn lemma_upsert_idempotent(
    rows: Seq<RowView>,
    user: u32,
    e: EventView,
    t1: int,
    t2: int,
    allow_uncancel: bool,
)
    requires
        keys_unique(rows),
    ensures
        ({
            let first = upsert_all(rows, user, seq![e], t1, allow_uncancel);
            let second = upsert_all(first.0, user, seq![e], t2, allow_uncancel);
            second.0 == first.0 && second.1 == 0
        }),
{
    let first = upsert_one(rows, user, e, t1, allow_uncancel);
    lemma_upsert_single(rows, user, e, t1, allow_uncancel);
    lemma_upsert_single(first.0, user, e, t2, allow_uncancel);
    lemma_upsert_one_keeps_keys(rows, user, e, t1, allow_uncancel);
    match find_row(rows, user, e.id) {
        None => {
            let k = rows.len() as int;
            assert(has_key(first.0[k], user, e.id));
            lemma_find_row(first.0, user, e.id, k);
        },
        Some(i) => {
            assert(0 <= i < rows.len() && has_key(rows[i], user, e.id));
            assert(has_key(first.0[i], user, e.id));
            lemma_find_row(first.0, user, e.id, i);
        },
    }
}

/// Re-upserting a stored record with a visible field changed rewrites that
/// row with the incoming fields and stamps it `now`: the changed field takes
/// the new value, every field the record did not change keeps its stored
/// value, and all other rows stay as they were. The one change left out is
/// clearing the cancellation of a booking without an explicit un-cancel,
/// which is refused instead (see `lemma_cancellation_sticks`).
pub proof fn lemma_upsert_detects_change(
    rows: Seq<RowView>,
    user: u32,
    e: EventView,
    now: int,
    allow_uncancel: bool,
    i: int,
)
    requires
        keys_unique(rows),
        0 <= i < rows.len(),
        has_key(rows[i], user, e.id),
        !same_visible(rows[i].event, e),
        !revives(rows[i].event, e, allow_uncancel),
    ensures
        upsert_all(rows, user, seq![e], now, allow_uncancel).0 == rows.update(
            i,
            RowView { user, event: e, updated_at: now },
        ),
        upsert_all(rows, user, seq![e], now, allow_uncancel).1 == 1,
        ({
            let old_ev = rows[i].event;
            let new_ev = upsert_all(rows, user, seq![e], now, allow_uncancel).0[i].event;
            &&& new_ev.id == old_ev.id
            &&& e.title == old_ev.title ==> new_ev.title == old_ev.title
            &&& e.detail == old_ev.detail ==> new_ev.detail == old_ev.detail
            &&& e.invalid == old_ev.invalid ==> new_ev.invalid == old_ev.invalid
            &&& e.date_begin == old_ev.date_begin ==> new_ev.date_begin == old_ev.date_begin
            &&& e.time_begin == old_ev.time_begin ==> new_ev.time_begin == old_ev.time_begin
            &&& e.date_end == old_ev.date_end ==> new_ev.date_end == old_ev.date_end
            &&& e.time_end == old_ev.time_end ==> new_ev.time_end == old_ev.time_end
            &&& e.location == old_ev.location ==> new_ev.location == old_ev.location
            &&& e.url == old_ev.url ==> new_ev.url == old_ev.url
        }),
{
    lemma_upsert_single(rows, user, e, now, allow_uncancel);
    lemma_find_row(rows, user, e.id, i);
}

/// Without an explicit un-cancel, no batch of upserts revives a cancelled
/// booking: a row that was invalid is invalid afterwards, under its key.
pub proof fn lemma_cancellation_sticks(
    rows: Seq<RowView>,
    user: u32,
    events: Seq<EventView>,
    now: int,
    j: int,
)
    requires
        keys_unique(rows),
        0 <= j < rows.len(),
        rows[j].event.invalid,
    ensures
        keys_unique(upsert_all(rows, user, events, now, false).0),
        j < upsert_all(rows, user, events, now, false).0.len(),
        upsert_all(rows, user, events, now, false).0[j].event.invalid,
        upsert_all(rows, user, events, now, false).0[j].user == rows[j].user,
        upsert_all(rows, user, events, now, false).0[j].event.id == rows[j].event.id,
    decreases events.len(),
{
    if events.len() > 0 {
        lemma_cancellation_sticks(rows, user, events.drop_last(), now, j);
        let prev = upsert_all(rows, user, events.drop_last(), now, false).0;
        let e = events.last();
        lemma_upsert_one_keeps_keys(prev, user, e, now, false);
        let res = upsert_one(prev, user, e, now, false).0;
        assert(res[j].user == prev[j].user && res[j].event.id == prev[j].event.id);
    }
}

} // verus!
