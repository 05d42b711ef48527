use reservation_sync::event::{CalendarEvent, Date, EventId, ReservationId, TimeOfDay, UserId};
use reservation_sync::remote::{
    finish_sync, plan_sync, to_remote_event, EventMapping, OpOutcome, RemoteAction, RemoteBinding, RemoteTime,
    TargetType, REMOTE_TIME_ZONE,
};
use reservation_sync::store::ReservationTable;

const U: UserId = UserId(1);

fn event(id: &str, title: &str) -> CalendarEvent {
    CalendarEvent {
        id: id.to_string(),
        title: title.to_string(),
        detail: "detail".to_string(),
        invalid: false,
        date_begin: Date::from_days(200),
        time_begin: TimeOfDay::from_hms(10, 0, 0),
        date_end: Some(Date::from_days(200)),
        time_end: TimeOfDay::from_hms(11, 0, 0),
        location: Some("Hall".to_string()),
        url: None,
    }
}

fn mapping(rid: &str, eid: &str) -> EventMapping {
    EventMapping { reservation_id: ReservationId::new(rid), event_id: EventId::new(eid) }
}

#[test]
fn timed_event_projects_to_timed_utc_entries() {
    let r = to_remote_event(&event("a/1", "Title"));
    assert_eq!(r.summary, "Title");
    assert_eq!(r.description, "detail");
    assert_eq!(r.start, RemoteTime::Timed { date: Date::from_days(200), time: TimeOfDay { secs: 36_000 } });
    assert_eq!(r.end, RemoteTime::Timed { date: Date::from_days(200), time: TimeOfDay { secs: 39_600 } });
    assert_eq!(r.location.as_deref(), Some("Hall"));
    assert_eq!(REMOTE_TIME_ZONE, "GMT+00:00");
}

#[test]
fn url_is_appended_to_the_description() {
    let mut e = event("a/1", "Title");
    e.url = Some("https://example.com/x".to_string());
    assert_eq!(to_remote_event(&e).description, "detail\nhttps://example.com/x");
}

#[test]
fn missing_end_equals_start() {
    let mut e = event("a/1", "Title");
    e.date_end = None;
    e.time_end = None;
    let r = to_remote_event(&e);
    assert_eq!(r.end, r.start);
    e.time_begin = None;
    let r = to_remote_event(&e);
    assert_eq!(r.start, RemoteTime::AllDay { date: Date::from_days(200) });
    assert_eq!(r.end, RemoteTime::AllDay { date: Date::from_days(200) });
}

#[test]
fn all_day_end_is_written_as_stored() {
    let mut e = event("a/1", "Trip");
    e.time_begin = None;
    e.time_end = None;
    e.date_end = Some(Date::from_days(203));
    let r = to_remote_event(&e);
    assert_eq!(r.start, RemoteTime::AllDay { date: Date::from_days(200) });
    assert_eq!(r.end, RemoteTime::AllDay { date: Date::from_days(203) });
}

#[test]
fn a_sync_creates_patches_and_deletes_exactly_once_each() {
    let mut t = ReservationTable::new();
    t.upsert_events_at(U, &vec![event("a/changed", "old"), event("a/cancel", "c"), event("a/same", "s")], 100, false);
    let last_synced = 150;
    let mut changed = event("a/changed", "new");
    changed.detail = "detail".to_string();
    let mut cancelled = event("a/cancel", "c");
    cancelled.invalid = true;
    t.upsert_events_at(U, &vec![event("a/new", "n"), changed, cancelled, event("a/same", "s")], 200, false);

    let rows = t.changed_since(U, last_synced);
    assert_eq!(rows.len(), 3);
    let mappings = vec![mapping("a/changed", "g1"), mapping("a/cancel", "g2"), mapping("a/same", "g3")];
    let ops = plan_sync(&rows, &mappings);
    assert_eq!(ops.len(), 3);
    let creates: Vec<&str> =
        ops.iter().filter(|o| matches!(o.action, RemoteAction::Create { .. })).map(|o| o.reservation_id.as_str()).collect();
    let patches: Vec<&str> =
        ops.iter().filter(|o| matches!(o.action, RemoteAction::Patch { .. })).map(|o| o.reservation_id.as_str()).collect();
    let deletes: Vec<&str> =
        ops.iter().filter(|o| matches!(o.action, RemoteAction::Delete { .. })).map(|o| o.reservation_id.as_str()).collect();
    assert_eq!(creates, vec!["a/new"]);
    assert_eq!(patches, vec!["a/changed"]);
    assert_eq!(deletes, vec!["a/cancel"]);
    assert!(ops.iter().all(|o| o.reservation_id.as_str() != "a/same"));
    for o in &ops {
        match &o.action {
            RemoteAction::Patch { event_id, body } => {
                assert_eq!(event_id.as_str(), "g1");
                assert_eq!(body.summary, "new");
            }
            RemoteAction::Delete { event_id } => assert_eq!(event_id.as_str(), "g2"),
            RemoteAction::Create { body } => assert_eq!(body.summary, "n"),
        }
    }

    let outcomes: Vec<OpOutcome> = ops
        .iter()
        .map(|o| match o.action {
            RemoteAction::Create { .. } => OpOutcome::Created { event_id: EventId::new("g9") },
            _ => OpOutcome::Applied,
        })
        .collect();
    let now = 300;
    let done = finish_sync(&ops, &outcomes, now);
    assert_eq!(done.watermark, now);
    assert_eq!(done.new_mappings.len(), 1);
    assert_eq!(done.new_mappings[0].reservation_id.as_str(), "a/new");
    assert_eq!(done.new_mappings[0].event_id.as_str(), "g9");
    assert!(t.changed_since(U, done.watermark).is_empty());
}

#[test]
fn cancelled_unmapped_rows_need_nothing() {
    let mut e = event("a/1", "x");
    e.invalid = true;
    let mut t = ReservationTable::new();
    t.upsert_events_at(U, &vec![e], 10, false);
    assert!(plan_sync(&t.changed_since(U, 0), &vec![]).is_empty());
}

#[test]
fn the_first_mapping_of_a_reservation_is_used() {
    let mut t = ReservationTable::new();
    t.upsert_events_at(U, &vec![event("a/1", "x")], 10, false);
    let ops = plan_sync(&t.changed_since(U, 0), &vec![mapping("a/1", "first"), mapping("a/1", "second")]);
    assert_eq!(ops.len(), 1);
    match &ops[0].action {
        RemoteAction::Patch { event_id, .. } => assert_eq!(event_id.as_str(), "first"),
        _ => panic!("expected a patch"),
    }
}

#[test]
fn nothing_changed_still_advances_the_watermark() {
    let done = finish_sync(&vec![], &vec![], 500);
    assert_eq!(done.watermark, 500);
    assert!(done.new_mappings.is_empty());
}

#[test]
fn a_failed_operation_holds_the_watermark_before_its_change() {
    let mut t = ReservationTable::new();
    t.upsert_events_at(U, &vec![event("a/1", "x")], 100, false);
    t.upsert_events_at(U, &vec![event("a/2", "y")], 200, false);
    let ops = plan_sync(&t.changed_since(U, 50), &vec![mapping("a/2", "g2")]);
    assert_eq!(ops.len(), 2);
    let outcomes = vec![OpOutcome::Failed, OpOutcome::Applied];
    let done = finish_sync(&ops, &outcomes, 900);
    assert_eq!(done.watermark, 99);
    assert!(done.new_mappings.is_empty());
    let retry = t.changed_since(U, done.watermark);
    assert_eq!(retry.len(), 2);
}

#[test]
fn a_delete_of_a_missing_remote_event_counts_as_done() {
    let mut e = event("a/1", "x");
    e.invalid = true;
    let mut t = ReservationTable::new();
    t.upsert_events_at(U, &vec![e], 100, false);
    let ops = plan_sync(&t.changed_since(U, 0), &vec![mapping("a/1", "g")]);
    assert_eq!(finish_sync(&ops, &vec![OpOutcome::NotFound], 400).watermark, 400);
    assert_eq!(finish_sync(&ops, &vec![OpOutcome::Failed], 400).watermark, 99);
}

#[test]
fn a_patch_that_finds_nothing_is_retried() {
    let mut t = ReservationTable::new();
    t.upsert_events_at(U, &vec![event("a/1", "x")], 100, false);
    let ops = plan_sync(&t.changed_since(U, 0), &vec![mapping("a/1", "g")]);
    assert_eq!(finish_sync(&ops, &vec![OpOutcome::NotFound], 400).watermark, 99);
}

#[test]
fn a_binding_without_calendar_is_no_target() {
    let b = RemoteBinding { calendar_id: String::new(), last_synced: 5 };
    assert!(b.target().is_none());
    let b = RemoteBinding { calendar_id: "cal@group".to_string(), last_synced: 5 };
    assert_eq!(b.target(), Some((TargetType::GoogleCalendar, 5)));
    assert_eq!(TargetType::GoogleCalendar.name(), "GoogleCalendar");
}
