use reservation_sync::event::{date_time_to_utc, CalendarEvent, Date, EventId, ReservationId, TimeOfDay};

fn sample(id: &str) -> CalendarEvent {
    CalendarEvent {
        id: id.to_string(),
        title: "Movie - Theater".to_string(),
        detail: "Hall: 3\nSeat: F7\n".to_string(),
        invalid: false,
        date_begin: Date::from_days(19_800),
        time_begin: TimeOfDay::from_hms(19, 30, 0),
        date_end: Some(Date::from_days(19_800)),
        time_end: TimeOfDay::from_hms(21, 40, 0),
        location: Some("Theater".to_string()),
        url: Some("https://example.com/booking/1".to_string()),
    }
}

#[test]
fn from_hms_builds_seconds_after_midnight() {
    assert_eq!(TimeOfDay::from_hms(1, 2, 3).map(|t| t.secs), Some(3723));
    assert_eq!(TimeOfDay::from_hms(23, 59, 59).map(|t| t.secs), Some(86_399));
    assert!(TimeOfDay::from_hms(24, 0, 0).is_none());
    assert!(TimeOfDay::from_hms(0, 60, 0).is_none());
    assert!(TimeOfDay::from_hms(0, 0, 60).is_none());
}

#[test]
fn utc_conversion_moves_back_a_day_before_the_offset() {
    // 05:00 at UTC+9 is 20:00 of the previous day in UTC.
    let (d, t) = date_time_to_utc(Date::from_days(100), TimeOfDay::from_hms(5, 0, 0).unwrap(), 9 * 3600);
    assert_eq!(d, Date::from_days(99));
    assert_eq!(t.secs, 20 * 3600);
}

#[test]
fn utc_conversion_stays_on_the_day() {
    let (d, t) = date_time_to_utc(Date::from_days(100), TimeOfDay::from_hms(19, 30, 0).unwrap(), 9 * 3600);
    assert_eq!(d, Date::from_days(100));
    assert_eq!(t.secs, 10 * 3600 + 30 * 60);
}

#[test]
fn utc_conversion_moves_forward_with_a_negative_offset() {
    let (d, t) = date_time_to_utc(Date::from_days(-1), TimeOfDay::from_hms(22, 0, 0).unwrap(), -5 * 3600);
    assert_eq!(d, Date::from_days(0));
    assert_eq!(t.secs, 3 * 3600);
}

#[test]
fn next_day_stops_at_the_end_of_the_range() {
    assert_eq!(Date::from_days(5).next_day(), Some(Date::from_days(6)));
    assert_eq!(Date::from_days(i32::MAX).next_day(), None);
}

#[test]
fn visible_fields_ignore_the_id() {
    let a = sample("cgv/1");
    let mut b = sample("cgv/2");
    assert!(a.same_visible_fields(&b));
    b.url = None;
    assert!(!a.same_visible_fields(&b));
    let mut c = a.copy();
    c.time_end = None;
    assert!(!a.same_visible_fields(&c));
    assert!(a.same_visible_fields(&a.copy()));
}

#[test]
fn start_instant_counts_microseconds_since_the_epoch() {
    let mut e = sample("cgv/1");
    e.date_begin = Date::from_days(1);
    e.time_begin = TimeOfDay::from_hms(0, 0, 1);
    assert_eq!(e.start_instant(), 86_400_000_000 + 1_000_000);
    e.time_begin = None;
    assert_eq!(e.start_instant(), 86_400_000_000);
}

#[test]
fn ids_keep_their_text() {
    let r = ReservationId::from("cgv/123".to_string());
    assert_eq!(r.as_str(), "cgv/123");
    assert!(r.is(&"cgv/123".to_string()));
    assert!(!r.is(&"cgv/124".to_string()));
    assert_eq!(EventId::new("abc").as_str(), "abc");
    assert_eq!(EventId::from("xyz".to_string()).as_str(), "xyz");
}
