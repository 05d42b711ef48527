//! The canonical reservation record and the plain values it is made of.
use vstd::prelude::*;

verus! {

/// Seconds in one day.
pub const SECS_PER_DAY: u32 = 86400;

/// Microseconds in one second.
pub const MICROS_PER_SEC: i64 = 1_000_000;

/// Opaque numeric identity of a user.
#[derive(Clone, Copy, Debug, PartialEq, Eq, Structural, PartialOrd, Ord, Hash)]
pub struct UserId(pub u32);

/// The id of a reservation, `"{provider}/{native id}"`.
#[derive(Debug)]
pub struct ReservationId(String);

/// The id that the remote calendar gave to an event.
#[derive(Debug)]
pub struct EventId(String);

impl View for ReservationId {
    type V = Seq<char>;

    closed spec fn view(&self) -> Seq<char> {
        self.0@
    }
}

impl View for EventId {
    type V = Seq<char>;

    closed spec fn view(&self) -> Seq<char> {
        self.0@
    }
}

impl From<String> for ReservationId {
    fn from(value: String) -> (r: ReservationId)
        ensures
            r@ == value@,
    {
        ReservationId(value)
    }
}

impl vstd::std_specs::convert::FromSpecImpl<String> for ReservationId {
    open spec fn obeys_from_spec() -> bool {
        false
    }

    open spec fn from_spec(v: String) -> ReservationId {
        arbitrary()
    }
}

impl From<String> for EventId {
    fn from(value: String) -> (r: EventId)
        ensures
            r@ == value@,
    {
        EventId(value)
    }
}

impl vstd::std_specs::convert::FromSpecImpl<String> for EventId {
    open spec fn obeys_from_spec() -> bool {
        false
    }

    open spec fn from_spec(v: String) -> EventId {
        arbitrary()
    }
}

impl ReservationId {
    /// Whether this id is `s`.
    pub fn is(&self, s: &String) -> (r: bool)
        ensures
            r == (self@ == s@),
    {
        self.0 == *s
    }

    pub fn new(s: &str) -> (r: ReservationId)
        ensures
            r@ == s@,
    {
        ReservationId(s.to_owned())
    }

    pub fn as_str(&self) -> (r: &str)
        ensures
            r@ == self@,
    {
        self.0.as_str()
    }
}

impl EventId {
    pub fn new(s: &str) -> (r: EventId)
        ensures
            r@ == s@,
    {
        EventId(s.to_owned())
    }

    pub fn as_str(&self) -> (r: &str)
        ensures
            r@ == self@,
    {
        self.0.as_str()
    }
}

/// A calendar day, counted in days from 1970-01-01 (negative before it).
#[derive(Clone, Copy, Debug, PartialEq, Eq, Structural, Hash)]
pub struct Date {
    pub days: i32,
}

/// A time of day in whole seconds after midnight; meaningful below one day.
#[derive(Clone, Copy, Debug, PartialEq, Eq, Structural, Hash)]
pub struct TimeOfDay {
    pub secs: u32,
}

impl Date {
    pub fn from_days(days: i32) -> (r: Date)
        ensures
            r.days == days,
    {
        Date { days }
    }

    /// The following day, or `None` at the end of the representable range.
    pub fn next_day(&self) -> (r: Option<Date>)
        ensures
            self.days < i32::MAX ==> r == Some(Date { days: (self.days + 1) as i32 }),
            self.days == i32::MAX ==> r is None,
    {
        if self.days < i32::MAX {
            Some(Date { days: self.days + 1 })
        } else {
            None
        }
    }
}

impl TimeOfDay {
    pub open spec fn wf(self) -> bool {
        self.secs < SECS_PER_DAY
    }

    /// The time `h:m:s`, or `None` when a component is out of range.
    pub fn from_hms(h: u32, m: u32, s: u32) -> (r: Option<TimeOfDay>)
        ensures
            (h < 24 && m < 60 && s < 60) <==> r is Some,
            r is Some ==> r->0.secs == h * 3600 + m * 60 + s && r->0.wf(),
    {
        if h < 24 && m < 60 && s < 60 {
            Some(TimeOfDay { secs: h * 3600 + m * 60 + s })
        } else {
            None
        }
    }
}

/// Microseconds since 1970-01-01T00:00:00 UTC.
pub type Timestamp = i64;

/// The instant at which a day (and an optional time of day) begins, in
/// microseconds since the epoch; a day without a time begins at midnight.
pub open spec fn instant_of(date: Date, time: Option<TimeOfDay>) -> int {
    date.days * (SECS_PER_DAY as int) * (MICROS_PER_SEC as int) + match time {
        Some(t) => t.secs * (MICROS_PER_SEC as int),
        None => 0int,
    }
}

/// Converts a local day and time at a fixed offset east of UTC (in seconds)
/// to the same instant in UTC.
pub open spec fn to_utc_spec(date: Date, time: TimeOfDay, offset_secs: int) -> (int, int) {
    let total = date.days * (SECS_PER_DAY as int) + time.secs - offset_secs;
    (total / (SECS_PER_DAY as int), total % (SECS_PER_DAY as int))
}

/// Converts a local date and time at a fixed offset east of UTC to UTC.
pub fn date_time_to_utc(date: Date, time: TimeOfDay, offset_secs: i32) -> (r: (Date, TimeOfDay))
    requires
        time.wf(),
        -86400 < offset_secs < 86400,
        i32::MIN < date.days < i32::MAX,
    ensures
        r.0.days == to_utc_spec(date, time, offset_secs as int).0,
        r.1.secs == to_utc_spec(date, time, offset_secs as int).1,
        r.1.wf(),
{
    let t: i64 = time.secs as i64 - offset_secs as i64;
    let day: i64 = date.days as i64;
    let (d, s) = if t < 0 {
        (day - 1, t + 86400)
    } else if t >= 86400 {
        (day + 1, t - 86400)
    } else {
        (day, t)
    };
    proof {
        let total = date.days * 86400 + time.secs - offset_secs;
        assert(total == d * 86400 + s);
        assert(0 <= s < 86400);
        vstd::arithmetic::div_mod::lemma_fundamental_div_mod_converse(total, 86400, d as int, s as int);
    }
    (Date { days: d as i32 }, TimeOfDay { secs: s as u32 })
}

/// A provider's reservation record, the unit that the store and the remote
/// calendar are reconciled on. `id` is `"{provider}/{native id}"`.
/// Without `time_begin` the event lasts whole days. `date_end` is the end
/// instant: with `time_end` a moment, without it a day boundary that is
/// exclusive (the first day after the booking), as calendars expect.
#[derive(Debug)]
pub struct CalendarEvent {
    pub id: String,
    pub title: String,
    pub detail: String,
    pub invalid: bool,
    pub date_begin: Date,
    pub time_begin: Option<TimeOfDay>,
    pub date_end: Option<Date>,
    pub time_end: Option<TimeOfDay>,
    pub location: Option<String>,
    pub url: Option<String>,
}

/// The mathematical content of a [`CalendarEvent`].
pub struct EventView {
    pub id: Seq<char>,
    pub title: Seq<char>,
    pub detail: Seq<char>,
    pub invalid: bool,
    pub date_begin: Date,
    pub time_begin: Option<TimeOfDay>,
    pub date_end: Option<Date>,
    pub time_end: Option<TimeOfDay>,
    pub location: Option<Seq<char>>,
    pub url: Option<Seq<char>>,
}

pub open spec fn opt_str_view(o: Option<String>) -> Option<Seq<char>> {
    match o {
        Some(s) => Some(s@),
        None => None,
    }
}

impl View for CalendarEvent {
    type V = EventView;

    open spec fn view(&self) -> EventView {
        EventView {
            id: self.id@,
            title: self.title@,
            detail: self.detail@,
            invalid: self.invalid,
            date_begin: self.date_begin,
            time_begin: self.time_begin,
            date_end: self.date_end,
            time_end: self.time_end,
            location: opt_str_view(self.location),
            url: opt_str_view(self.url),
        }
    }
}

pub open spec fn events_view(v: Seq<CalendarEvent>) -> Seq<EventView> {
    v.map_values(|e: CalendarEvent| e@)
}

/// Two records agree on every field that a reader sees (all but the id).
pub open spec fn same_visible(a: EventView, b: EventView) -> bool {
    &&& a.title == b.title
    &&& a.detail == b.detail
    &&& a.invalid == b.invalid
    &&& a.date_begin == b.date_begin
    &&& a.time_begin == b.time_begin
    &&& a.date_end == b.date_end
    &&& a.time_end == b.time_end
    &&& a.location == b.location
    &&& a.url == b.url
}

/// The record with its cancellation flag replaced.
pub open spec fn with_invalid(e: EventView, invalid: bool) -> EventView {
    EventView { invalid, ..e }
}

fn eq_opt_string(a: &Option<String>, b: &Option<String>) -> (r: bool)
    ensures
        r == (opt_str_view(*a) == opt_str_view(*b)),
{
    match (a, b) {
        (Some(x), Some(y)) => *x == *y,
        (None, None) => true,
        _ => false,
    }
}

fn eq_opt_time(a: &Option<TimeOfDay>, b: &Option<TimeOfDay>) -> (r: bool)
    ensures
        r == (*a == *b),
{
    match (a, b) {
        (Some(x), Some(y)) => x.secs == y.secs,
        (None, None) => true,
        _ => false,
    }
}

fn eq_opt_date(a: &Option<Date>, b: &Option<Date>) -> (r: bool)
    ensures
        r == (*a == *b),
{
    match (a, b) {
        (Some(x), Some(y)) => x.days == y.days,
        (None, None) => true,
        _ => false,
    }
}

fn copy_opt_string(a: &Option<String>) -> (r: Option<String>)
    ensures
        opt_str_view(r) == opt_str_view(*a),
{
    match a {
        Some(x) => Some(x.clone()),
        None => None,
    }
}

impl CalendarEvent {
    /// Whether `other` differs from this record in no visible field.
    pub fn same_visible_fields(&self, other: &CalendarEvent) -> (r: bool)
        ensures
            r == same_visible(self@, other@),
    {
        self.title == other.title && self.detail == other.detail && self.invalid == other.invalid
            && self.date_begin.days == other.date_begin.days && eq_opt_time(
            &self.time_begin,
            &other.time_begin,
        ) && eq_opt_date(&self.date_end, &other.date_end) && eq_opt_time(
            &self.time_end,
            &other.time_end,
        ) && eq_opt_string(&self.location, &other.location) && eq_opt_string(
            &self.url,
            &other.url,
        )
    }

    /// A field-by-field copy.
    pub fn copy(&self) -> (r: CalendarEvent)
        ensures
            r@ == self@,
    {
        CalendarEvent {
            id: self.id.clone(),
            title: self.title.clone(),
            detail: self.detail.clone(),
            invalid: self.invalid,
            date_begin: self.date_begin,
            time_begin: self.time_begin,
            date_end: self.date_end,
            time_end: self.time_end,
            location: copy_opt_string(&self.location),
            url: copy_opt_string(&self.url),
        }
    }

    /// The instant at which the event starts, in microseconds since the epoch.
    pub fn start_instant(&self) -> (r: i128)
        ensures
            r == instant_of(self.date_begin, self.time_begin),
    {
        let day: i128 = self.date_begin.days as i128 * 86_400_000_000;
        match self.time_begin {
            Some(t) => day + t.secs as i128 * 1_000_000,
            None => day,
        }
    }
}

} // verus!
