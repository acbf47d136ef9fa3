//! Events and groups, as stored, as answered and as put in a calendar.

use std::fmt::Write;
use vstd::prelude::*;
use vstd::arithmetic::power2::{pow2, lemma_pow2_pos, lemma_pow2_adds, lemma2_to64};
use vstd::arithmetic::div_mod::{lemma_div_denominator, lemma_fundamental_div_mod, lemma_basic_div};

verus! {

/// An event as a client submits it.
#[derive(Debug, PartialEq, Eq)]
pub struct NewEvent {
    pub name: String,
    pub email: String,
    pub description: String,
    pub group: String,
    /// Start of event in milliseconds since UNIX epoch
    pub start: i64,
    /// End of event in milliseconds since UNIX epoch
    pub end: i64,
}

/// An event as the service answers it.
#[derive(Debug, PartialEq, Eq)]
pub struct EventResponse {
    /// UUID of event
    pub id: String,
    pub name: String,
    pub email: String,
    pub description: String,
    pub group: String,
    /// Start of event in milliseconds since UNIX epoch
    pub start: i64,
    /// End of event in milliseconds since UNIX epoch
    pub end: i64,
}

/// An event as the database stores it.
#[derive(Debug, PartialEq, Eq)]
pub struct DbEvent {
    /// The event's UUID, as its 128 bits read big-endian.
    pub id: u128,
    pub name: String,
    pub email: String,
    pub description: String,
    pub group: String,
    /// Start of event in milliseconds since UNIX epoch (UTC)
    pub start: i64,
    /// End of event in milliseconds since UNIX epoch (UTC)
    pub end: i64,
}

/// A group as the database stores it.
#[derive(Debug, PartialEq, Eq)]
pub struct DbGroup {
    pub name: String,
}

/// The first millisecond that chrono's `DateTime<Utc>` can hold (January 1, 262144 BCE).
pub const MIN_TIMESTAMP_MILLIS: i64 = -8334601228800000;

/// The last millisecond that chrono's `DateTime<Utc>` can hold (December 31, 262142).
pub const MAX_TIMESTAMP_MILLIS: i64 = 8210266876799999;

/// A millisecond that a `DateTime<Utc>` can hold.
pub open spec fn is_datetime_millis(ms: i64) -> bool {
    MIN_TIMESTAMP_MILLIS <= ms <= MAX_TIMESTAMP_MILLIS
}

impl DbEvent {
    /// Both instants of the event are instants that a `DateTime<Utc>` can hold,
    /// as every event read from the database is.
    pub open spec fn wf(&self) -> bool {
        is_datetime_millis(self.start) && is_datetime_millis(self.end)
    }
}

/// The lower-case hexadecimal digit of `d` (0 to 15).
pub open spec fn hex_digit(d: int) -> char {
    if d < 10 {
        (d + 48) as char
    } else {
        (d + 87) as char
    }
}

/// The `k`-th hexadecimal digit of `id`, counted from the most significant (0 to 31).
pub open spec fn uuid_nibble(id: u128, k: int) -> int {
    ((id as int) / (pow2((4 * (31 - k)) as nat) as int)) % 16
}

/// How many hyphens stand before position `i` of a hyphenated UUID.
pub open spec fn hyphens_before(i: int) -> int {
    if i < 8 {
        0
    } else if i < 13 {
        1
    } else if i < 18 {
        2
    } else if i < 23 {
        3
    } else {
        4
    }
}

/// The hyphenated lower-case form of a UUID: its 32 hexadecimal digits, most
/// significant first, in groups of 8, 4, 4, 4 and 12 joined with `-`.
pub open spec fn uuid_hyphenated(id: u128) -> Seq<char> {
    Seq::new(36, |i: int|
        if i == 8 || i == 13 || i == 18 || i == 23 {
            '-'
        } else {
            hex_digit(uuid_nibble(id, i - hyphens_before(i)))
        }
    )
}

/// Calls `uuid::Uuid::from_u128(id).as_hyphenated().to_string()`.
/// Claimed: the text is `uuid_hyphenated(id)`; `from_u128` takes the bits
/// big-endian and the hyphenated form writes lower-case digits.
#[verifier::external_body]
fn hyphenated_uuid(id: u128) -> (r: String)
    ensures
        r@ == uuid_hyphenated(id),
{
    uuid::Uuid::from_u128(id).as_hyphenated().to_string()
}

/// Text escaped for an iCalendar TEXT value: `,` `;` `\` get a backslash before
/// them, a line feed becomes `\n`, a carriage return becomes `\n` unless a line
/// feed follows it, in which case it is dropped.
pub open spec fn ics_escaped(s: Seq<char>) -> Seq<char>
    decreases s.len(),
{
    if s.len() == 0 {
        Seq::<char>::empty()
    } else {
        let c = s[0];
        let rest = s.drop_first();
        if c == ',' || c == ';' || c == '\\' {
            seq!['\\', c] + ics_escaped(rest)
        } else if c == '\n' {
            seq!['\\', 'n'] + ics_escaped(rest)
        } else if c == '\r' {
            if rest.len() > 0 && rest[0] == '\n' {
                ics_escaped(rest)
            } else {
                seq!['\\', 'n'] + ics_escaped(rest)
            }
        } else {
            seq![c] + ics_escaped(rest)
        }
    }
}

/// Calls `ics::escape_text(input)`.
/// Claimed: the result is `ics_escaped` of the input, as the function's source
/// (ics 0.5, `util.rs`) builds it.
#[verifier::external_body]
fn escape_text(input: &str) -> (r: String)
    ensures
        r@ == ics_escaped(input@),
{
    ics::escape_text(input).into_owned()
}

/// Escaped text never holds a line break, so it stays on one content line.
pub proof fn lemma_escaped_has_no_line_break(s: Seq<char>)
    ensures
        !ics_escaped(s).contains('\n'),
        !ics_escaped(s).contains('\r'),
    decreases s.len(),
{
    if s.len() > 0 {
        let c = s[0];
        let rest = s.drop_first();
        lemma_escaped_has_no_line_break(rest);
        let er = ics_escaped(rest);
        let head: Seq<char> = if c == ',' || c == ';' || c == '\\' {
            seq!['\\', c]
        } else if c == '\n' {
            seq!['\\', 'n']
        } else if c == '\r' {
            if rest.len() > 0 && rest[0] == '\n' {
                Seq::<char>::empty()
            } else {
                seq!['\\', 'n']
            }
        } else {
            seq![c]
        };
        assert(ics_escaped(s) =~= head + er);
        assert forall|k: int| 0 <= k < (head + er).len() implies
            (head + er)[k] != '\n' && (head + er)[k] != '\r' by {
            if k >= head.len() {
                assert((head + er)[k] == er[k - head.len()]);
            }
        }
    }
}

/// The hyphenated form of a UUID is 36 characters: hyphens at positions 8, 13,
/// 18 and 23 and lower-case hexadecimal digits everywhere else.
pub proof fn lemma_uuid_text_shape(id: u128)
    ensures
        uuid_hyphenated(id).len() == 36,
        forall|i: int| 0 <= i < 36 ==> {
            let ch = #[trigger] uuid_hyphenated(id)[i];
            if i == 8 || i == 13 || i == 18 || i == 23 {
                ch == '-'
            } else {
                ('0' <= ch && ch <= '9') || ('a' <= ch && ch <= 'f')
            }
        },
{
    assert forall|i: int| 0 <= i < 36 && !(i == 8 || i == 13 || i == 18 || i == 23) implies {
        let ch = #[trigger] uuid_hyphenated(id)[i];
        ('0' <= ch && ch <= '9') || ('a' <= ch && ch <= 'f')
    } by {
        let d = uuid_nibble(id, i - hyphens_before(i));
        assert(0 <= d < 16);
    }
}

/// The leading hexadecimal digits of `id`, all but the last `j`, as a number.
spec fn uuid_prefix(id: u128, j: nat) -> int {
    (id as int) / (pow2(4 * j) as int)
}

proof fn lemma_uuid_prefix_step(id: u128, j: nat)
    ensures
        uuid_prefix(id, j) == 16 * uuid_prefix(id, j + 1) + uuid_prefix(id, j) % 16,
{
    let p = pow2(4 * j) as int;
    lemma_pow2_pos(4 * j);
    lemma_pow2_adds(4 * j, 4);
    lemma2_to64();
    assert(4 * (j + 1) == 4 * j + 4);
    lemma_div_denominator(id as int, p, 16);
    lemma_fundamental_div_mod(uuid_prefix(id, j), 16);
}

proof fn lemma_uuid_prefixes_agree(a: u128, b: u128, j: nat)
    requires
        j <= 32,
        forall|k: int| 0 <= k < 32 ==> #[trigger] uuid_nibble(a, k) == uuid_nibble(b, k),
    ensures
        uuid_prefix(a, j) == uuid_prefix(b, j),
    decreases 32 - j,
{
    if j == 32 {
        lemma2_to64();
        lemma_pow2_adds(64, 64);
        assert(pow2(128) == 0x10000000000000000 * 0x10000000000000000);
        lemma_basic_div(a as int, pow2(128) as int);
        lemma_basic_div(b as int, pow2(128) as int);
    } else {
        lemma_uuid_prefixes_agree(a, b, j + 1);
        lemma_uuid_prefix_step(a, j);
        lemma_uuid_prefix_step(b, j);
        let k = 31 - j;
        assert(4 * (31 - k) == 4 * j);
        assert(uuid_nibble(a, k) == uuid_nibble(b, k));
    }
}

/// The position in a hyphenated UUID of its `k`-th hexadecimal digit.
spec fn uuid_digit_position(k: int) -> int {
    k + (if k >= 8 { 1int } else { 0 }) + (if k >= 12 { 1int } else { 0 }) + (if k >= 16 { 1int } else { 0 })
        + (if k >= 20 { 1int } else { 0 })
}

/// The hyphenated form names one UUID only: reading it back gives the id it was made from.
pub proof fn lemma_uuid_hyphenated_injective(a: u128, b: u128)
    requires
        uuid_hyphenated(a) == uuid_hyphenated(b),
    ensures
        a == b,
{
    assert forall|k: int| 0 <= k < 32 implies #[trigger] uuid_nibble(a, k) == uuid_nibble(b, k) by {
        let i = uuid_digit_position(k);
        assert(0 <= i < 36);
        assert(i - hyphens_before(i) == k);
        assert(!(i == 8 || i == 13 || i == 18 || i == 23));
        assert(uuid_hyphenated(a)[i] == uuid_hyphenated(b)[i]);
        assert(uuid_hyphenated(a)[i] == hex_digit(uuid_nibble(a, k)));
        assert(uuid_hyphenated(b)[i] == hex_digit(uuid_nibble(b, k)));
        let da = uuid_nibble(a, k);
        let db = uuid_nibble(b, k);
        assert(0 <= da < 16 && 0 <= db < 16);
        assert(hex_digit(da) == hex_digit(db));
        assert(hex_digit(da) as int == (if da < 10 { da + 48 } else { da + 87 }));
        assert(hex_digit(db) as int == (if db < 10 { db + 48 } else { db + 87 }));
    }
    lemma_uuid_prefixes_agree(a, b, 0);
    lemma2_to64();
    assert(pow2(4 * 0nat) == 1);
    assert(uuid_prefix(a, 0) == a as int);
    assert(uuid_prefix(b, 0) == b as int);
}

/// What chrono gives for `DateTime::<Utc>::from_timestamp_millis(millis)` formatted
/// with the `strftime` pattern: `None` where the instant is out of range or the
/// pattern cannot be rendered.
pub uninterp spec fn utc_formatted(millis: i64, pattern: Seq<char>) -> Option<Seq<char>>;

/// The pattern of iCalendar UTC date-times, such as `20240131T235959Z`.
pub open spec fn ical_datetime_pattern() -> Seq<char> {
    "%Y%m%dT%H%M%SZ"@
}

/// Calls `chrono::DateTime::<Utc>::from_timestamp_millis(millis)` and writes its
/// `format(pattern)`.
/// Claimed: the outcome is `utc_formatted(millis, pattern)`, a function of the two
/// arguments; and for an instant that a `DateTime<Utc>` can hold, with the
/// iCalendar pattern, whose items chrono all renders, the outcome is text.
#[verifier::external_body]
fn format_utc_millis(millis: i64, pattern: &str) -> (r: Option<String>)
    ensures
        r matches Some(s) ==> utc_formatted(millis, pattern@) == Some(s@),
        r is None ==> utc_formatted(millis, pattern@) is None,
        is_datetime_millis(millis) && pattern@ == ical_datetime_pattern() ==> r is Some,
{
    let dt = chrono::DateTime::<chrono::Utc>::from_timestamp_millis(millis)?;
    let mut out = String::new();
    write!(out, "{}", dt.format(pattern)).ok()?;
    Some(out)
}

/// An instant in the iCalendar UTC form `YYYYMMDDTHHMMSSZ`.
pub open spec fn ical_datetime(millis: i64) -> Seq<char> {
    utc_formatted(millis, ical_datetime_pattern())->Some_0
}

/// Formats an instant (milliseconds since UNIX epoch) as an iCalendar UTC date-time.
pub fn format_datetime(millis: i64) -> (r: String)
    requires
        is_datetime_millis(millis),
    ensures
        r@ == ical_datetime(millis),
{
    match format_utc_millis(millis, "%Y%m%dT%H%M%SZ") {
        Some(s) => s,
        None => {
            proof {
                assert(false);
            }
            String::new()
        },
    }
}

impl EventResponse {
    /// The answer for a stored event: its UUID in hyphenated form, the
    /// same texts, the same instants.
    pub fn from(event: DbEvent) -> (r: EventResponse)
        ensures
            r.id@ == uuid_hyphenated(event.id),
            r.name == event.name,
            r.email == event.email,
            r.description == event.description,
            r.group == event.group,
            r.start == event.start,
            r.end == event.end,
    {
        let id = hyphenated_uuid(event.id);
        EventResponse {
            id,
            name: event.name,
            email: event.email,
            description: event.description,
            group: event.group,
            start: event.start,
            end: event.end,
        }
    }
}

/// One event of a calendar, its properties as the calendar writes them.
#[derive(Debug, PartialEq, Eq)]
pub struct CalendarEvent {
    pub uid: String,
    pub dtstamp: String,
    pub summary: String,
    pub description: String,
    pub organizer: String,
    pub dtstart: String,
    pub dtend: String,
    pub categories: String,
}

/// The calendar properties of a stored event: its UUID as UID, its start as
/// stamp and start, its end, its name as summary, its escaped description, its
/// email as a `mailto:` organizer and its group as category.
pub open spec fn is_calendar_event_of(c: CalendarEvent, e: DbEvent) -> bool {
    &&& c.uid@ == uuid_hyphenated(e.id)
    &&& c.dtstamp@ == ical_datetime(e.start)
    &&& c.summary@ == e.name@
    &&& c.description@ == ics_escaped(e.description@)
    &&& c.organizer@ == "mailto:"@ + e.email@
    &&& c.dtstart@ == ical_datetime(e.start)
    &&& c.dtend@ == ical_datetime(e.end)
    &&& c.categories@ == e.group@
}

impl CalendarEvent {
    /// The calendar properties of a stored event.
    pub fn from(event: &DbEvent) -> (r: CalendarEvent)
        requires
            event.wf(),
        ensures
            is_calendar_event_of(r, *event),
    {
        let mailto = String::from_str("mailto:");
        CalendarEvent {
            uid: hyphenated_uuid(event.id),
            dtstamp: format_datetime(event.start),
            summary: event.name.clone(),
            description: escape_text(event.description.as_str()),
            organizer: mailto.concat(event.email.as_str()),
            dtstart: format_datetime(event.start),
            dtend: format_datetime(event.end),
            categories: event.group.clone(),
        }
    }
}

/// An event is known by one identifier everywhere: the UID of its calendar entry
/// is the id of its answer.
pub proof fn lemma_calendar_uid_is_answer_id(c: CalendarEvent, r: EventResponse, e: DbEvent)
    requires
        is_calendar_event_of(c, e),
        r.id@ == uuid_hyphenated(e.id),
    ensures
        c.uid@ == r.id@,
{
}

/// Each property of a calendar entry is drawn from its own field of the stored
/// event and from nothing else: two events that agree on a field get entries that
/// agree on the property made from it, whatever their other fields (an event's
/// end alone decides its `DTEND`, its name alone its `SUMMARY`, ...). The entry's
/// `DTEND` is the event's end formatted, and its `DTSTAMP` is its `DTSTART`.
pub proof fn lemma_calendar_entry_draws_each_property_from_its_field(
    c1: CalendarEvent,
    e1: DbEvent,
    c2: CalendarEvent,
    e2: DbEvent,
)
    requires
        is_calendar_event_of(c1, e1),
        is_calendar_event_of(c2, e2),
    ensures
        c1.dtend@ == ical_datetime(e1.end),
        c1.dtstart@ == ical_datetime(e1.start),
        c1.dtstamp@ == c1.dtstart@,
        e1.id == e2.id ==> c1.uid@ == c2.uid@,
        e1.start == e2.start ==> c1.dtstart@ == c2.dtstart@ && c1.dtstamp@ == c2.dtstamp@,
        e1.end == e2.end ==> c1.dtend@ == c2.dtend@,
        e1.name@ == e2.name@ ==> c1.summary@ == c2.summary@,
        e1.description@ == e2.description@ ==> c1.description@ == c2.description@,
        e1.email@ == e2.email@ ==> c1.organizer@ == c2.organizer@,
        e1.group@ == e2.group@ ==> c1.categories@ == c2.categories@,
        c1.summary@.len() == e1.name@.len(),
        c1.categories@.len() == e1.group@.len(),
        c1.organizer@.len() == e1.email@.len() + 7,
{
    reveal_strlit("mailto:");
}

/// A calendar: its version, its product identifier and its events.
#[derive(Debug, PartialEq, Eq)]
pub struct Calendar {
    pub version: String,
    pub prodid: String,
    pub events: Vec<CalendarEvent>,
}

impl Calendar {
    /// The calendar (version `2.0`, product `khronos`) of the given events, in their order.
    pub fn from_events(events: &Vec<DbEvent>) -> (r: Calendar)
        requires
            forall|i: int| 0 <= i < events@.len() ==> (#[trigger] events@[i]).wf(),
        ensures
            r.version@ == "2.0"@,
            r.prodid@ == "khronos"@,
            r.events@.len() == events@.len(),
            forall|i: int| 0 <= i < events@.len() ==> is_calendar_event_of(#[trigger] r.events@[i], events@[i]),
    {
        let mut out: Vec<CalendarEvent> = Vec::new();
        for i in 0..events.len()
            invariant
                out@.len() == i,
                forall|k: int| 0 <= k < events@.len() ==> (#[trigger] events@[k]).wf(),
                forall|k: int| 0 <= k < i ==> is_calendar_event_of(#[trigger] out@[k], events@[k]),
        {
            out.push(CalendarEvent::from(&events[i]));
        }
        Calendar { version: String::from_str("2.0"), prodid: String::from_str("khronos"), events: out }
    }
}


#[verifier::external_type_specification]
#[verifier::external_body]
pub struct ExICalendar<'a>(ics::ICalendar<'a>);

#[verifier::external_type_specification]
#[verifier::external_body]
pub struct ExIcsEvent<'a>(ics::Event<'a>);

/// A content line's name and value, such as `("SUMMARY", "Standup")`.
pub type IcsProperty = (Seq<char>, Seq<char>);

/// The properties that an `ics::ICalendar` holds, in their order.
pub uninterp spec fn calendar_properties(c: ics::ICalendar<'static>) -> Seq<IcsProperty>;

/// The events that an `ics::ICalendar` holds, in their order, each as its properties.
pub uninterp spec fn calendar_events(c: ics::ICalendar<'static>) -> Seq<Seq<IcsProperty>>;

/// The properties that an `ics::Event` holds, in their order.
pub uninterp spec fn event_properties(e: ics::Event<'static>) -> Seq<IcsProperty>;

/// The calendar holds nothing but properties without parameters and events
/// (added with `add_event`) whose properties have no parameters and which hold
/// no alarms: all that `ics_document` reads of it is then in its two contents.
pub uninterp spec fn calendar_is_plain(c: ics::ICalendar<'static>) -> bool;

/// The event's properties have no parameters, and it holds no alarms.
pub uninterp spec fn event_is_plain(e: ics::Event<'static>) -> bool;

/// The bytes that `ics::ICalendar::write` produces for a plain calendar with these
/// properties and events: `BEGIN:VCALENDAR`, each property as a content line
/// (folded at 75 bytes), each event between `BEGIN:VEVENT` and `END:VEVENT`,
/// then `END:VCALENDAR`, every line ended with CRLF.
pub uninterp spec fn ics_document(properties: Seq<IcsProperty>, events: Seq<Seq<IcsProperty>>) -> Seq<u8>;

/// Calls `ics::ICalendar::new(version, prodid)`.
/// Claimed: the calendar holds the `VERSION` and `PRODID` properties, in this
/// order, and no event.
#[verifier::external_body]
fn ical_new(version: String, prodid: String) -> (c: ics::ICalendar<'static>)
    ensures
        calendar_properties(c) == seq![("VERSION"@, version@), ("PRODID"@, prodid@)],
        calendar_events(c) == Seq::<Seq<IcsProperty>>::empty(),
        calendar_is_plain(c),
{
    ics::ICalendar::new(version, prodid)
}

/// Calls `ics::ICalendar::add_event(event)`.
/// Claimed: the event is appended after the calendar's other events; the
/// calendar's properties stay; the calendar stays plain when the event is plain.
#[verifier::external_body]
fn ical_add_event(c: &mut ics::ICalendar<'static>, event: ics::Event<'static>)
    ensures
        calendar_properties(*final(c)) == calendar_properties(*old(c)),
        calendar_events(*final(c)) == calendar_events(*old(c)).push(event_properties(event)),
        calendar_is_plain(*old(c)) && event_is_plain(event) ==> calendar_is_plain(*final(c)),
{
    c.add_event(event)
}

/// Calls `ics::ICalendar::write` into a byte vector.
/// Claimed: for a plain calendar the bytes are `ics_document` of its contents;
/// writing into a `Vec<u8>` cannot fail. Of a calendar with other parts (to-dos,
/// alarms, parameters) nothing is stated.
#[verifier::external_body]
fn ical_write(c: &ics::ICalendar<'static>) -> (r: Vec<u8>)
    ensures
        calendar_is_plain(*c) ==> r@ == ics_document(calendar_properties(*c), calendar_events(*c)),
{
    let mut body = Vec::new();
    c.write(&mut body).unwrap();
    body
}

/// Calls `ics::Event::new(uid, dtstamp)`.
/// Claimed: the event holds the `UID` and `DTSTAMP` properties, in this order,
/// without parameters, and no alarm.
#[verifier::external_body]
fn event_new(uid: String, dtstamp: String) -> (e: ics::Event<'static>)
    ensures
        event_properties(e) == seq![("UID"@, uid@), ("DTSTAMP"@, dtstamp@)],
        event_is_plain(e),
{
    ics::Event::new(uid, dtstamp)
}

/// Calls `ics::Event::push` with `ics::components::Property::new(key, value)`,
/// the property that `ics::properties::Summary::new(value)` and its siblings
/// build under their own names.
/// Claimed: the property, which has no parameters, is appended after the
/// event's other properties; a plain event stays plain.
#[verifier::external_body]
fn event_push(e: &mut ics::Event<'static>, key: String, value: String)
    ensures
        event_properties(*final(e)) == event_properties(*old(e)).push((key@, value@)),
        event_is_plain(*old(e)) ==> event_is_plain(*final(e)),
{
    e.push(ics::components::Property::new(key, value))
}

/// The properties of a calendar event, in the order they are written.
pub open spec fn calendar_event_properties(e: CalendarEvent) -> Seq<IcsProperty> {
    seq![
        ("UID"@, e.uid@),
        ("DTSTAMP"@, e.dtstamp@),
        ("SUMMARY"@, e.summary@),
        ("DESCRIPTION"@, e.description@),
        ("ORGANIZER"@, e.organizer@),
        ("DTSTART"@, e.dtstart@),
        ("DTEND"@, e.dtend@),
        ("CATEGORIES"@, e.categories@),
    ]
}

/// The written properties keep every text of the calendar entry whole: entries
/// whose property lists agree are the same entry, whatever the length of their
/// texts; and the `SUMMARY` property, the only one of that name, carries the
/// summary text itself.
pub proof fn lemma_event_properties_keep_every_text(a: CalendarEvent, b: CalendarEvent)
    requires
        calendar_event_properties(a) == calendar_event_properties(b),
    ensures
        a.uid@ == b.uid@,
        a.dtstamp@ == b.dtstamp@,
        a.summary@ == b.summary@,
        a.description@ == b.description@,
        a.organizer@ == b.organizer@,
        a.dtstart@ == b.dtstart@,
        a.dtend@ == b.dtend@,
        a.categories@ == b.categories@,
        forall|k: int| 0 <= k < calendar_event_properties(a).len()
            && #[trigger] calendar_event_properties(a)[k].0 == "SUMMARY"@
            ==> calendar_event_properties(a)[k].1 == a.summary@,
{
    let p = calendar_event_properties(a);
    let q = calendar_event_properties(b);
    assert(p[0] == q[0] && p[1] == q[1] && p[2] == q[2] && p[3] == q[3]);
    assert(p[4] == q[4] && p[5] == q[5] && p[6] == q[6] && p[7] == q[7]);
    reveal_strlit("UID");
    reveal_strlit("DTSTAMP");
    reveal_strlit("SUMMARY");
    reveal_strlit("DESCRIPTION");
    reveal_strlit("ORGANIZER");
    reveal_strlit("DTSTART");
    reveal_strlit("DTEND");
    reveal_strlit("CATEGORIES");
    assert forall|k: int| 0 <= k < p.len() && #[trigger] p[k].0 == "SUMMARY"@ implies p[k].1 == a.summary@ by {
        if k != 2 {
            assert(p[k].0 != "SUMMARY"@) by {
                if k == 1 {
                    assert(p[k].0[2] != "SUMMARY"@[2]);
                } else if k == 5 {
                    assert(p[k].0[2] != "SUMMARY"@[2]);
                } else {
                    assert(p[k].0.len() != "SUMMARY"@.len());
                }
            }
        }
    }
}

/// The events of a calendar as they are written, each as its properties.
pub open spec fn written_events(entries: Seq<CalendarEvent>) -> Seq<Seq<IcsProperty>> {
    entries.map_values(|e: CalendarEvent| calendar_event_properties(e))
}

/// In a calendar built from stored events, the `SUMMARY` property of the `i`-th
/// written event is the `i`-th event's name, whole, whatever its length.
pub proof fn lemma_written_summary_is_event_name(entries: Seq<CalendarEvent>, events: Seq<DbEvent>)
    requires
        entries.len() == events.len(),
        forall|i: int| 0 <= i < events.len() ==> is_calendar_event_of(#[trigger] entries[i], events[i]),
    ensures
        forall|i: int, k: int| 0 <= i < events.len() && 0 <= k < 8
            && (#[trigger] written_events(entries)[i][k]).0 == "SUMMARY"@
            ==> written_events(entries)[i][k].1 == events[i].name@,
        forall|i: int| 0 <= i < events.len() ==>
            (#[trigger] written_events(entries)[i]).contains(("SUMMARY"@, events[i].name@)),
{
    let written = written_events(entries);
    assert forall|i: int, k: int| 0 <= i < events.len() && 0 <= k < 8 && (#[trigger] written[i][k]).0 == "SUMMARY"@
        implies written[i][k].1 == events[i].name@ by {
        lemma_event_properties_keep_every_text(entries[i], entries[i]);
        assert(written[i] == calendar_event_properties(entries[i]));
    }
    assert forall|i: int| 0 <= i < events.len() implies (#[trigger] written[i]).contains(("SUMMARY"@, events[i].name@)) by {
        assert(written[i] == calendar_event_properties(entries[i]));
        assert(written[i][2] == ("SUMMARY"@, events[i].name@));
    }
}

impl CalendarEvent {
    /// This event as an `ics::Event`.
    fn to_ics(&self) -> (r: ics::Event<'static>)
        ensures
            event_properties(r) == calendar_event_properties(*self),
            event_is_plain(r),
    {
        let mut e = event_new(self.uid.clone(), self.dtstamp.clone());
        event_push(&mut e, String::from_str("SUMMARY"), self.summary.clone());
        event_push(&mut e, String::from_str("DESCRIPTION"), self.description.clone());
        event_push(&mut e, String::from_str("ORGANIZER"), self.organizer.clone());
        event_push(&mut e, String::from_str("DTSTART"), self.dtstart.clone());
        event_push(&mut e, String::from_str("DTEND"), self.dtend.clone());
        event_push(&mut e, String::from_str("CATEGORIES"), self.categories.clone());
        e
    }
}

impl Calendar {
    /// The calendar as an iCalendar document: its version and product identifier,
    /// then its events in their order, each with its properties in the order
    /// `UID`, `DTSTAMP`, `SUMMARY`, `DESCRIPTION`, `ORGANIZER`, `DTSTART`, `DTEND`,
    /// `CATEGORIES`.
    pub fn render(&self) -> (r: Vec<u8>)
        ensures
            r@ == ics_document(
                seq![("VERSION"@, self.version@), ("PRODID"@, self.prodid@)],
                written_events(self.events@),
            ),
    {
        let mut ical = ical_new(self.version.clone(), self.prodid.clone());
        for i in 0..self.events.len()
            invariant
                calendar_properties(ical) == seq![("VERSION"@, self.version@), ("PRODID"@, self.prodid@)],
                calendar_is_plain(ical),
                calendar_events(ical) == self.events@.take(i as int).map_values(
                    |e: CalendarEvent| calendar_event_properties(e),
                ),
        {
            let event = self.events[i].to_ics();
            ical_add_event(&mut ical, event);
            assert(self.events@.take(i + 1) =~= self.events@.take(i as int).push(self.events@[i as int]));
        }
        assert(self.events@.take(self.events@.len() as int) =~= self.events@);
        ical_write(&ical)
    }
}

} // verus!
