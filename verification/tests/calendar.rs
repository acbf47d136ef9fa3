use ics::properties::{Categories, Description, DtEnd, DtStart, Organizer, Summary};
use khronos::models::{Calendar, DbEvent};

fn event(id: u128, name: &str, description: &str, start: i64, end: i64) -> DbEvent {
    DbEvent {
        id,
        name: name.to_string(),
        email: "lead@example.org".to_string(),
        description: description.to_string(),
        group: "work".to_string(),
        start,
        end,
    }
}

#[test]
fn rendered_calendar_is_exact() {
    let events = vec![event(0x67e5504410b1426f9247bb680e5fe0c8, "Standup", "Daily, short", 0, 60_000)];
    let body = Calendar::from_events(&events).render();
    let expected = "BEGIN:VCALENDAR\r\n\
VERSION:2.0\r\n\
PRODID:khronos\r\n\
BEGIN:VEVENT\r\n\
UID:67e55044-10b1-426f-9247-bb680e5fe0c8\r\n\
DTSTAMP:19700101T000000Z\r\n\
SUMMARY:Standup\r\n\
DESCRIPTION:Daily\\, short\r\n\
ORGANIZER:mailto:lead@example.org\r\n\
DTSTART:19700101T000000Z\r\n\
DTEND:19700101T000100Z\r\n\
CATEGORIES:work\r\n\
END:VEVENT\r\n\
END:VCALENDAR\r\n";
    assert_eq!(String::from_utf8(body).unwrap(), expected);
}

#[test]
fn empty_calendar_has_no_events() {
    let body = Calendar::from_events(&vec![]).render();
    assert_eq!(
        String::from_utf8(body).unwrap(),
        "BEGIN:VCALENDAR\r\nVERSION:2.0\r\nPRODID:khronos\r\nEND:VCALENDAR\r\n"
    );
}

/// Builds the calendar with the ics crate's own property types, event by event.
fn with_ics_properties(events: &[DbEvent]) -> Vec<u8> {
    let mut calendar = ics::ICalendar::new("2.0", "khronos");
    for e in events {
        let id = uuid::Uuid::from_u128(e.id).as_hyphenated().to_string();
        let fmt = |ms: i64| {
            chrono::DateTime::<chrono::Utc>::from_timestamp_millis(ms)
                .unwrap()
                .format("%Y%m%dT%H%M%SZ")
                .to_string()
        };
        let mut event = ics::Event::new(id, fmt(e.start));
        event.push(Summary::new(e.name.clone()));
        event.push(Description::new(ics::escape_text(e.description.clone())));
        event.push(Organizer::new(format!("mailto:{}", e.email)));
        event.push(DtStart::new(fmt(e.start)));
        event.push(DtEnd::new(fmt(e.end)));
        event.push(Categories::new(e.group.clone()));
        calendar.add_event(event);
    }
    let mut body = vec![];
    calendar.write(&mut body).unwrap();
    body
}

#[test]
fn rendered_calendar_matches_ics_properties() {
    let long = "A description that is long enough to be folded over several content lines, \
with commas, semicolons; backslashes \\ and\nnew lines, and some ünïcödé 老虎 text too.";
    let events = vec![
        event(1, "First", long, 1_706_745_599_000, 1_706_749_199_999),
        event(u128::MAX, "Second", "", -86_400_000, 0),
        event(42, "Third with a rather long summary that goes past the seventy-five byte limit", "x", 1, 2),
    ];
    assert_eq!(Calendar::from_events(&events).render(), with_ics_properties(&events));
}
