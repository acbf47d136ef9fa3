use chrono::{DateTime, Utc};
use khronos::models::{
    format_datetime, Calendar, CalendarEvent, DbEvent, EventResponse,
    MAX_TIMESTAMP_MILLIS, MIN_TIMESTAMP_MILLIS,
};

fn sample_event() -> DbEvent {
    DbEvent {
        id: 0x67e5504410b1426f9247bb680e5fe0c8,
        name: "Standup".to_string(),
        email: "lead@example.org".to_string(),
        description: "Daily, short; bring notes\\ideas\nand coffee".to_string(),
        group: "work".to_string(),
        start: 1_706_745_599_000,
        end: 1_706_749_199_999,
    }
}

#[test]
fn event_response_keeps_fields_and_hyphenates_id() {
    let r = EventResponse::from(sample_event());
    assert_eq!(
        r,
        EventResponse {
            id: "67e55044-10b1-426f-9247-bb680e5fe0c8".to_string(),
            name: "Standup".to_string(),
            email: "lead@example.org".to_string(),
            description: "Daily, short; bring notes\\ideas\nand coffee".to_string(),
            group: "work".to_string(),
            start: 1_706_745_599_000,
            end: 1_706_749_199_999,
        }
    );
}

#[test]
fn event_response_ids_are_zero_padded() {
    let mut e = sample_event();
    e.id = 1;
    assert_eq!(EventResponse::from(e).id, "00000000-0000-0000-0000-000000000001");
    let mut e = sample_event();
    e.id = u128::MAX;
    assert_eq!(EventResponse::from(e).id, "ffffffff-ffff-ffff-ffff-ffffffffffff");
}

fn escaped(description: &str) -> String {
    let mut e = sample_event();
    e.description = description.to_string();
    CalendarEvent::from(&e).description
}

#[test]
fn descriptions_are_escaped() {
    assert_eq!(escaped("plain"), "plain");
    assert_eq!(escaped("a,b;c\\d"), "a\\,b\\;c\\\\d");
    assert_eq!(escaped("l1\nl2"), "l1\\nl2");
    assert_eq!(escaped("l1\r\nl2"), "l1\\nl2");
    assert_eq!(escaped("l1\rl2"), "l1\\nl2");
    assert_eq!(escaped("end\r"), "end\\n");
    assert!(!escaped("a\r\n\r\rb\n").contains('\n'));
    assert!(!escaped("a\r\n\r\rb\n").contains('\r'));
}

#[test]
fn format_datetime_is_ical_utc() {
    assert_eq!(format_datetime(0), "19700101T000000Z");
    assert_eq!(format_datetime(1_706_745_599_000), "20240131T235959Z");
    assert_eq!(format_datetime(1_706_745_599_999), "20240131T235959Z");
    assert_eq!(format_datetime(-1), "19691231T235959Z");
    assert_eq!(format_datetime(MAX_TIMESTAMP_MILLIS), "+2621421231T235959Z");
    assert_eq!(format_datetime(MIN_TIMESTAMP_MILLIS), "-2621430101T000000Z");
    assert_eq!(format_datetime(1_000), "19700101T000001Z");
}

#[test]
fn calendar_event_properties() {
    let e = sample_event();
    let c = CalendarEvent::from(&e);
    assert_eq!(
        c,
        CalendarEvent {
            uid: "67e55044-10b1-426f-9247-bb680e5fe0c8".to_string(),
            dtstamp: "20240131T235959Z".to_string(),
            summary: "Standup".to_string(),
            description: "Daily\\, short\\; bring notes\\\\ideas\\nand coffee".to_string(),
            organizer: "mailto:lead@example.org".to_string(),
            dtstart: "20240131T235959Z".to_string(),
            dtend: "20240201T005959Z".to_string(),
            categories: "work".to_string(),
        }
    );
}

#[test]
fn calendar_keeps_event_order() {
    let mut second = sample_event();
    second.id = 2;
    second.name = "Retro".to_string();
    let events = vec![sample_event(), second];
    let cal = Calendar::from_events(&events);
    assert_eq!(cal.version, "2.0");
    assert_eq!(cal.prodid, "khronos");
    assert_eq!(cal.events.len(), 2);
    assert_eq!(cal.events[0].summary, "Standup");
    assert_eq!(cal.events[1].summary, "Retro");
    assert_eq!(cal.events[1].uid, "00000000-0000-0000-0000-000000000002");
    assert!(Calendar::from_events(&vec![]).events.is_empty());
}

#[test]
fn datetime_range_is_chronos() {
    assert!(DateTime::<Utc>::from_timestamp_millis(MIN_TIMESTAMP_MILLIS).is_some());
    assert!(DateTime::<Utc>::from_timestamp_millis(MIN_TIMESTAMP_MILLIS - 1).is_none());
    assert!(DateTime::<Utc>::from_timestamp_millis(MAX_TIMESTAMP_MILLIS).is_some());
    assert!(DateTime::<Utc>::from_timestamp_millis(MAX_TIMESTAMP_MILLIS + 1).is_none());
    assert_eq!(DateTime::<Utc>::MIN_UTC.timestamp_millis(), MIN_TIMESTAMP_MILLIS);
}

#[test]
fn event_response_id_reads_back() {
    for id in [0u128, 1, 0x67e5504410b1426f9247bb680e5fe0c8, u128::MAX, 1 << 64] {
        let mut e = sample_event();
        e.id = id;
        let r = EventResponse::from(e);
        assert_eq!(uuid::Uuid::parse_str(&r.id).unwrap().as_u128(), id);
        assert_eq!(r.start, 1_706_745_599_000);
        assert_eq!(r.end, 1_706_749_199_999);
    }
}
