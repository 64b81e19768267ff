use eventdesk::dates::{date_string, Date};
use eventdesk::event::{
    create_event, fetch_event, fetch_events, update_event, Event, EventData, EventStatus,
    GetEventData, GetUserEventsData,
};
use eventdesk::store::Database;
use eventdesk::AppError;

fn err_of<T>(r: Result<T, AppError>) -> AppError {
    match r {
        Err(e) => e,
        Ok(_) => panic!("expected an error"),
    }
}

fn event_payload(organizer_id: i64, date: Date) -> EventData {
    EventData {
        title: "Launch".to_string(),
        description: "Product launch".to_string(),
        event_date: date,
        start_time: "10:00".to_string(),
        end_time: "12:00".to_string(),
        location: "Main hall".to_string(),
        category_id: 1,
        status: EventStatus::Upcoming,
        organizer_id,
        price_cents: 2500,
        tickets_sold: 40,
        attendees: 35,
        max_attendees: 100,
        contact_email: "host@example.com".to_string(),
        contact_phone: "555-0100".to_string(),
        registration_deadline: Date { year: date.year, month: date.month, day: 1 },
        is_virtual: false,
        image: None,
        map_embed: None,
        accessibility_info: None,
        safety_guidelines: Some("No open flames".to_string()),
        created_at: "2025-01-01T00:00:00".to_string(),
        updated_at: "2025-01-01T00:00:00".to_string(),
    }
}

#[test]
fn create_then_fetch_returns_identical_fields() {
    let mut db = Database::new();
    let date = Date { year: 2025, month: 6, day: 14 };
    let created =
        create_event(event_payload(9, date), "2025-06-01T09:00:00".to_string(), &mut db).unwrap();
    let fetched =
        fetch_event(GetEventData { event_id: created.id, organizer_id: 9 }, &db).unwrap();
    assert_eq!(fetched.id, created.id);
    assert_eq!(fetched.title, "Launch");
    assert_eq!(fetched.event_date, date);
    assert_eq!(fetched.status, EventStatus::Upcoming);
    assert_eq!(fetched.price_cents, 2500);
    assert_eq!(fetched.tickets_sold, 40);
    assert_eq!(fetched.attendees, 35);
    assert_eq!(fetched.safety_guidelines, Some("No open flames".to_string()));
    // the stamps are server-set at creation, not taken from the payload
    assert_eq!(fetched.created_at, "2025-06-01T09:00:00");
    assert_eq!(fetched.updated_at, "2025-06-01T09:00:00");
}

#[test]
fn fetch_one_with_other_organizer_is_not_found() {
    let mut db = Database::new();
    let date = Date { year: 2025, month: 6, day: 14 };
    let created = create_event(event_payload(1, date), "t0".to_string(), &mut db).unwrap();
    let other = fetch_event(GetEventData { event_id: created.id, organizer_id: 2 }, &db);
    assert_eq!(err_of(other), AppError::NotFound);
}

#[test]
fn fetch_missing_event_is_not_found() {
    let db = Database::new();
    let missing = fetch_event(GetEventData { event_id: 42, organizer_id: 1 }, &db);
    assert_eq!(err_of(missing), AppError::NotFound);
}

#[test]
fn events_are_listed_by_date_ascending() {
    let mut db = Database::new();
    let mut payload = event_payload(5, Date { year: 2025, month: 9, day: 20 });
    payload.title = "Third".to_string();
    create_event(payload, "t0".to_string(), &mut db).unwrap();
    let mut payload = event_payload(5, Date { year: 2025, month: 2, day: 3 });
    payload.title = "First".to_string();
    create_event(payload, "t0".to_string(), &mut db).unwrap();
    let mut payload = event_payload(5, Date { year: 2025, month: 5, day: 1 });
    payload.title = "Second".to_string();
    create_event(payload, "t0".to_string(), &mut db).unwrap();
    // another organizer's event stays out of the list
    create_event(event_payload(6, Date { year: 2025, month: 1, day: 1 }), "t0".to_string(), &mut db)
        .unwrap();
    // another year's event stays out of the list
    create_event(event_payload(5, Date { year: 2024, month: 1, day: 1 }), "t0".to_string(), &mut db)
        .unwrap();

    let events =
        fetch_events(GetUserEventsData { organizer_id: 5, year: 2025 }, &db).unwrap();
    assert_eq!(events.len(), 3);
    assert_eq!(events[0].title, "First");
    assert_eq!(events[1].title, "Second");
    assert_eq!(events[2].title, "Third");
}

#[test]
fn update_replaces_fields_and_stamps_updated_at() {
    let mut db = Database::new();
    let date = Date { year: 2025, month: 6, day: 14 };
    let created = create_event(event_payload(9, date), "t0".to_string(), &mut db).unwrap();
    let mut replacement = created;
    replacement.title = "Renamed".to_string();
    replacement.tickets_sold = 50;
    replacement.attendees = 45;
    update_event(replacement, "2025-07-01T08:30:00".to_string(), &mut db).unwrap();
    let fetched = fetch_event(GetEventData { event_id: 1, organizer_id: 9 }, &db).unwrap();
    assert_eq!(fetched.title, "Renamed");
    assert_eq!(fetched.tickets_sold, 50);
    assert_eq!(fetched.updated_at, "2025-07-01T08:30:00");
    assert_eq!(fetched.created_at, "t0");
}

#[test]
fn update_with_unknown_id_changes_nothing() {
    let mut db = Database::new();
    let created = create_event(
        event_payload(9, Date { year: 2025, month: 6, day: 14 }),
        "t0".to_string(),
        &mut db,
    )
    .unwrap();
    let mut ghost_row = created;
    ghost_row.id = 999;
    ghost_row.title = "Ghost".to_string();
    update_event(ghost_row, "later".to_string(), &mut db).unwrap();
    let fetched = fetch_event(GetEventData { event_id: 1, organizer_id: 9 }, &db).unwrap();
    assert_eq!(fetched.title, "Launch");
}

#[test]
fn date_rendering_is_zero_padded() {
    let d = Date { year: 2025, month: 3, day: 5 };
    assert_eq!(date_string(&d), "2025-03-05");
    let d = Date { year: 987, month: 12, day: 31 };
    assert_eq!(date_string(&d), "0987-12-31");
}
