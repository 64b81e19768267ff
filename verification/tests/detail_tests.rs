use eventdesk::agenda::Agenda;
use eventdesk::attachment::Attachment;
use eventdesk::auth::{create_session, SessionData};
use eventdesk::dates::Date;
use eventdesk::event::{
    create_event, get_event_details, put_event_details, register_event_details,
    CreateEventDetails, EventData, EventDetails, EventStatus,
};
use eventdesk::faq::Faq;
use eventdesk::speaker::Speaker;
use eventdesk::store::Database;
use eventdesk::AppError;

fn err_of<T>(r: Result<T, AppError>) -> AppError {
    match r {
        Err(e) => e,
        Ok(_) => panic!("expected an error"),
    }
}

fn event_payload(organizer_id: i64) -> EventData {
    EventData {
        title: "Expo".to_string(),
        description: "".to_string(),
        event_date: Date { year: 2025, month: 10, day: 2 },
        start_time: "09:00".to_string(),
        end_time: "18:00".to_string(),
        location: "Center".to_string(),
        category_id: 2,
        status: EventStatus::Upcoming,
        organizer_id,
        price_cents: 0,
        tickets_sold: 0,
        attendees: 0,
        max_attendees: 10,
        contact_email: "x@example.com".to_string(),
        contact_phone: "555".to_string(),
        registration_deadline: Date { year: 2025, month: 9, day: 1 },
        is_virtual: true,
        image: None,
        map_embed: None,
        accessibility_info: None,
        safety_guidelines: None,
        created_at: "t0".to_string(),
        updated_at: "t0".to_string(),
    }
}

fn authed_db() -> (Database, String) {
    let mut db = Database::new();
    create_session(SessionData { user_id: 1, token: "tok".to_string() }, &mut db).unwrap();
    create_event(event_payload(1), "t0".to_string(), &mut db).unwrap();
    (db, "tok".to_string())
}

fn details_payload() -> CreateEventDetails {
    CreateEventDetails {
        agenda: vec![Agenda {
            id: 0,
            event_id: 1,
            start_time: "09:30".to_string(),
            title: "Opening".to_string(),
            speaker: "Ada".to_string(),
        }],
        speakers: vec![Speaker {
            id: 0,
            event_id: 1,
            name: "Ada".to_string(),
            bio: Some("Engineer".to_string()),
            photo: None,
        }],
        faqs: vec![Faq {
            id: 0,
            event_id: 1,
            question: "Parking?".to_string(),
            answer: Some("On site".to_string()),
        }],
        attachments: vec![Attachment {
            id: 0,
            event_id: 1,
            name: "Map".to_string(),
            url: "https://example.com/map".to_string(),
        }],
    }
}

#[test]
fn register_details_assigns_ids_and_stores_rows() {
    let (mut db, tok) = authed_db();
    let created = register_event_details(Some(&tok), 1, details_payload(), &mut db).unwrap();
    assert_eq!(created.agenda.len(), 1);
    assert_eq!(created.agenda[0].id, 1);
    assert_eq!(created.agenda[0].title, "Opening");
    assert_eq!(created.speakers[0].id, 1);
    assert_eq!(created.faqs[0].id, 1);
    assert_eq!(created.attachments[0].id, 1);
    assert_eq!(db.agendas.len(), 1);
    assert_eq!(db.speakers.len(), 1);
    assert_eq!(db.faqs.len(), 1);
    assert_eq!(db.attachments.len(), 1);
}

#[test]
fn register_details_for_foreign_event_is_refused() {
    let (mut db, tok) = authed_db();
    create_event(event_payload(2), "t0".to_string(), &mut db).unwrap();
    let refused = register_event_details(Some(&tok), 2, details_payload(), &mut db);
    assert_eq!(err_of(refused), AppError::NotFound);
    assert_eq!(db.agendas.len(), 0);
}

#[test]
fn details_view_assembles_sub_resources() {
    let (mut db, tok) = authed_db();
    register_event_details(Some(&tok), 1, details_payload(), &mut db).unwrap();
    let details = get_event_details(Some(&tok), 1, &db).unwrap();
    assert_eq!(details.agenda.len(), 1);
    assert_eq!(details.speakers.len(), 1);
    assert_eq!(details.faqs.len(), 1);
    assert_eq!(details.attachments.len(), 1);
    assert_eq!(details.comments.len(), 0);
    assert_eq!(details.related_events.len(), 0);
    // no organizer profile stored: the placeholder appears
    assert_eq!(details.organizer.id, 0);
    assert_eq!(details.organizer.name, "");
}

#[test]
fn put_details_updates_rows_by_identifier() {
    let (mut db, tok) = authed_db();
    register_event_details(Some(&tok), 1, details_payload(), &mut db).unwrap();
    let update = EventDetails {
        organizer: eventdesk::organizer::Organizer {
            id: 0,
            name: "".to_string(),
            logo: None,
            website: None,
        },
        agenda: vec![Agenda {
            id: 1,
            event_id: 99,  // the owning event of a row never changes
            start_time: "10:00".to_string(),
            title: "Keynote".to_string(),
            speaker: "Grace".to_string(),
        }],
        speakers: vec![],
        faqs: vec![Faq { id: 1, event_id: 1, question: "Wifi?".to_string(), answer: None }],
        attachments: vec![],
        comments: vec![],
        related_events: vec![],
    };
    put_event_details(Some(&tok), 1, update, &mut db).unwrap();
    assert_eq!(db.agendas[0].title, "Keynote");
    assert_eq!(db.agendas[0].speaker, "Grace");
    assert_eq!(db.agendas[0].event_id, 1);
    assert_eq!(db.faqs[0].question, "Wifi?");
    assert_eq!(db.faqs[0].answer, None);
    assert_eq!(db.speakers[0].name, "Ada");
}

#[test]
fn handlers_demand_a_session() {
    let mut db = Database::new();
    create_event(event_payload(1), "t0".to_string(), &mut db).unwrap();
    assert_eq!(
        err_of(get_event_details(None, 1, &db)),
        AppError::Unauthenticated
    );
    assert_eq!(
        err_of(register_event_details(None, 1, details_payload(), &mut db)),
        AppError::Unauthenticated
    );
}
