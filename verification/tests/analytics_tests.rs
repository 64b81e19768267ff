use eventdesk::analytics::{
    fetch_attendees_monthly_overview, fetch_events_daily_overview, fetch_overview_monthly_totals,
    fetch_tickets_monthly_overview, sums_fit, GetOverview,
};
use eventdesk::attendee::{
    fetch_attendance_extremes, fetch_daily_attendee_counts, fetch_monthly_attendees,
    fetch_monthly_no_shows, no_show_rate_parts, no_show_total_rate_parts,
};
use eventdesk::dates::Date;
use eventdesk::event::{
    create_event, fetch_monthly_ticket_sales, EventData, EventStatus,
};
use eventdesk::overview::fetch_monthly_totals;
use eventdesk::store::Database;

fn event_payload(
    organizer_id: i64,
    date: Date,
    status: EventStatus,
    price_cents: i64,
    tickets_sold: i64,
    attendees: i64,
) -> EventData {
    EventData {
        title: "Event".to_string(),
        description: "".to_string(),
        event_date: date,
        start_time: "09:00".to_string(),
        end_time: "17:00".to_string(),
        location: "Hall".to_string(),
        category_id: 1,
        status,
        organizer_id,
        price_cents,
        tickets_sold,
        attendees,
        max_attendees: 500,
        contact_email: "c@example.com".to_string(),
        contact_phone: "555".to_string(),
        registration_deadline: Date { year: date.year, month: 1, day: 1 },
        is_virtual: false,
        image: None,
        map_embed: None,
        accessibility_info: None,
        safety_guidelines: None,
        created_at: "t0".to_string(),
        updated_at: "t0".to_string(),
    }
}

/// Three March events for one organizer: tickets [10, 20, 5], attendees
/// [8, 15, 5], all dated before the reference day.
fn march_scenario() -> Database {
    let mut db = Database::new();
    let days = [4u8, 10, 20];
    let tickets = [10i64, 20, 5];
    let attendees = [8i64, 15, 5];
    for i in 0..3 {
        create_event(
            event_payload(
                1,
                Date { year: 2025, month: 3, day: days[i] },
                EventStatus::Complete,
                1000,
                tickets[i],
                attendees[i],
            ),
            "t0".to_string(),
            &mut db,
        )
        .unwrap();
    }
    db
}

#[test]
fn march_attendees_and_no_shows() {
    let db = march_scenario();
    let scope = GetOverview { year: 2025, organizer_id: 1 };
    let totals = fetch_monthly_attendees(
        eventdesk::overview::GetOverview { year: 2025, organizer_id: 1 },
        &db,
    )
    .unwrap();
    assert_eq!(totals.attendees[2], 28);
    assert_eq!(totals.total, 28);

    let today = Date { year: 2025, month: 12, day: 31 };
    let ns = fetch_monthly_no_shows(
        eventdesk::overview::GetOverview { year: 2025, organizer_id: 1 },
        today,
        &db,
    )
    .unwrap();
    // no-shows: (10-8) + (20-15) + (5-5) = 7
    assert_eq!(ns.no_show_counts[2], 7);
    assert_eq!(ns.event_counts[2], 3);
    assert_eq!(ns.total_count, 7);
    assert_eq!(ns.total_events, 3);

    let attendees_overview = fetch_attendees_monthly_overview(scope, &db).unwrap();
    assert_eq!(attendees_overview.attendees[2], 28);
    assert_eq!(attendees_overview.total, 28);
}

#[test]
fn no_show_rates_are_exact_pairs() {
    let db = march_scenario();
    let today = Date { year: 2025, month: 12, day: 31 };
    let ns = fetch_monthly_no_shows(
        eventdesk::overview::GetOverview { year: 2025, organizer_id: 1 },
        today,
        &db,
    )
    .unwrap();
    // March: 7 no-shows over 3 events
    assert_eq!(no_show_rate_parts(&ns, 2), Some((7, 3)));
    // January: no events, and so no no-shows: the rate is zero by construction
    assert_eq!(no_show_rate_parts(&ns, 0), None);
    assert_eq!(no_show_total_rate_parts(&ns), Some((7, 3)));
}

#[test]
fn a_month_with_events_but_no_no_shows_reports_zero() {
    let mut db = Database::new();
    create_event(
        event_payload(
            1,
            Date { year: 2025, month: 5, day: 2 },
            EventStatus::Complete,
            0,
            12,
            12,
        ),
        "t0".to_string(),
        &mut db,
    )
    .unwrap();
    let today = Date { year: 2026, month: 1, day: 1 };
    let ns = fetch_monthly_no_shows(
        eventdesk::overview::GetOverview { year: 2025, organizer_id: 1 },
        today,
        &db,
    )
    .unwrap();
    // a month with events and zero no-shows reports the same zero rate as
    // an empty month
    assert_eq!(ns.event_counts[4], 1);
    assert_eq!(no_show_rate_parts(&ns, 4), None);
    assert_eq!(no_show_total_rate_parts(&ns), None);
}

#[test]
fn monthly_totals_bucket_and_sum() {
    let mut db = Database::new();
    create_event(
        event_payload(1, Date { year: 2025, month: 1, day: 5 }, EventStatus::Upcoming, 100, 3, 1),
        "t0".to_string(),
        &mut db,
    )
    .unwrap();
    create_event(
        event_payload(1, Date { year: 2025, month: 1, day: 9 }, EventStatus::Canceled, 100, 0, 0),
        "t0".to_string(),
        &mut db,
    )
    .unwrap();
    create_event(
        event_payload(1, Date { year: 2025, month: 8, day: 1 }, EventStatus::Complete, 100, 4, 4),
        "t0".to_string(),
        &mut db,
    )
    .unwrap();
    // outside scope: another organizer, another year
    create_event(
        event_payload(2, Date { year: 2025, month: 1, day: 1 }, EventStatus::Upcoming, 1, 1, 1),
        "t0".to_string(),
        &mut db,
    )
    .unwrap();
    create_event(
        event_payload(1, Date { year: 2024, month: 1, day: 1 }, EventStatus::Upcoming, 1, 1, 1),
        "t0".to_string(),
        &mut db,
    )
    .unwrap();

    let t = fetch_monthly_totals(
        eventdesk::overview::GetOverview { year: 2025, organizer_id: 1 },
        &db,
    )
    .unwrap();
    assert_eq!(t.events[0], 2);
    assert_eq!(t.upcoming[0], 1);
    assert_eq!(t.canceled[0], 1);
    assert_eq!(t.tickets[0], 3);
    assert_eq!(t.attendees[0], 1);
    assert_eq!(t.events[7], 1);
    // the monthly event counts partition the year's events
    let total: i64 = t.events.iter().sum();
    assert_eq!(total, 3);

    let o = fetch_overview_monthly_totals(GetOverview { year: 2025, organizer_id: 1 }, &db)
        .unwrap();
    assert_eq!(o.events, t.events);
    assert_eq!(o.upcoming, t.upcoming);
    assert_eq!(o.canceled, t.canceled);
    assert_eq!(o.tickets, t.tickets);
    assert_eq!(o.attendees, t.attendees);
}

#[test]
fn revenue_is_tickets_times_price_in_cents() {
    let mut db = Database::new();
    create_event(
        event_payload(1, Date { year: 2025, month: 4, day: 1 }, EventStatus::Complete, 1250, 8, 8),
        "t0".to_string(),
        &mut db,
    )
    .unwrap();
    create_event(
        event_payload(1, Date { year: 2025, month: 4, day: 9 }, EventStatus::Complete, 500, 2, 2),
        "t0".to_string(),
        &mut db,
    )
    .unwrap();
    let t = fetch_tickets_monthly_overview(GetOverview { year: 2025, organizer_id: 1 }, &db)
        .unwrap();
    // 8 * 1250 + 2 * 500 = 11000 cents
    assert_eq!(t.tickets[3], 11000);
    assert_eq!(t.profit, 11000);
    let sales = fetch_monthly_ticket_sales(
        eventdesk::overview::GetOverview { year: 2025, organizer_id: 1 },
        &db,
    )
    .unwrap();
    assert_eq!(sales.tickets[3], 11000);
    assert_eq!(sales.profit, 11000);
}

#[test]
fn daily_counts_are_sparse_and_sorted() {
    let mut db = Database::new();
    for day in [20u8, 3, 3, 20, 7] {
        create_event(
            event_payload(
                1,
                Date { year: 2025, month: 2, day },
                EventStatus::Complete,
                0,
                4,
                3,
            ),
            "t0".to_string(),
            &mut db,
        )
        .unwrap();
    }
    let daily = fetch_events_daily_overview(GetOverview { year: 2025, organizer_id: 1 }, &db)
        .unwrap();
    let got: Vec<(String, usize)> = daily
        .event_counts
        .iter()
        .map(|c| (c.date.clone(), c.count))
        .collect();
    assert_eq!(
        got,
        vec![
            ("2025-02-03".to_string(), 2),
            ("2025-02-07".to_string(), 1),
            ("2025-02-20".to_string(), 2),
        ]
    );
    let attendee_daily = fetch_daily_attendee_counts(
        eventdesk::overview::GetOverview { year: 2025, organizer_id: 1 },
        &db,
    )
    .unwrap();
    let got: Vec<(String, usize)> = attendee_daily
        .attendee_counts
        .iter()
        .map(|c| (c.date.clone(), c.count))
        .collect();
    assert_eq!(
        got,
        vec![
            ("2025-02-03".to_string(), 6),
            ("2025-02-07".to_string(), 3),
            ("2025-02-20".to_string(), 6),
        ]
    );
}

#[test]
fn extremes_take_top_and_bottom_five_completed() {
    let mut db = Database::new();
    let attendance = [12i64, 99, 4, 50, 23, 7, 61];
    for (i, a) in attendance.iter().enumerate() {
        create_event(
            event_payload(
                1,
                Date { year: 2025, month: 3, day: (i + 1) as u8 },
                EventStatus::Complete,
                0,
                *a,
                *a,
            ),
            "t0".to_string(),
            &mut db,
        )
        .unwrap();
    }
    // an upcoming event and a future one are not considered
    create_event(
        event_payload(1, Date { year: 2025, month: 3, day: 9 }, EventStatus::Upcoming, 0, 500, 0),
        "t0".to_string(),
        &mut db,
    )
    .unwrap();
    create_event(
        event_payload(1, Date { year: 2025, month: 12, day: 1 }, EventStatus::Complete, 0, 500, 500),
        "t0".to_string(),
        &mut db,
    )
    .unwrap();
    let today = Date { year: 2025, month: 6, day: 1 };
    let x = fetch_attendance_extremes(
        eventdesk::overview::GetOverview { year: 2025, organizer_id: 1 },
        today,
        &db,
    )
    .unwrap();
    let most: Vec<i64> = x.most.iter().map(|e| e.attendees).collect();
    let least: Vec<i64> = x.least.iter().map(|e| e.attendees).collect();
    assert_eq!(most, vec![99, 61, 50, 23, 12]);
    assert_eq!(least, vec![4, 7, 12, 23, 50]);
}

#[test]
fn extremes_with_fewer_than_five_events() {
    let mut db = Database::new();
    for a in [3i64, 11] {
        create_event(
            event_payload(
                1,
                Date { year: 2025, month: 1, day: 2 },
                EventStatus::Complete,
                0,
                a,
                a,
            ),
            "t0".to_string(),
            &mut db,
        )
        .unwrap();
    }
    let today = Date { year: 2026, month: 1, day: 1 };
    let x = fetch_attendance_extremes(
        eventdesk::overview::GetOverview { year: 2025, organizer_id: 1 },
        today,
        &db,
    )
    .unwrap();
    assert_eq!(x.most.len(), 2);
    assert_eq!(x.least.len(), 2);
    assert_eq!(x.most[0].attendees, 11);
    assert_eq!(x.least[0].attendees, 3);
}

#[test]
fn sums_fit_accepts_small_and_rejects_huge() {
    let mut db = Database::new();
    create_event(
        event_payload(1, Date { year: 2025, month: 1, day: 1 }, EventStatus::Complete, 10, 5, 5),
        "t0".to_string(),
        &mut db,
    )
    .unwrap();
    assert!(sums_fit(&db.events));
    // a single event whose revenue overflows i64
    create_event(
        event_payload(
            1,
            Date { year: 2025, month: 1, day: 2 },
            EventStatus::Complete,
            i64::MAX,
            i64::MAX,
            0,
        ),
        "t0".to_string(),
        &mut db,
    )
    .unwrap();
    assert!(!sums_fit(&db.events));
}
