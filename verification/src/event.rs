//! Events: the central entity, its accessors and the per-event analytics
//! over ticket sales and daily counts.

use vstd::prelude::*;

use crate::AppError;
use crate::analytics::{
    count_on_date, daily_counts_by_date_ok, daily_events_by_date_matches, daily_groups, days_of,
    events_in_scope, events_of, revenue_buckets, revenue_in_month, scope_sums_fit, total_revenue,
};
use crate::dates::Date;
use crate::auth::{session_of, validate_session};
use crate::overview::{GetOverview, YearQuery};
use crate::store::Database;
use crate::sums::{find_first, lemma_find_first_at, lemma_find_first_none};
use vstd::multiset::Multiset;

verus! {

/// Lifecycle status of an event. Statuses other than the three the
/// analytics distinguish are carried as `Other`.
#[derive(Clone, Copy, Debug, PartialEq, Eq, Structural)]
pub enum EventStatus {
    Upcoming,
    Canceled,
    Complete,
    Other,
}

/// An event row. Money is carried in integer cents (`price_cents`), and
/// timestamps as opaque text, so that every field is a plain value.
pub struct Event {
    pub id: i64,
    pub title: String,
    pub description: String,
    pub event_date: Date,
    pub start_time: String,
    pub end_time: String,
    pub location: String,
    pub category_id: i64,
    pub status: EventStatus,
    pub organizer_id: i64,
    pub price_cents: i64,
    pub tickets_sold: i64,
    pub attendees: i64,
    pub max_attendees: i64,
    pub contact_email: String,
    pub contact_phone: String,
    pub registration_deadline: Date,
    pub is_virtual: bool,
    pub image: Option<String>,
    pub map_embed: Option<String>,
    pub accessibility_info: Option<String>,
    pub safety_guidelines: Option<String>,
    pub created_at: String,
    pub updated_at: String,
}

impl Event {
    /// Row invariant: dates are well formed, counters are non-negative,
    /// and every sold ticket accounts for at most one attendee, so the
    /// no-show count `tickets_sold - attendees` is non-negative.
    pub open spec fn wf(self) -> bool {
        &&& self.event_date.wf()
        &&& self.registration_deadline.wf()
        &&& 0 <= self.attendees <= self.tickets_sold
        &&& 0 <= self.max_attendees
        &&& 0 <= self.price_cents
    }

    pub fn clone_event(&self) -> (r: Event)
        ensures
            r == *self,
    {
        Event {
            id: self.id,
            title: self.title.clone(),
            description: self.description.clone(),
            event_date: self.event_date,
            start_time: self.start_time.clone(),
            end_time: self.end_time.clone(),
            location: self.location.clone(),
            category_id: self.category_id,
            status: self.status,
            organizer_id: self.organizer_id,
            price_cents: self.price_cents,
            tickets_sold: self.tickets_sold,
            attendees: self.attendees,
            max_attendees: self.max_attendees,
            contact_email: self.contact_email.clone(),
            contact_phone: self.contact_phone.clone(),
            registration_deadline: self.registration_deadline,
            is_virtual: self.is_virtual,
            image: clone_opt_string(&self.image),
            map_embed: clone_opt_string(&self.map_embed),
            accessibility_info: clone_opt_string(&self.accessibility_info),
            safety_guidelines: clone_opt_string(&self.safety_guidelines),
            created_at: self.created_at.clone(),
            updated_at: self.updated_at.clone(),
        }
    }
}

pub fn clone_opt_string(s: &Option<String>) -> (r: Option<String>)
    ensures
        r == *s,
{
    match s {
        Some(v) => Some(v.clone()),
        None => None,
    }
}

/// Payload for creating an event; the store assigns the identifier and
/// stamps `created_at`/`updated_at` itself, so the payload's two stamp
/// fields are carried for the wire shape but ignored on create.
pub struct EventData {
    pub title: String,
    pub description: String,
    pub event_date: Date,
    pub start_time: String,
    pub end_time: String,
    pub location: String,
    pub category_id: i64,
    pub status: EventStatus,
    pub organizer_id: i64,
    pub price_cents: i64,
    pub tickets_sold: i64,
    pub attendees: i64,
    pub max_attendees: i64,
    pub contact_email: String,
    pub contact_phone: String,
    pub registration_deadline: Date,
    pub is_virtual: bool,
    pub image: Option<String>,
    pub map_embed: Option<String>,
    pub accessibility_info: Option<String>,
    pub safety_guidelines: Option<String>,
    pub created_at: String,
    pub updated_at: String,
}

impl EventData {
    /// Same row invariant as [`Event::wf`], for the payload fields.
    pub open spec fn wf(self) -> bool {
        &&& self.event_date.wf()
        &&& self.registration_deadline.wf()
        &&& 0 <= self.attendees <= self.tickets_sold
        &&& 0 <= self.max_attendees
        &&& 0 <= self.price_cents
    }

    /// The event row that creating from this payload under identifier `id`
    /// at server time `now` yields: both stamps are set to `now`.
    pub open spec fn spec_into_event(self, id: i64, now: String) -> Event {
        Event {
            id,
            title: self.title,
            description: self.description,
            event_date: self.event_date,
            start_time: self.start_time,
            end_time: self.end_time,
            location: self.location,
            category_id: self.category_id,
            status: self.status,
            organizer_id: self.organizer_id,
            price_cents: self.price_cents,
            tickets_sold: self.tickets_sold,
            attendees: self.attendees,
            max_attendees: self.max_attendees,
            contact_email: self.contact_email,
            contact_phone: self.contact_phone,
            registration_deadline: self.registration_deadline,
            is_virtual: self.is_virtual,
            image: self.image,
            map_embed: self.map_embed,
            accessibility_info: self.accessibility_info,
            safety_guidelines: self.safety_guidelines,
            created_at: now,
            updated_at: now,
        }
    }

    pub fn into_event(self, id: i64, now: String) -> (r: Event)
        ensures
            r == self.spec_into_event(id, now),
    {
        Event {
            id,
            title: self.title,
            description: self.description,
            event_date: self.event_date,
            start_time: self.start_time,
            end_time: self.end_time,
            location: self.location,
            category_id: self.category_id,
            status: self.status,
            organizer_id: self.organizer_id,
            price_cents: self.price_cents,
            tickets_sold: self.tickets_sold,
            attendees: self.attendees,
            max_attendees: self.max_attendees,
            contact_email: self.contact_email,
            contact_phone: self.contact_phone,
            registration_deadline: self.registration_deadline,
            is_virtual: self.is_virtual,
            image: self.image,
            map_embed: self.map_embed,
            accessibility_info: self.accessibility_info,
            safety_guidelines: self.safety_guidelines,
            created_at: now.clone(),
            updated_at: now,
        }
    }
}

/// Query parameter: the year whose events are listed.
pub struct GetUserEventsQuery {
    pub year: i64,
}

/// Scope for listing an organizer's events of one year.
pub struct GetUserEventsData {
    pub organizer_id: i64,
    pub year: i64,
}

/// Scope for fetching a single event: both the identifier and the owner
/// must match.
pub struct GetEventData {
    pub event_id: i64,
    pub organizer_id: i64,
}

/// The assembled detail view of one event: its organizer and all of its
/// sub-resources.
pub struct EventDetails {
    pub organizer: crate::organizer::Organizer,
    pub agenda: Vec<crate::agenda::Agenda>,
    pub speakers: Vec<crate::speaker::Speaker>,
    pub faqs: Vec<crate::faq::Faq>,
    pub attachments: Vec<crate::attachment::Attachment>,
    pub comments: Vec<crate::comment::Comment>,
    pub related_events: Vec<Event>,
}

/// The sub-resources registered together when an event's details are
/// first created.
pub struct CreateEventDetails {
    pub agenda: Vec<crate::agenda::Agenda>,
    pub speakers: Vec<crate::speaker::Speaker>,
    pub faqs: Vec<crate::faq::Faq>,
    pub attachments: Vec<crate::attachment::Attachment>,
}

/// Monthly ticket revenue and its yearly total, in integer cents.
pub struct TicketTotals {
    pub tickets: Vec<i64>,
    pub profit: i64,
}

/// Daily event counts, sparse: only days with at least one event appear.
pub struct EventCounts {
    pub event_counts: Vec<crate::overview::CountByDate>,
}

/// Matching key of a single-event fetch: identifier and owning organizer
/// must both agree, which is what prevents cross-tenant access.
pub open spec fn event_key_fn(id: i64, org: i64) -> spec_fn(Event) -> bool {
    |e: Event| e.id == id && e.organizer_id == org
}

/// The first event of `s` with the given identifier and owner, if any.
pub open spec fn find_event(s: Seq<Event>, id: i64, org: i64) -> Option<Event> {
    find_first(s, event_key_fn(id, org))
}

/// Ascending order by event date.
pub open spec fn sorted_by_date(s: Seq<Event>) -> bool {
    forall|a: int, b: int| 0 <= a <= b < s.len() ==> s[a].event_date.spec_le(s[b].event_date)
}

/// Full-row replace: every payload field of `data` is taken over, the
/// identifier and creation stamp stay with the stored row, and the update
/// stamp becomes `now`.
pub open spec fn spec_updated_event(data: Event, orig: Event, now: String) -> Event {
    Event { id: orig.id, created_at: orig.created_at, updated_at: now, ..data }
}

fn make_updated_event(data: &Event, orig_id: i64, orig_created_at: &String, now: &String) -> (r:
    Event)
    ensures
        r.id == orig_id,
        r.created_at == *orig_created_at,
        r.updated_at == *now,
        r == (Event { id: orig_id, created_at: *orig_created_at, updated_at: *now, ..*data }),
{
    let mut e = data.clone_event();
    e.id = orig_id;
    e.created_at = orig_created_at.clone();
    e.updated_at = now.clone();
    e
}

/// The index of an event with the earliest date.
fn min_date_index(v: &Vec<Event>) -> (mi: usize)
    requires
        v@.len() > 0,
    ensures
        mi < v@.len(),
        forall|t: int| 0 <= t < v@.len() ==> v@[mi as int].event_date.spec_le(
            (#[trigger] v@[t]).event_date,
        ),
{
    let mut mi: usize = 0;
    let mut k: usize = 1;
    while k < v.len()
        invariant
            mi < k <= v@.len(),
            forall|t: int| 0 <= t < k ==> v@[mi as int].event_date.spec_le(
                (#[trigger] v@[t]).event_date,
            ),
        decreases v@.len() - k,
    {
        if v[k].event_date.lt(&v[mi].event_date) {
            mi = k;
        }
        k += 1;
    }
    mi
}

/// Selection sort by event date: the result is the same multiset of rows
/// in ascending date order.
pub(crate) fn sort_events_by_date(v: Vec<Event>) -> (r: Vec<Event>)
    ensures
        sorted_by_date(r@),
        r@.to_multiset() == v@.to_multiset(),
        r@.len() == v@.len(),
{
    let ghost orig = v@;
    let mut rest = v;
    let mut out: Vec<Event> = Vec::new();
    proof {
        broadcast use vstd::seq_lib::group_to_multiset_ensures;

        assert(out@.to_multiset().add(rest@.to_multiset()) =~= orig.to_multiset());
    }
    while rest.len() > 0
        invariant
            out@.to_multiset().add(rest@.to_multiset()) == orig.to_multiset(),
            out@.len() + rest@.len() == orig.len(),
            sorted_by_date(out@),
            forall|a: int, b: int|
                0 <= a < out@.len() && 0 <= b < rest@.len() ==> (#[trigger] out@[a]).event_date.spec_le(
                    (#[trigger] rest@[b]).event_date,
                ),
        decreases rest.len(),
    {
        let ghost rest0 = rest@;
        let ghost out0 = out@;
        let mi = min_date_index(&rest);
        let e = rest.remove(mi);
        out.push(e);
        proof {
            broadcast use vstd::seq_lib::group_to_multiset_ensures;

            assert(rest@.to_multiset() =~= rest0.to_multiset().remove(e));
            assert(out@.to_multiset() =~= out0.to_multiset().insert(e));
            assert(out@.to_multiset().add(rest@.to_multiset()) =~= out0.to_multiset().add(
                rest0.to_multiset(),
            ));
            assert forall|a: int, b: int|
                0 <= a <= b < out@.len() implies (#[trigger] out@[a]).event_date.spec_le(
                (#[trigger] out@[b]).event_date,
            ) by {
                if b < out0.len() {
                    assert(out@[a] == out0[a] && out@[b] == out0[b]);
                } else if a < out0.len() {
                    assert(out@[a] == out0[a] && out@[b] == e);
                    assert(out0[a].event_date.spec_le(rest0[mi as int].event_date));
                }
            }
            assert forall|a: int, b: int|
                0 <= a < out@.len() && 0 <= b < rest@.len() implies (#[trigger] out@[a]).event_date.spec_le(
                (#[trigger] rest@[b]).event_date,
            ) by {
                assert(rest@[b] == if b < mi as int {
                    rest0[b]
                } else {
                    rest0[b + 1]
                });
                if a < out0.len() {
                    assert(out@[a] == out0[a]);
                } else {
                    assert(out@[a] == e && e == rest0[mi as int]);
                }
            }
        }
    }
    proof {
        broadcast use vstd::seq_lib::group_to_multiset_ensures;

        assert(rest@.to_multiset() =~= Multiset::<Event>::empty());
        assert(out@.to_multiset().add(Multiset::<Event>::empty()) =~= out@.to_multiset());
        assert(orig.to_multiset().len() == orig.len());
        assert(out@.to_multiset().len() == out@.len());
    }
    out
}

/// Retrieves all events of one organizer's year, ordered by event date
/// ascending. The result is exactly the scope's rows; the order among
/// events of one day is left open, as it is in the underlying store.
pub fn fetch_events(data: GetUserEventsData, db: &Database) -> (r: Result<Vec<Event>, AppError>)
    requires
        db.wf(),
    ensures
        r is Ok,
        sorted_by_date(r->Ok_0@),
        r->Ok_0@.to_multiset() == events_of(db.events@, data.organizer_id, data.year).to_multiset(),
        r->Ok_0@.len() == events_of(db.events@, data.organizer_id, data.year).len(),
{
    let evs = events_in_scope(db, data.organizer_id, data.year);
    let sorted = sort_events_by_date(evs);
    Ok(sorted)
}

/// Retrieves one event by identifier, scoped to its owning organizer:
/// an event of another organizer is `NotFound`, never revealed.
pub fn fetch_event(data: GetEventData, db: &Database) -> (r: Result<Event, AppError>)
    requires
        db.wf(),
    ensures
        r == match find_event(db.events@, data.event_id, data.organizer_id) {
            Some(e) => Ok::<Event, AppError>(e),
            None => Err::<Event, AppError>(AppError::NotFound),
        },
{
    let ghost s = db.events@;
    let ghost p = event_key_fn(data.event_id, data.organizer_id);
    let n = db.events.len();
    let mut i: usize = 0;
    while i < n
        invariant
            i <= n,
            n == s.len(),
            s == db.events@,
            forall|k: int|
                0 <= k < i ==> !((#[trigger] s[k]).id == data.event_id && s[k].organizer_id
                    == data.organizer_id),
        decreases n - i,
    {
        let e = &db.events[i];
        if e.id == data.event_id && e.organizer_id == data.organizer_id {
            proof {
                assert forall|k: int| 0 <= k < i implies !(#[trigger] event_key_fn(
                    data.event_id,
                    data.organizer_id,
                )(s[k])) by {
                    assert(event_key_fn(data.event_id, data.organizer_id)(s[k]) == (s[k].id
                        == data.event_id && s[k].organizer_id == data.organizer_id));
                }
                assert(event_key_fn(data.event_id, data.organizer_id)(s[i as int]));
                lemma_find_first_at(s, event_key_fn(data.event_id, data.organizer_id), i as int);
            }
            return Ok(e.clone_event());
        }
        i += 1;
    }
    proof {
        assert forall|k: int| 0 <= k < s.len() implies !(#[trigger] event_key_fn(
            data.event_id,
            data.organizer_id,
        )(s[k])) by {
            assert(event_key_fn(data.event_id, data.organizer_id)(s[k]) == (s[k].id
                == data.event_id && s[k].organizer_id == data.organizer_id));
        }
        lemma_find_first_none(s, event_key_fn(data.event_id, data.organizer_id));
    }
    Err(AppError::NotFound)
}

/// Inserts a new event; the store assigns the next identifier, stamps
/// `created_at` and `updated_at` with the server time `now`, and returns
/// the stored row.
pub fn create_event(data: EventData, now: String, db: &mut Database) -> (r: Result<Event, AppError>)
    requires
        old(db).wf(),
        data.wf(),
        old(db).next_event_id < i64::MAX,
    ensures
        final(db).wf(),
        r is Ok,
        r->Ok_0 == data.spec_into_event(old(db).next_event_id, now),
        r->Ok_0.created_at == now && r->Ok_0.updated_at == now,
        final(db).events@ == old(db).events@.push(
            data.spec_into_event(old(db).next_event_id, now),
        ),
        final(db).next_event_id == old(db).next_event_id + 1,
        *final(db) == (Database {
            events: final(db).events,
            next_event_id: final(db).next_event_id,
            ..*old(db)
        }),
{
    let id = db.next_event_id;
    let e = data.into_event(id, now);
    let stored = e.clone_event();
    db.events.push(e);
    db.next_event_id = id + 1;
    proof {
        assert forall|i: int| 0 <= i < db.events@.len() implies 1 <= (#[trigger] db.events@[i]).id
            < db.next_event_id && db.events@[i].wf() by {
            if i < old(db).events@.len() {
                assert(db.events@[i] == old(db).events@[i]);
            }
        }
    }
    Ok(stored)
}

/// Full-row update of the event with the payload's identifier: every
/// payload field is written, `updated_at` is stamped with `now`, and
/// `created_at` stays. A missing identifier updates nothing, as in the
/// underlying store.
pub fn update_event(data: Event, now: String, db: &mut Database) -> (r: Result<(), AppError>)
    requires
        old(db).wf(),
        data.wf(),
    ensures
        final(db).wf(),
        r is Ok,
        final(db).events@.len() == old(db).events@.len(),
        forall|i: int|
            0 <= i < old(db).events@.len() ==> #[trigger] final(db).events@[i] == (
            if old(db).events@[i].id == data.id {
                spec_updated_event(data, old(db).events@[i], now)
            } else {
                old(db).events@[i]
            }),
        *final(db) == (Database { events: final(db).events, ..*old(db) }),
{
    let ghost orig = old(db).events@;
    let n = db.events.len();
    let mut i: usize = 0;
    while i < n
        invariant
            i <= n,
            n == orig.len(),
            db.events@.len() == orig.len(),
            orig == old(db).events@,
            data.wf(),
            forall|k: int|
                0 <= k < i ==> #[trigger] db.events@[k] == (if orig[k].id == data.id {
                    spec_updated_event(data, orig[k], now)
                } else {
                    orig[k]
                }),
            forall|k: int| i <= k < orig.len() ==> #[trigger] db.events@[k] == orig[k],
            *db == (Database { events: db.events, ..*old(db) }),
        decreases n - i,
    {
        if db.events[i].id == data.id {
            let orig_id = db.events[i].id;
            let orig_created = db.events[i].created_at.clone();
            let updated = make_updated_event(&data, orig_id, &orig_created, &now);
            db.events.set(i, updated);
        }
        i += 1;
    }
    proof {
        assert forall|i: int| 0 <= i < db.events@.len() implies (#[trigger] db.events@[i]).wf() && 1
            <= db.events@[i].id < db.next_event_id && db.events@[i].id == orig[i].id by {
            assert(orig[i].wf() && 1 <= orig[i].id < old(db).next_event_id);
        }
    }
    Ok(())
}

/// Fit of a monthly revenue report to a scope: one slot per month with the
/// month's ticket revenue in cents, and the yearly total.
pub open spec fn ticket_totals_ok(evs: Seq<Event>, t: TicketTotals) -> bool {
    &&& t.tickets@.len() == 12
    &&& forall|m: int| 0 <= m < 12 ==> #[trigger] t.tickets@[m] == revenue_in_month(evs, m)
    &&& t.profit == total_revenue(evs)
}

/// Fetches the monthly ticket revenue of one organizer's year and its
/// total, in integer cents.
pub fn fetch_monthly_ticket_sales(data: GetOverview, db: &Database) -> (r: Result<
    TicketTotals,
    AppError,
>)
    requires
        db.wf(),
        scope_sums_fit(events_of(db.events@, data.organizer_id, data.year)),
    ensures
        r is Ok,
        ticket_totals_ok(events_of(db.events@, data.organizer_id, data.year), r->Ok_0),
{
    let evs = events_in_scope(db, data.organizer_id, data.year);
    let (ti, total) = revenue_buckets(&evs);
    Ok(TicketTotals { tickets: ti, profit: total })
}

/// Fetches the daily event counts of one organizer's year: only days with
/// at least one event appear, ascending, with the day's event count.
pub fn fetch_daily_event_counts(data: GetOverview, db: &Database) -> (r: Result<
    EventCounts,
    AppError,
>)
    requires
        db.wf(),
        scope_sums_fit(events_of(db.events@, data.organizer_id, data.year)),
    ensures
        r is Ok,
        daily_events_by_date_matches(
            events_of(db.events@, data.organizer_id, data.year),
            r->Ok_0.event_counts@,
        ),
{
    let evs = events_in_scope(db, data.organizer_id, data.year);
    let ghost scope = evs@;
    let groups = daily_groups(evs);
    let mut out: Vec<crate::overview::CountByDate> = Vec::new();
    let n = groups.len();
    let mut t: usize = 0;
    while t < n
        invariant
            t <= n,
            n == groups@.len(),
            forall|u: int|
                0 <= u < groups@.len() ==> (#[trigger] groups@[u]).0.wf() && groups@[u].1
                    == count_on_date(scope, groups@[u].0),
            out@.len() == t,
            forall|u: int|
                0 <= u < t ==> (#[trigger] out@[u]).date@ == crate::dates::date_chars(
                    groups@[u].0,
                ) && out@[u].count == count_on_date(scope, groups@[u].0),
        decreases n - t,
    {
        let day = crate::dates::date_string(&groups[t].0);
        out.push(crate::overview::CountByDate { date: day, count: groups[t].1 });
        t += 1;
    }
    let result = EventCounts { event_counts: out };
    proof {
        let ds = days_of(groups@);
        assert forall|u: int|
            0 <= u < result.event_counts@.len() implies (#[trigger] result.event_counts@[u]).date@
            == crate::dates::date_chars(ds[u]) && result.event_counts@[u].count == count_on_date(
            scope,
            ds[u],
        ) by {
            assert(ds[u] == groups@[u].0);
        }
        assert(scope == events_of(db.events@, data.organizer_id, data.year));
        assert(daily_counts_by_date_ok(
            events_of(db.events@, data.organizer_id, data.year),
            ds,
            result.event_counts@,
        ));
        assert(daily_events_by_date_matches(
            events_of(db.events@, data.organizer_id, data.year),
            result.event_counts@,
        ));
    }
    Ok(result)
}

/// Handler core of the monthly ticket sales route: authenticates the
/// session and reports over the authenticated organizer's events of the
/// requested year.
pub fn get_monthly_ticket_sales(token: Option<&String>, query: YearQuery, db: &Database) -> (r:
    Result<TicketTotals, AppError>)
    requires
        db.wf(),
        match session_of(*db, token) {
            Some(x) => scope_sums_fit(events_of(db.events@, x.user_id, query.year)),
            None => true,
        },
    ensures
        session_of(*db, token) is None ==> r == Err::<TicketTotals, AppError>(
            AppError::Unauthenticated,
        ),
        session_of(*db, token) matches Some(x) ==> r matches Ok(v) && ticket_totals_ok(
            events_of(db.events@, x.user_id, query.year),
            v,
        ),
{
    let session = match validate_session(token, db) {
        Ok(x) => x,
        Err(_) => {
            return Err(AppError::Unauthenticated);
        },
    };
    fetch_monthly_ticket_sales(
        GetOverview { organizer_id: session.user_id, year: query.year },
        db,
    )
}

/// Handler core of the daily event-count route: authenticates the session
/// and reports over the authenticated organizer's events of the requested
/// year.
pub fn get_daily_event_counts(token: Option<&String>, query: YearQuery, db: &Database) -> (r:
    Result<EventCounts, AppError>)
    requires
        db.wf(),
        match session_of(*db, token) {
            Some(x) => scope_sums_fit(events_of(db.events@, x.user_id, query.year)),
            None => true,
        },
    ensures
        session_of(*db, token) is None ==> r == Err::<EventCounts, AppError>(
            AppError::Unauthenticated,
        ),
        session_of(*db, token) matches Some(x) ==> r matches Ok(v)
            && daily_events_by_date_matches(
            events_of(db.events@, x.user_id, query.year),
            v.event_counts@,
        ),
{
    let session = match validate_session(token, db) {
        Ok(x) => x,
        Err(_) => {
            return Err(AppError::Unauthenticated);
        },
    };
    fetch_daily_event_counts(GetOverview { organizer_id: session.user_id, year: query.year }, db)
}

/// Handler core of the event list route: authenticates the session and
/// lists the authenticated organizer's events of the requested year,
/// ordered by event date.
pub fn get_events(token: Option<&String>, query: GetUserEventsQuery, db: &Database) -> (r: Result<
    Vec<Event>,
    AppError,
>)
    requires
        db.wf(),
    ensures
        session_of(*db, token) is None ==> r == Err::<Vec<Event>, AppError>(
            AppError::Unauthenticated,
        ),
        session_of(*db, token) matches Some(x) ==> r matches Ok(v) && sorted_by_date(v@)
            && v@.to_multiset() == events_of(db.events@, x.user_id, query.year).to_multiset()
            && v@.len() == events_of(db.events@, x.user_id, query.year).len(),
{
    let session = match validate_session(token, db) {
        Ok(x) => x,
        Err(_) => {
            return Err(AppError::Unauthenticated);
        },
    };
    fetch_events(GetUserEventsData { organizer_id: session.user_id, year: query.year }, db)
}

/// Handler core of the single-event route: authenticates the session and
/// fetches the event, scoped to the authenticated organizer.
pub fn get_event(token: Option<&String>, event_id: i64, db: &Database) -> (r: Result<
    Event,
    AppError,
>)
    requires
        db.wf(),
    ensures
        session_of(*db, token) is None ==> r == Err::<Event, AppError>(AppError::Unauthenticated),
        session_of(*db, token) matches Some(x) ==> r == match find_event(
            db.events@,
            event_id,
            x.user_id,
        ) {
            Some(e) => Ok::<Event, AppError>(e),
            None => Err::<Event, AppError>(AppError::NotFound),
        },
{
    let session = match validate_session(token, db) {
        Ok(x) => x,
        Err(_) => {
            return Err(AppError::Unauthenticated);
        },
    };
    fetch_event(GetEventData { event_id, organizer_id: session.user_id }, db)
}

/// Handler core of the event detail route: authenticates the session,
/// checks ownership of the event, and assembles its organizer profile and
/// sub-resources. A missing organizer profile yields the placeholder; the
/// related-events list is not populated.
pub fn get_event_details(token: Option<&String>, event_id: i64, db: &Database) -> (r: Result<
    EventDetails,
    AppError,
>)
    requires
        db.wf(),
    ensures
        session_of(*db, token) is None ==> r == Err::<EventDetails, AppError>(
            AppError::Unauthenticated,
        ),
        session_of(*db, token) matches Some(x) ==> match find_event(
            db.events@,
            event_id,
            x.user_id,
        ) {
            None => r == Err::<EventDetails, AppError>(AppError::NotFound),
            Some(e) => r matches Ok(d) && ({
                &&& d.agenda@ == crate::agenda::agendas_of_event(db.agendas@, e.id)
                &&& d.speakers@ == crate::speaker::speakers_of_event(db.speakers@, e.id)
                &&& d.faqs@ == crate::faq::faqs_of_event(db.faqs@, e.id)
                &&& d.attachments@ == crate::attachment::attachments_of_event(db.attachments@, e.id)
                &&& d.comments@ == crate::comment::comments_of_event(db.comments@, e.id)
                &&& d.related_events@.len() == 0
                &&& match crate::organizer::find_organizer(db.organizers@, e.organizer_id) {
                    Some(o) => d.organizer == o,
                    None => d.organizer.id == 0 && d.organizer.name@ == Seq::<char>::empty()
                        && d.organizer.logo is None && d.organizer.website is None,
                }
            }),
        },
{
    let session = match validate_session(token, db) {
        Ok(x) => x,
        Err(_) => {
            return Err(AppError::Unauthenticated);
        },
    };
    let event = match fetch_event(GetEventData { event_id, organizer_id: session.user_id }, db) {
        Ok(e) => e,
        Err(_) => {
            return Err(AppError::NotFound);
        },
    };
    let organizer_info = match crate::organizer::fetch_organizer(
        crate::organizer::GetOrganizerData { organizer_id: event.organizer_id },
        db,
    ) {
        Ok(o) => o,
        Err(_) => crate::organizer::Organizer::default(),
    };
    let agenda_items = match crate::agenda::fetch_agenda(
        crate::agenda::GetAgendaData { event_id: event.id },
        db,
    ) {
        Ok(v) => v,
        Err(_) => Vec::new(),
    };
    let speaker_items = match crate::speaker::fetch_speakers(
        crate::speaker::GetSpeakerData { event_id: event.id },
        db,
    ) {
        Ok(v) => v,
        Err(_) => Vec::new(),
    };
    let faq_items = match crate::faq::fetch_faqs(
        crate::faq::GetFaqData { event_id: event.id },
        db,
    ) {
        Ok(v) => v,
        Err(_) => Vec::new(),
    };
    let attachment_items = match crate::attachment::fetch_attachments(
        crate::attachment::GetAttachmentData { event_id: event.id },
        db,
    ) {
        Ok(v) => v,
        Err(_) => Vec::new(),
    };
    let comment_items = match crate::comment::fetch_comments(
        crate::comment::GetCommentData { event_id: event.id },
        db,
    ) {
        Ok(v) => v,
        Err(_) => Vec::new(),
    };
    Ok(
        EventDetails {
            organizer: organizer_info,
            agenda: agenda_items,
            speakers: speaker_items,
            faqs: faq_items,
            attachments: attachment_items,
            comments: comment_items,
            related_events: Vec::new(),
        },
    )
}

/// Handler core of the event registration route: authenticates the
/// session and creates the event under the authenticated organizer,
/// whatever owner the payload names, with both stamps set to the server
/// time `now`.
pub fn register_event(
    token: Option<&String>,
    data: EventData,
    now: String,
    db: &mut Database,
) -> (r: Result<Event, AppError>)
    requires
        old(db).wf(),
        data.wf(),
        old(db).next_event_id < i64::MAX,
    ensures
        final(db).wf(),
        session_of(*old(db), token) is None ==> r == Err::<Event, AppError>(
            AppError::Unauthenticated,
        ) && *final(db) == *old(db),
        session_of(*old(db), token) matches Some(x) ==> ({
            let payload = EventData { organizer_id: x.user_id, ..data };
            let stored = payload.spec_into_event(old(db).next_event_id, now);
            &&& r == Ok::<Event, AppError>(stored)
            &&& final(db).events@ == old(db).events@.push(stored)
            &&& final(db).next_event_id == old(db).next_event_id + 1
            &&& *final(db) == (Database {
                events: final(db).events,
                next_event_id: final(db).next_event_id,
                ..*old(db)
            })
        }),
{
    let session = match validate_session(token, db) {
        Ok(x) => x,
        Err(_) => {
            return Err(AppError::Unauthenticated);
        },
    };
    create_event(EventData { organizer_id: session.user_id, ..data }, now, db)
}

/// Handler core of the event detail registration route: authenticates the
/// session, checks ownership of the event, and inserts the payload's
/// agenda, speaker, FAQ and attachment rows, item by item, returning the
/// stored rows.
pub fn register_event_details(
    token: Option<&String>,
    event_id: i64,
    data: CreateEventDetails,
    db: &mut Database,
) -> (r: Result<CreateEventDetails, AppError>)
    requires
        old(db).wf(),
        old(db).next_agenda_id + data.agenda@.len() <= i64::MAX,
        old(db).next_speaker_id + data.speakers@.len() <= i64::MAX,
        old(db).next_faq_id + data.faqs@.len() <= i64::MAX,
        old(db).next_attachment_id + data.attachments@.len() <= i64::MAX,
    ensures
        final(db).wf(),
        session_of(*old(db), token) is None ==> r == Err::<CreateEventDetails, AppError>(
            AppError::Unauthenticated,
        ) && *final(db) == *old(db),
        session_of(*old(db), token) matches Some(x) ==> match find_event(
            old(db).events@,
            event_id,
            x.user_id,
        ) {
            None => r == Err::<CreateEventDetails, AppError>(AppError::NotFound) && *final(db)
                == *old(db),
            Some(_) => r matches Ok(cd) && ({
                &&& cd.agenda@.len() == data.agenda@.len()
                &&& forall|j: int|
                    0 <= j < data.agenda@.len() ==> #[trigger] cd.agenda@[j]
                        == crate::agenda::spec_created_agenda(
                        data.agenda@[j],
                        old(db).next_agenda_id + j,
                    )
                &&& final(db).agendas@ == old(db).agendas@ + cd.agenda@
                &&& final(db).next_agenda_id == old(db).next_agenda_id + data.agenda@.len()
                &&& cd.speakers@.len() == data.speakers@.len()
                &&& forall|j: int|
                    0 <= j < data.speakers@.len() ==> #[trigger] cd.speakers@[j]
                        == crate::speaker::spec_created_speaker(
                        data.speakers@[j],
                        old(db).next_speaker_id + j,
                    )
                &&& final(db).speakers@ == old(db).speakers@ + cd.speakers@
                &&& final(db).next_speaker_id == old(db).next_speaker_id + data.speakers@.len()
                &&& cd.faqs@.len() == data.faqs@.len()
                &&& forall|j: int|
                    0 <= j < data.faqs@.len() ==> #[trigger] cd.faqs@[j]
                        == crate::faq::spec_created_faq(data.faqs@[j], old(db).next_faq_id + j)
                &&& final(db).faqs@ == old(db).faqs@ + cd.faqs@
                &&& final(db).next_faq_id == old(db).next_faq_id + data.faqs@.len()
                &&& cd.attachments@.len() == data.attachments@.len()
                &&& forall|j: int|
                    0 <= j < data.attachments@.len() ==> #[trigger] cd.attachments@[j]
                        == crate::attachment::spec_created_attachment(
                        data.attachments@[j],
                        old(db).next_attachment_id + j,
                    )
                &&& final(db).attachments@ == old(db).attachments@ + cd.attachments@
                &&& final(db).next_attachment_id == old(db).next_attachment_id
                    + data.attachments@.len()
                &&& *final(db) == (Database {
                    agendas: final(db).agendas,
                    next_agenda_id: final(db).next_agenda_id,
                    speakers: final(db).speakers,
                    next_speaker_id: final(db).next_speaker_id,
                    faqs: final(db).faqs,
                    next_faq_id: final(db).next_faq_id,
                    attachments: final(db).attachments,
                    next_attachment_id: final(db).next_attachment_id,
                    ..*old(db)
                })
            }),
        },
{
    let session = match validate_session(token, db) {
        Ok(x) => x,
        Err(_) => {
            return Err(AppError::Unauthenticated);
        },
    };
    match fetch_event(GetEventData { event_id, organizer_id: session.user_id }, db) {
        Ok(_) => (),
        Err(_) => {
            return Err(AppError::NotFound);
        },
    }
    let CreateEventDetails { agenda, speakers, faqs, attachments } = data;
    let agenda_items = match crate::agenda::create_agenda(agenda, db) {
        Ok(v) => v,
        Err(e) => {
            return Err(e);
        },
    };
    let speaker_items = match crate::speaker::create_speakers(speakers, db) {
        Ok(v) => v,
        Err(e) => {
            return Err(e);
        },
    };
    let faq_items = match crate::faq::create_faqs(faqs, db) {
        Ok(v) => v,
        Err(e) => {
            return Err(e);
        },
    };
    let attachment_items = match crate::attachment::create_attachments(attachments, db) {
        Ok(v) => v,
        Err(e) => {
            return Err(e);
        },
    };
    Ok(
        CreateEventDetails {
            agenda: agenda_items,
            speakers: speaker_items,
            faqs: faq_items,
            attachments: attachment_items,
        },
    )
}

/// Handler core of the event update route: authenticates the session,
/// checks ownership of the event, and replaces the row under the path's
/// identifier, stamping `updated_at` with `now`.
pub fn put_event(
    token: Option<&String>,
    event_id: i64,
    data: Event,
    now: String,
    db: &mut Database,
) -> (r: Result<(), AppError>)
    requires
        old(db).wf(),
        data.wf(),
    ensures
        final(db).wf(),
        session_of(*old(db), token) is None ==> r == Err::<(), AppError>(
            AppError::Unauthenticated,
        ) && *final(db) == *old(db),
        session_of(*old(db), token) matches Some(x) ==> match find_event(
            old(db).events@,
            event_id,
            x.user_id,
        ) {
            None => r == Err::<(), AppError>(AppError::NotFound) && *final(db) == *old(db),
            Some(_) => ({
                &&& r is Ok
                &&& final(db).events@.len() == old(db).events@.len()
                &&& forall|i: int|
                    0 <= i < old(db).events@.len() ==> #[trigger] final(db).events@[i] == (
                    if old(db).events@[i].id == event_id {
                        spec_updated_event(data, old(db).events@[i], now)
                    } else {
                        old(db).events@[i]
                    })
                &&& *final(db) == (Database { events: final(db).events, ..*old(db) })
            }),
        },
{
    let session = match validate_session(token, db) {
        Ok(x) => x,
        Err(_) => {
            return Err(AppError::Unauthenticated);
        },
    };
    match fetch_event(GetEventData { event_id, organizer_id: session.user_id }, db) {
        Ok(_) => (),
        Err(_) => {
            return Err(AppError::NotFound);
        },
    }
    let payload = Event { id: event_id, ..data };
    proof {
        assert forall|orig: Event, stamp: String| true implies #[trigger] spec_updated_event(
            payload,
            orig,
            stamp,
        ) == spec_updated_event(data, orig, stamp) by {
        }
    }
    update_event(payload, now, db)
}

/// Handler core of the event detail update route: authenticates the
/// session, checks ownership of the event, and applies the payload's
/// agenda, speaker, FAQ and attachment updates, item by item.
pub fn put_event_details(
    token: Option<&String>,
    event_id: i64,
    data: EventDetails,
    db: &mut Database,
) -> (r: Result<(), AppError>)
    requires
        old(db).wf(),
    ensures
        final(db).wf(),
        session_of(*old(db), token) is None ==> r == Err::<(), AppError>(
            AppError::Unauthenticated,
        ) && *final(db) == *old(db),
        session_of(*old(db), token) matches Some(x) ==> match find_event(
            old(db).events@,
            event_id,
            x.user_id,
        ) {
            None => r == Err::<(), AppError>(AppError::NotFound) && *final(db) == *old(db),
            Some(_) => ({
                &&& r is Ok
                &&& final(db).agendas@ == crate::agenda::spec_apply_agenda_updates(
                    old(db).agendas@,
                    data.agenda@,
                )
                &&& final(db).speakers@ == crate::speaker::spec_apply_speaker_updates(
                    old(db).speakers@,
                    data.speakers@,
                )
                &&& final(db).faqs@ == crate::faq::spec_apply_faq_updates(
                    old(db).faqs@,
                    data.faqs@,
                )
                &&& final(db).attachments@ == crate::attachment::spec_apply_attachment_updates(
                    old(db).attachments@,
                    data.attachments@,
                )
                &&& *final(db) == (Database {
                    agendas: final(db).agendas,
                    speakers: final(db).speakers,
                    faqs: final(db).faqs,
                    attachments: final(db).attachments,
                    ..*old(db)
                })
            }),
        },
{
    let session = match validate_session(token, db) {
        Ok(x) => x,
        Err(_) => {
            return Err(AppError::Unauthenticated);
        },
    };
    match fetch_event(GetEventData { event_id, organizer_id: session.user_id }, db) {
        Ok(_) => (),
        Err(_) => {
            return Err(AppError::NotFound);
        },
    }
    let EventDetails { agenda, speakers, faqs, attachments, .. } = data;
    match crate::agenda::update_agenda(agenda, db) {
        Ok(()) => (),
        Err(e) => {
            return Err(e);
        },
    }
    match crate::speaker::update_speakers(speakers, db) {
        Ok(()) => (),
        Err(e) => {
            return Err(e);
        },
    }
    match crate::faq::update_faqs(faqs, db) {
        Ok(()) => (),
        Err(e) => {
            return Err(e);
        },
    }
    match crate::attachment::update_attachments(attachments, db) {
        Ok(()) => (),
        Err(e) => {
            return Err(e);
        },
    }
    Ok(())
}

} // verus!
