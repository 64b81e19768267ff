//! Attendees of single events, and the attendance analytics: monthly and
//! daily attendee totals, attendance extremes and no-show statistics.

use vstd::prelude::*;

use crate::AppError;
use crate::analytics::{
    attendees_fn, attendees_in_month, attendees_on_date, attendees_on_date_fn, count_in_month,
    daily_attendees_report_matches, daily_attendees_report_ok, daily_groups, days_of,
    events_in_scope, events_of, lemma_monthly_sum_bound, monthly_buckets, month_of,
    scope_sums_fit, tickets_fn, total_attendees, total_attendees_exec, total_tickets, wf_fn,
};
use crate::dates::Date;
use crate::sums::{
    filter_where, lemma_count_where_bounds, lemma_filter_where_len, lemma_filter_where_preserves,
    lemma_filter_where_take_step, lemma_sum_of_filter_le, lemma_sum_of_nonneg,
    lemma_sum_of_pointwise_le, lemma_sum_of_take_step, lemma_take_all, sum_of,
};
use crate::event::{Event, EventStatus};
use vstd::multiset::Multiset;
use crate::auth::{session_of, validate_session};
use crate::overview::{CountByDate, GetOverview, YearQuery};
use crate::store::Database;

verus! {

/// An attendee row of one event.
pub struct Attendee {
    pub id: i64,
    pub event_id: i64,
    pub name: String,
    pub email: String,
    pub ticket_type: String,
    pub registration_date: Date,
}

impl Attendee {
    pub fn clone_attendee(&self) -> (r: Attendee)
        ensures
            r == *self,
    {
        Attendee {
            id: self.id,
            event_id: self.event_id,
            name: self.name.clone(),
            email: self.email.clone(),
            ticket_type: self.ticket_type.clone(),
            registration_date: self.registration_date,
        }
    }
}

/// Lookup key: the event whose attendees are listed.
pub struct GetAttendeeData {
    pub event_id: i64,
}

/// Monthly attendee sums and their yearly total.
pub struct AttendeeTotals {
    pub attendees: Vec<i64>,
    pub total: i64,
}

/// The most and least attended completed events of a year.
pub struct AttendanceExtremes {
    pub most: Vec<Event>,
    pub least: Vec<Event>,
}

/// Daily attendee sums, sparse: only days with at least one event appear.
pub struct AttendeeCounts {
    pub attendee_counts: Vec<CountByDate>,
}

/// Monthly no-show statistics. A no-show is a sold ticket without an
/// attendee; rates are reported as exact count/event pairs per month, and
/// in total, rather than as quotients.
pub struct NoShowTotals {
    pub no_show_counts: Vec<i64>,
    pub event_counts: Vec<i64>,
    pub total_count: i64,
    pub total_events: i64,
}

/// Monthly attendee sums split by ticket type.
pub struct TicketTypeTotals {
    pub general_counts: Vec<i64>,
    pub student_counts: Vec<i64>,
    pub staff_counts: Vec<i64>,
    pub vip_counts: Vec<i64>,
}

/// Fit of a monthly attendee report to a scope: one slot per month with
/// the month's attendee sum, and the yearly total.
pub open spec fn attendee_totals_ok(evs: Seq<Event>, t: AttendeeTotals) -> bool {
    &&& t.attendees@.len() == 12
    &&& forall|m: int| 0 <= m < 12 ==> #[trigger] t.attendees@[m] == attendees_in_month(evs, m)
    &&& t.total == total_attendees(evs)
}

/// Fetches the monthly attendee sums of one organizer's year and their
/// total.
pub fn fetch_monthly_attendees(data: GetOverview, db: &Database) -> (r: Result<
    AttendeeTotals,
    AppError,
>)
    requires
        db.wf(),
        scope_sums_fit(events_of(db.events@, data.organizer_id, data.year)),
    ensures
        r is Ok,
        attendee_totals_ok(events_of(db.events@, data.organizer_id, data.year), r->Ok_0),
{
    let evs = events_in_scope(db, data.organizer_id, data.year);
    let (_, _, _, _, at) = monthly_buckets(&evs);
    let total = total_attendees_exec(&evs);
    Ok(AttendeeTotals { attendees: at, total })
}

/// Ownership key of attendee rows: the event attended.
pub open spec fn attendee_of_event_fn(event_id: i64) -> spec_fn(Attendee) -> bool {
    |x: Attendee| x.event_id == event_id
}

/// The attendee rows of `s` for the given event, in table order.
pub open spec fn attendees_of_event(s: Seq<Attendee>, event_id: i64) -> Seq<Attendee> {
    filter_where(s, attendee_of_event_fn(event_id))
}

/// Retrieves the attendees of one event.
pub fn fetch_attendees_by_event(data: GetAttendeeData, db: &Database) -> (r: Result<
    Vec<Attendee>,
    AppError,
>)
    requires
        db.wf(),
    ensures
        r is Ok,
        r->Ok_0@ == attendees_of_event(db.attendees@, data.event_id),
{
    let ghost s = db.attendees@;
    let mut out: Vec<Attendee> = Vec::new();
    let n = db.attendees.len();
    proof {
        assert(s.take(0) =~= Seq::<Attendee>::empty());
    }
    let mut i: usize = 0;
    while i < n
        invariant
            i <= n,
            n == s.len(),
            s == db.attendees@,
            out@ == attendees_of_event(s.take(i as int), data.event_id),
        decreases n - i,
    {
        proof {
            lemma_filter_where_take_step(s, attendee_of_event_fn(data.event_id), i as int);
            assert(attendee_of_event_fn(data.event_id)(s[i as int]) == (s[i as int].event_id
                == data.event_id));
        }
        let x = &db.attendees[i];
        if x.event_id == data.event_id {
            out.push(x.clone_attendee());
        }
        i += 1;
    }
    proof {
        lemma_take_all(s);
    }
    Ok(out)
}

/// Events dated strictly before the reference day.
pub open spec fn before_fn(today: Date) -> spec_fn(Event) -> bool {
    |e: Event| e.event_date.spec_lt(today)
}

/// The events of `s` dated strictly before the reference day, in order.
pub open spec fn events_before(s: Seq<Event>, today: Date) -> Seq<Event> {
    filter_where(s, before_fn(today))
}

/// Keeps the events dated strictly before the reference day.
fn events_before_exec(events: &Vec<Event>, today: &Date) -> (r: Vec<Event>)
    ensures
        r@ == events_before(events@, *today),
        r@.len() <= events@.len(),
{
    let ghost s = events@;
    let mut out: Vec<Event> = Vec::new();
    let n = events.len();
    proof {
        assert(s.take(0) =~= Seq::<Event>::empty());
    }
    let mut i: usize = 0;
    while i < n
        invariant
            i <= n,
            n == s.len(),
            s == events@,
            out@ == events_before(s.take(i as int), *today),
            out@.len() <= i,
        decreases n - i,
    {
        proof {
            lemma_filter_where_take_step(s, before_fn(*today), i as int);
            lemma_filter_where_len(s.take(i as int), before_fn(*today));
            lemma_count_where_bounds(s.take(i as int), before_fn(*today));
            assert(before_fn(*today)(s[i as int]) == s[i as int].event_date.spec_lt(*today));
        }
        let e = &events[i];
        if e.event_date.lt(today) {
            out.push(e.clone_event());
        }
        i += 1;
    }
    proof {
        lemma_take_all(s);
    }
    out
}

pub open spec fn no_show_in_month_fn(m: int) -> spec_fn(Event) -> int {
    |e: Event|
        if month_of(e) == m {
            e.tickets_sold - e.attendees
        } else {
            0int
        }
}

/// No-shows (sold tickets without an attendee) of month bucket `m`,
/// summed over `s`.
pub open spec fn no_shows_in_month(s: Seq<Event>, m: int) -> int {
    sum_of(s, no_show_in_month_fn(m))
}

pub open spec fn no_show_fn() -> spec_fn(Event) -> int {
    |e: Event| e.tickets_sold - e.attendees
}

/// All no-shows over `s`.
pub open spec fn total_no_shows(s: Seq<Event>) -> int {
    sum_of(s, no_show_fn())
}

/// One pass over an event list, accumulating no-shows per month and in
/// total.
fn no_show_buckets(events: &Vec<Event>) -> (r: (Vec<i64>, i64))
    requires
        forall|i: int| 0 <= i < events@.len() ==> (#[trigger] events@[i]).wf(),
        total_tickets(events@) <= i64::MAX,
    ensures
        r.0@.len() == 12,
        forall|m: int| 0 <= m < 12 ==> #[trigger] r.0@[m] == no_shows_in_month(events@, m),
        r.1 == total_no_shows(events@),
{
    let ghost s = events@;
    let mut ns: Vec<i64> = vec![0i64; 12];
    let mut total: i64 = 0;
    let n = events.len();
    proof {
        assert(s.take(0) =~= Seq::<Event>::empty());
    }
    let mut i: usize = 0;
    while i < n
        invariant
            i <= n,
            n == s.len(),
            s == events@,
            forall|k: int| 0 <= k < s.len() ==> (#[trigger] s[k]).wf(),
            total_tickets(s) <= i64::MAX,
            ns@.len() == 12,
            forall|m: int| 0 <= m < 12 ==> #[trigger] ns@[m] == no_shows_in_month(s.take(i as int), m),
            total == total_no_shows(s.take(i as int)),
        decreases n - i,
    {
        let e = &events[i];
        let mi = (e.event_date.month - 1) as usize;
        proof {
            lemma_no_show_bounds(s, i as int);
        }
        let shortfall = e.tickets_sold - e.attendees;
        let ns_old = ns[mi];
        ns.set(mi, ns_old + shortfall);
        total = total + shortfall;
        proof {
            let ghost t1 = s.take(i as int + 1);
            assert forall|m: int| 0 <= m < 12 implies #[trigger] ns@[m] == no_shows_in_month(t1, m) by {
                lemma_sum_of_take_step(s, no_show_in_month_fn(m), i as int);
                assert(no_show_in_month_fn(m)(s[i as int]) == if month_of(s[i as int]) == m {
                    s[i as int].tickets_sold - s[i as int].attendees
                } else {
                    0int
                });
            }
            lemma_sum_of_take_step(s, no_show_fn(), i as int);
            assert(no_show_fn()(s[i as int]) == s[i as int].tickets_sold - s[i as int].attendees);
        }
        i += 1;
    }
    proof {
        lemma_take_all(s);
    }
    (ns, total)
}

/// Bounds needed by one step of [`no_show_buckets`]: every accumulator
/// stays within `i64`, because no-shows never exceed tickets sold.
proof fn lemma_no_show_bounds(s: Seq<Event>, i: int)
    requires
        0 <= i < s.len(),
        forall|k: int| 0 <= k < s.len() ==> (#[trigger] s[k]).wf(),
        total_tickets(s) <= i64::MAX,
    ensures
        0 <= s[i].tickets_sold - s[i].attendees,
        forall|m: int|
            0 <= m < 12 ==> 0 <= #[trigger] no_shows_in_month(s.take(i), m) && no_shows_in_month(
                s.take(i),
                m,
            ) + (s[i].tickets_sold - s[i].attendees) <= i64::MAX,
        0 <= total_no_shows(s.take(i)),
        total_no_shows(s.take(i)) + (s[i].tickets_sold - s[i].attendees) <= i64::MAX,
{
    assert(s[i].wf());
    assert forall|m: int| 0 <= m < 12 implies 0 <= #[trigger] no_shows_in_month(s.take(i), m)
        && no_shows_in_month(s.take(i), m) + (s[i].tickets_sold - s[i].attendees)
        <= i64::MAX by {
        assert forall|k: int| 0 <= k < s.len() implies 0 <= #[trigger] no_show_in_month_fn(m)(
            s[k],
        ) by {
            assert(s[k].wf());
        }
        assert forall|k: int| 0 <= k < s.len() implies #[trigger] no_show_in_month_fn(m)(s[k])
            <= tickets_fn()(s[k]) by {
            assert(s[k].wf());
        }
        lemma_monthly_sum_bound(s, no_show_in_month_fn(m), tickets_fn(), i);
        assert(tickets_fn()(s[i]) == s[i].tickets_sold as int);
    }
    assert forall|k: int| 0 <= k < s.len() implies 0 <= #[trigger] no_show_fn()(s[k]) by {
        assert(s[k].wf());
    }
    assert forall|k: int| 0 <= k < s.len() implies #[trigger] no_show_fn()(s[k]) <= tickets_fn()(
        s[k],
    ) by {
        assert(s[k].wf());
    }
    lemma_monthly_sum_bound(s, no_show_fn(), tickets_fn(), i);
    assert(tickets_fn()(s[i]) == s[i].tickets_sold as int);
}

/// Fit of a no-show report to the events of a scope dated before the
/// reference day: per month its no-shows and its event count, and both in
/// total. Rates are the quotients of these pairs.
pub open spec fn no_show_totals_ok(evs: Seq<Event>, t: NoShowTotals) -> bool {
    &&& t.no_show_counts@.len() == 12 && t.event_counts@.len() == 12
    &&& forall|m: int| 0 <= m < 12 ==> #[trigger] t.no_show_counts@[m] == no_shows_in_month(evs, m)
    &&& forall|m: int| 0 <= m < 12 ==> #[trigger] t.event_counts@[m] == count_in_month(evs, m)
    &&& t.total_count == total_no_shows(evs)
    &&& t.total_events == evs.len()
}

/// Fetches the monthly no-show statistics of one organizer's year: among
/// its events dated before `today`, the no-shows and the number of events
/// per month, and both in total. Rates are the quotients of these pairs;
/// [`no_show_rate_parts`] reports them.
pub fn fetch_monthly_no_shows(data: GetOverview, today: Date, db: &Database) -> (r: Result<
    NoShowTotals,
    AppError,
>)
    requires
        db.wf(),
        scope_sums_fit(events_of(db.events@, data.organizer_id, data.year)),
    ensures
        r is Ok,
        no_show_totals_ok(
            events_before(events_of(db.events@, data.organizer_id, data.year), today),
            r->Ok_0,
        ),
{
    let evs = events_in_scope(db, data.organizer_id, data.year);
    let before = events_before_exec(&evs, &today);
    proof {
        lemma_filter_where_preserves(evs@, before_fn(today), wf_fn());
        assert forall|k: int| 0 <= k < evs@.len() implies wf_fn()(#[trigger] evs@[k]) by {
            assert(evs@[k].wf());
        }
        assert forall|j: int| 0 <= j < before@.len() implies (#[trigger] before@[j]).wf() by {
            assert(wf_fn()(before@[j]));
        }
        assert forall|k: int| 0 <= k < evs@.len() implies 0 <= #[trigger] tickets_fn()(evs@[k])
            && 0 <= #[trigger] attendees_fn()(evs@[k]) by {
            assert(evs@[k].wf());
        }
        lemma_sum_of_filter_le(evs@, before_fn(today), tickets_fn());
        lemma_sum_of_filter_le(evs@, before_fn(today), attendees_fn());
    }
    let (ns, total_count) = no_show_buckets(&before);
    let (ev, _, _, _, _) = monthly_buckets(&before);
    let total_events = before.len() as i64;
    Ok(
        NoShowTotals {
            no_show_counts: ns,
            event_counts: ev,
            total_count,
            total_events,
        },
    )
}

/// The no-show rate of one month, as an exact numerator/denominator pair:
/// `None` stands for a rate of zero, which is what a month without
/// no-shows reports — whether it had events or none at all.
pub fn no_show_rate_parts(t: &NoShowTotals, month: usize) -> (r: Option<(i64, i64)>)
    requires
        month < 12,
        t.no_show_counts@.len() == 12,
        t.event_counts@.len() == 12,
    ensures
        (r is None) <==> t.no_show_counts@[month as int] <= 0,
        r matches Some(p) ==> p.0 == t.no_show_counts@[month as int] && p.1
            == t.event_counts@[month as int] && p.0 > 0,
{
    if t.no_show_counts[month] > 0 {
        Some((t.no_show_counts[month], t.event_counts[month]))
    } else {
        None
    }
}

/// The overall no-show rate, as an exact numerator/denominator pair:
/// `None` stands for a rate of zero, reported when there are no no-shows.
pub fn no_show_total_rate_parts(t: &NoShowTotals) -> (r: Option<(i64, i64)>)
    ensures
        (r is None) <==> t.total_count <= 0,
        r matches Some(p) ==> p.0 == t.total_count && p.1 == t.total_events && p.0 > 0,
{
    if t.total_count > 0 {
        Some((t.total_count, t.total_events))
    } else {
        None
    }
}

/// Completed events dated strictly before the reference day: the pool the
/// attendance extremes are drawn from.
pub open spec fn completed_before_fn(today: Date) -> spec_fn(Event) -> bool {
    |e: Event| e.status == EventStatus::Complete && e.event_date.spec_lt(today)
}

/// The events of `s` with status complete and a date before `today`.
pub open spec fn completed_before(s: Seq<Event>, today: Date) -> Seq<Event> {
    filter_where(s, completed_before_fn(today))
}

/// Descending order by attendee count.
pub open spec fn sorted_by_attendees_desc(s: Seq<Event>) -> bool {
    forall|a: int, b: int| 0 <= a <= b < s.len() ==> s[a].attendees >= s[b].attendees
}

/// Ascending order by attendee count.
pub open spec fn sorted_by_attendees_asc(s: Seq<Event>) -> bool {
    forall|a: int, b: int| 0 <= a <= b < s.len() ==> s[a].attendees <= s[b].attendees
}

/// Keeps the completed events dated strictly before the reference day.
fn completed_before_exec(events: &Vec<Event>, today: &Date) -> (r: Vec<Event>)
    ensures
        r@ == completed_before(events@, *today),
{
    let ghost s = events@;
    let mut out: Vec<Event> = Vec::new();
    let n = events.len();
    proof {
        assert(s.take(0) =~= Seq::<Event>::empty());
    }
    let mut i: usize = 0;
    while i < n
        invariant
            i <= n,
            n == s.len(),
            s == events@,
            out@ == completed_before(s.take(i as int), *today),
        decreases n - i,
    {
        proof {
            lemma_filter_where_take_step(s, completed_before_fn(*today), i as int);
            assert(completed_before_fn(*today)(s[i as int]) == (s[i as int].status
                == EventStatus::Complete && s[i as int].event_date.spec_lt(*today)));
        }
        let e = &events[i];
        if e.status == EventStatus::Complete && e.event_date.lt(today) {
            out.push(e.clone_event());
        }
        i += 1;
    }
    proof {
        lemma_take_all(s);
    }
    out
}

/// The index of an event with the most attendees.
fn max_attendees_index(v: &Vec<Event>) -> (mi: usize)
    requires
        v@.len() > 0,
    ensures
        mi < v@.len(),
        forall|t: int| 0 <= t < v@.len() ==> v@[mi as int].attendees >= (#[trigger] v@[t]).attendees,
{
    let mut mi: usize = 0;
    let mut k: usize = 1;
    while k < v.len()
        invariant
            mi < k <= v@.len(),
            forall|t: int| 0 <= t < k ==> v@[mi as int].attendees >= (#[trigger] v@[t]).attendees,
        decreases v@.len() - k,
    {
        if v[k].attendees > v[mi].attendees {
            mi = k;
        }
        k += 1;
    }
    mi
}

/// Selection sort by attendee count, descending: the result is the same
/// multiset of rows, most attended first.
fn sort_events_by_attendees_desc(v: Vec<Event>) -> (r: Vec<Event>)
    ensures
        sorted_by_attendees_desc(r@),
        r@.to_multiset() == v@.to_multiset(),
        r@.len() == v@.len(),
{
    let ghost orig = v@;
    let mut rest = v;
    let mut out: Vec<Event> = Vec::new();
    proof {
        broadcast use vstd::seq_lib::group_to_multiset_ensures;

        assert(out@.to_multiset().add(rest@.to_multiset()) =~= orig.to_multiset());
    }
    while rest.len() > 0
        invariant
            out@.to_multiset().add(rest@.to_multiset()) == orig.to_multiset(),
            out@.len() + rest@.len() == orig.len(),
            sorted_by_attendees_desc(out@),
            forall|a: int, b: int|
                0 <= a < out@.len() && 0 <= b < rest@.len() ==> (#[trigger] out@[a]).attendees
                    >= (#[trigger] rest@[b]).attendees,
        decreases rest.len(),
    {
        let ghost rest0 = rest@;
        let ghost out0 = out@;
        let mi = max_attendees_index(&rest);
        let e = rest.remove(mi);
        out.push(e);
        proof {
            broadcast use vstd::seq_lib::group_to_multiset_ensures;

            assert(rest@.to_multiset() =~= rest0.to_multiset().remove(e));
            assert(out@.to_multiset() =~= out0.to_multiset().insert(e));
            assert(out@.to_multiset().add(rest@.to_multiset()) =~= out0.to_multiset().add(
                rest0.to_multiset(),
            ));
            assert forall|a: int, b: int|
                0 <= a <= b < out@.len() implies (#[trigger] out@[a]).attendees
                >= (#[trigger] out@[b]).attendees by {
                if b < out0.len() {
                    assert(out@[a] == out0[a] && out@[b] == out0[b]);
                } else if a < out0.len() {
                    assert(out@[a] == out0[a] && out@[b] == e);
                    assert(out0[a].attendees >= rest0[mi as int].attendees);
                }
            }
            assert forall|a: int, b: int|
                0 <= a < out@.len() && 0 <= b < rest@.len() implies (#[trigger] out@[a]).attendees
                >= (#[trigger] rest@[b]).attendees by {
                assert(rest@[b] == if b < mi as int {
                    rest0[b]
                } else {
                    rest0[b + 1]
                });
                if a < out0.len() {
                    assert(out@[a] == out0[a]);
                } else {
                    assert(out@[a] == e && e == rest0[mi as int]);
                }
            }
        }
    }
    proof {
        broadcast use vstd::seq_lib::group_to_multiset_ensures;

        assert(rest@.to_multiset() =~= Multiset::<Event>::empty());
        assert(out@.to_multiset().add(Multiset::<Event>::empty()) =~= out@.to_multiset());
        assert(orig.to_multiset().len() == orig.len());
        assert(out@.to_multiset().len() == out@.len());
    }
    out
}

/// The rows of `v` in reverse order.
fn reverse_events(v: &Vec<Event>) -> (r: Vec<Event>)
    ensures
        r@ == v@.reverse(),
{
    let n = v.len();
    let mut out: Vec<Event> = Vec::new();
    let mut i: usize = 0;
    while i < n
        invariant
            i <= n,
            n == v@.len(),
            out@.len() == i,
            forall|j: int| 0 <= j < i ==> #[trigger] out@[j] == v@[n - 1 - j],
        decreases n - i,
    {
        out.push(v[n - 1 - i].clone_event());
        i += 1;
    }
    proof {
        assert(out@ =~= v@.reverse());
    }
    out
}

/// Fit of an attendance-extremes report to its pool (the completed events
/// of a scope dated before the reference day): up to five most attended,
/// descending, and up to five least attended, ascending, both cut from one
/// descending ordering of the pool — so ties are broken consistently,
/// though which ordering is used is left open.
pub open spec fn extremes_ok(pool: Seq<Event>, x: AttendanceExtremes) -> bool {
    let k = if pool.len() < 5 {
        pool.len() as int
    } else {
        5int
    };
    &&& x.most@.len() == k
    &&& x.least@.len() == k
    &&& sorted_by_attendees_desc(x.most@)
    &&& sorted_by_attendees_asc(x.least@)
    &&& exists|full: Seq<Event>|
        {
            &&& #[trigger] full.to_multiset() == pool.to_multiset()
            &&& sorted_by_attendees_desc(full)
            &&& x.most@ == full.take(k)
            &&& x.least@ == full.reverse().take(k)
        }
}

/// Fetches the attendance extremes of one organizer's year: among its
/// completed events dated before `today`, up to five of the most attended,
/// descending, and up to five of the least attended, ascending. Both lists
/// come from one descending ordering of that pool, so ties are broken the
/// same way on both ends; which ordering is left open, as it is in the
/// underlying store.
pub fn fetch_attendance_extremes(data: GetOverview, today: Date, db: &Database) -> (r: Result<
    AttendanceExtremes,
    AppError,
>)
    requires
        db.wf(),
    ensures
        r is Ok,
        extremes_ok(
            completed_before(events_of(db.events@, data.organizer_id, data.year), today),
            r->Ok_0,
        ),
{
    let evs = events_in_scope(db, data.organizer_id, data.year);
    let pool = completed_before_exec(&evs, &today);
    let sorted = sort_events_by_attendees_desc(pool);
    let ghost full = sorted@;
    let k = if sorted.len() < 5 {
        sorted.len()
    } else {
        5
    };
    let reversed = reverse_events(&sorted);
    let mut most = sorted;
    most.truncate(k);
    let mut least = reversed;
    least.truncate(k);
    proof {
        assert(most@ =~= full.take(k as int));
        assert(least@ =~= full.reverse().take(k as int));
        assert forall|a: int, b: int|
            0 <= a <= b < least@.len() implies least@[a].attendees <= least@[b].attendees by {
            let n = full.len() as int;
            assert(least@[a] == full[n - 1 - a]);
            assert(least@[b] == full[n - 1 - b]);
            assert(full[n - 1 - b].attendees >= full[n - 1 - a].attendees);
        }
    }
    Ok(AttendanceExtremes { most, least })
}

/// Fetches the daily attendee counts of one organizer's year: only days
/// with at least one event appear, ascending, with the attendees of that
/// day's events summed.
pub fn fetch_daily_attendee_counts(data: GetOverview, db: &Database) -> (r: Result<
    AttendeeCounts,
    AppError,
>)
    requires
        db.wf(),
        scope_sums_fit(events_of(db.events@, data.organizer_id, data.year)),
        total_attendees(events_of(db.events@, data.organizer_id, data.year)) <= usize::MAX,
    ensures
        r is Ok,
        daily_attendees_report_matches(
            events_of(db.events@, data.organizer_id, data.year),
            r->Ok_0.attendee_counts@,
        ),
{
    let evs = events_in_scope(db, data.organizer_id, data.year);
    let ghost scope = evs@;
    let groups = daily_groups(evs);
    proof {
        assert forall|u: int|
            0 <= u < groups@.len() implies 0 <= (#[trigger] groups@[u]).2 <= total_attendees(
            scope,
        ) by {
            assert forall|k: int| 0 <= k < scope.len() implies 0
                <= #[trigger] attendees_on_date_fn(groups@[u].0)(scope[k]) by {
                assert(scope[k].wf());
            }
            assert forall|k: int| 0 <= k < scope.len() implies #[trigger] attendees_on_date_fn(
                groups@[u].0,
            )(scope[k]) <= attendees_fn()(scope[k]) by {
                assert(scope[k].wf());
            }
            lemma_sum_of_nonneg(scope, attendees_on_date_fn(groups@[u].0));
            lemma_sum_of_pointwise_le(scope, attendees_on_date_fn(groups@[u].0), attendees_fn());
        }
    }
    let mut out: Vec<CountByDate> = Vec::new();
    let n = groups.len();
    let mut t: usize = 0;
    while t < n
        invariant
            t <= n,
            n == groups@.len(),
            forall|u: int|
                0 <= u < groups@.len() ==> (#[trigger] groups@[u]).0.wf() && groups@[u].2
                    == attendees_on_date(scope, groups@[u].0),
            forall|u: int|
                0 <= u < groups@.len() ==> 0 <= (#[trigger] groups@[u]).2 <= usize::MAX,
            out@.len() == t,
            forall|u: int|
                0 <= u < t ==> (#[trigger] out@[u]).date@ == crate::dates::date_chars(
                    groups@[u].0,
                ) && out@[u].count == attendees_on_date(scope, groups@[u].0),
        decreases n - t,
    {
        let day = crate::dates::date_string(&groups[t].0);
        out.push(CountByDate { date: day, count: groups[t].2 as usize });
        t += 1;
    }
    let result = AttendeeCounts { attendee_counts: out };
    proof {
        let ds = days_of(groups@);
        assert forall|u: int|
            0 <= u < result.attendee_counts@.len() implies (
        #[trigger] result.attendee_counts@[u]).date@ == crate::dates::date_chars(ds[u])
            && result.attendee_counts@[u].count == attendees_on_date(scope, ds[u]) by {
            assert(ds[u] == groups@[u].0);
        }
        assert(scope == events_of(db.events@, data.organizer_id, data.year));
        assert(daily_attendees_report_ok(
            events_of(db.events@, data.organizer_id, data.year),
            ds,
            result.attendee_counts@,
        ));
        assert(daily_attendees_report_matches(
            events_of(db.events@, data.organizer_id, data.year),
            result.attendee_counts@,
        ));
    }
    Ok(result)
}

/// Handler core of the monthly attendee route: authenticates the session
/// and reports over the authenticated organizer's events of the requested
/// year.
pub fn get_monthly_attendees(token: Option<&String>, query: YearQuery, db: &Database) -> (r:
    Result<AttendeeTotals, AppError>)
    requires
        db.wf(),
        match session_of(*db, token) {
            Some(x) => scope_sums_fit(events_of(db.events@, x.user_id, query.year)),
            None => true,
        },
    ensures
        session_of(*db, token) is None ==> r == Err::<AttendeeTotals, AppError>(
            AppError::Unauthenticated,
        ),
        session_of(*db, token) matches Some(x) ==> r matches Ok(v) && attendee_totals_ok(
            events_of(db.events@, x.user_id, query.year),
            v,
        ),
{
    let session = match validate_session(token, db) {
        Ok(x) => x,
        Err(_) => {
            return Err(AppError::Unauthenticated);
        },
    };
    fetch_monthly_attendees(GetOverview { organizer_id: session.user_id, year: query.year }, db)
}

/// Handler core of the daily attendee route: authenticates the session and
/// reports over the authenticated organizer's events of the requested
/// year.
pub fn get_daily_attendee_counts(token: Option<&String>, query: YearQuery, db: &Database) -> (r:
    Result<AttendeeCounts, AppError>)
    requires
        db.wf(),
        match session_of(*db, token) {
            Some(x) => scope_sums_fit(events_of(db.events@, x.user_id, query.year))
                && total_attendees(events_of(db.events@, x.user_id, query.year)) <= usize::MAX,
            None => true,
        },
    ensures
        session_of(*db, token) is None ==> r == Err::<AttendeeCounts, AppError>(
            AppError::Unauthenticated,
        ),
        session_of(*db, token) matches Some(x) ==> r matches Ok(v)
            && daily_attendees_report_matches(
            events_of(db.events@, x.user_id, query.year),
            v.attendee_counts@,
        ),
{
    let session = match validate_session(token, db) {
        Ok(x) => x,
        Err(_) => {
            return Err(AppError::Unauthenticated);
        },
    };
    fetch_daily_attendee_counts(
        GetOverview { organizer_id: session.user_id, year: query.year },
        db,
    )
}

/// Handler core of the attendance extremes route: authenticates the
/// session and reports over the authenticated organizer's completed events
/// of the requested year dated before `today`.
pub fn get_attendance_extremes(
    token: Option<&String>,
    query: YearQuery,
    today: Date,
    db: &Database,
) -> (r: Result<AttendanceExtremes, AppError>)
    requires
        db.wf(),
    ensures
        session_of(*db, token) is None ==> r == Err::<AttendanceExtremes, AppError>(
            AppError::Unauthenticated,
        ),
        session_of(*db, token) matches Some(x) ==> r matches Ok(v) && extremes_ok(
            completed_before(events_of(db.events@, x.user_id, query.year), today),
            v,
        ),
{
    let session = match validate_session(token, db) {
        Ok(x) => x,
        Err(_) => {
            return Err(AppError::Unauthenticated);
        },
    };
    fetch_attendance_extremes(
        GetOverview { organizer_id: session.user_id, year: query.year },
        today,
        db,
    )
}

/// Handler core of the no-show route: authenticates the session and
/// reports over the authenticated organizer's events of the requested year
/// dated before `today`.
pub fn get_monthly_no_shows(
    token: Option<&String>,
    query: YearQuery,
    today: Date,
    db: &Database,
) -> (r: Result<NoShowTotals, AppError>)
    requires
        db.wf(),
        match session_of(*db, token) {
            Some(x) => scope_sums_fit(events_of(db.events@, x.user_id, query.year)),
            None => true,
        },
    ensures
        session_of(*db, token) is None ==> r == Err::<NoShowTotals, AppError>(
            AppError::Unauthenticated,
        ),
        session_of(*db, token) matches Some(x) ==> r matches Ok(v) && no_show_totals_ok(
            events_before(events_of(db.events@, x.user_id, query.year), today),
            v,
        ),
{
    let session = match validate_session(token, db) {
        Ok(x) => x,
        Err(_) => {
            return Err(AppError::Unauthenticated);
        },
    };
    fetch_monthly_no_shows(GetOverview { organizer_id: session.user_id, year: query.year }, today, db)
}

/// Handler core of the event attendee route: authenticates the session,
/// checks ownership of the event, and lists its attendees.
pub fn get_attendees_by_event(token: Option<&String>, event_id: i64, db: &Database) -> (r: Result<
    Vec<Attendee>,
    AppError,
>)
    requires
        db.wf(),
    ensures
        session_of(*db, token) is None ==> r == Err::<Vec<Attendee>, AppError>(
            AppError::Unauthenticated,
        ),
        session_of(*db, token) matches Some(x) ==> match crate::event::find_event(
            db.events@,
            event_id,
            x.user_id,
        ) {
            None => r == Err::<Vec<Attendee>, AppError>(AppError::NotFound),
            Some(e) => r matches Ok(v) && v@ == attendees_of_event(db.attendees@, e.id),
        },
{
    let session = match validate_session(token, db) {
        Ok(x) => x,
        Err(_) => {
            return Err(AppError::Unauthenticated);
        },
    };
    let event = match crate::event::fetch_event(
        crate::event::GetEventData { event_id, organizer_id: session.user_id },
        db,
    ) {
        Ok(e) => e,
        Err(_) => {
            return Err(AppError::NotFound);
        },
    };
    fetch_attendees_by_event(GetAttendeeData { event_id: event.id }, db)
}

} // verus!
