//! Analytics reports: monthly overview totals, ticket revenue, daily event
//! counts and monthly attendee sums.
//!
//! Every report scans the events of one organizer and one year and reduces
//! them in a single pass. The spec functions here define each bucket as a
//! count or sum over that event sequence; the report functions' contracts
//! pin every slot of their results to these definitions.

use vstd::prelude::*;

use crate::auth::{session_of, validate_session};
use crate::AppError;
use crate::dates::{date_chars, date_string, lemma_date_lt_le_trans, Date};
use crate::event::{sort_events_by_date, Event, EventStatus};
use crate::overview::CountByDate;
use crate::store::Database;
use crate::sums::{
    count_where, filter_where, lemma_count_where_bounds, lemma_count_where_take_step,
    lemma_filter_where_len, lemma_filter_where_preserves, lemma_filter_where_take_step,
    lemma_sum_of_elem_le, lemma_sum_of_nonneg, lemma_sum_of_pointwise_le, lemma_sum_of_take_le,
    lemma_count_where_multiset, lemma_count_where_range, lemma_multiset_pointwise,
    lemma_sum_of_multiset, lemma_sum_of_take_rest_zero, lemma_sum_of_take_step, lemma_sum_of_zero,
    lemma_take_all, sum_of,
};
use vstd::arithmetic::mul::lemma_mul_nonnegative;

verus! {

/// Twelve-slot monthly totals of events, upcoming events, canceled events,
/// tickets sold and attendees.
pub struct OverviewTotals {
    pub events: Vec<i64>,
    pub upcoming: Vec<i64>,
    pub canceled: Vec<i64>,
    pub tickets: Vec<i64>,
    pub attendees: Vec<i64>,
}

/// Query parameter: the year a report covers.
pub struct OverviewQuery {
    pub year: i64,
}

/// Scope of an analytics request: one organizer's events of one year.
pub struct GetOverview {
    pub year: i64,
    pub organizer_id: i64,
}

/// Monthly ticket revenue and its yearly total, in integer cents.
pub struct TicketsOverview {
    pub tickets: Vec<i64>,
    pub profit: i64,
}

/// Daily event counts, sparse: only days with at least one event appear.
pub struct EventsOverview {
    pub event_counts: Vec<DateCount>,
}

/// A day (as `YYYY-MM-DD` text) with the number of events on it.
pub struct DateCount {
    pub date: String,
    pub count: usize,
}

/// Monthly attendee sums and their yearly total.
pub struct AttendeesOverview {
    pub attendees: Vec<i64>,
    pub total: i64,
}

/// Membership in one organizer's year: the scope every report filters by.
pub open spec fn scope_fn(org: i64, year: i64) -> spec_fn(Event) -> bool {
    |e: Event| e.organizer_id == org && e.event_date.year == year
}

/// The events of `s` belonging to organizer `org` with an event date in
/// `year`, in table order.
pub open spec fn events_of(s: Seq<Event>, org: i64, year: i64) -> Seq<Event> {
    filter_where(s, scope_fn(org, year))
}

/// Row well-formedness as a predicate value.
pub open spec fn wf_fn() -> spec_fn(Event) -> bool {
    |e: Event| e.wf()
}

/// The zero-based month bucket of an event.
pub open spec fn month_of(e: Event) -> int {
    e.event_date.month - 1
}

pub open spec fn in_month_fn(m: int) -> spec_fn(Event) -> bool {
    |e: Event| month_of(e) == m
}

/// How many events of `s` fall in month bucket `m`.
pub open spec fn count_in_month(s: Seq<Event>, m: int) -> int {
    count_where(s, in_month_fn(m))
}

pub open spec fn status_in_month_fn(st: EventStatus, m: int) -> spec_fn(Event) -> bool {
    |e: Event| e.status == st && month_of(e) == m
}

/// How many events of `s` with status `st` fall in month bucket `m`.
pub open spec fn count_status_in_month(s: Seq<Event>, st: EventStatus, m: int) -> int {
    count_where(s, status_in_month_fn(st, m))
}

pub open spec fn tickets_in_month_fn(m: int) -> spec_fn(Event) -> int {
    |e: Event|
        if month_of(e) == m {
            e.tickets_sold as int
        } else {
            0int
        }
}

/// Tickets sold in month bucket `m`, summed over `s`.
pub open spec fn tickets_in_month(s: Seq<Event>, m: int) -> int {
    sum_of(s, tickets_in_month_fn(m))
}

pub open spec fn attendees_in_month_fn(m: int) -> spec_fn(Event) -> int {
    |e: Event|
        if month_of(e) == m {
            e.attendees as int
        } else {
            0int
        }
}

/// Attendees in month bucket `m`, summed over `s`.
pub open spec fn attendees_in_month(s: Seq<Event>, m: int) -> int {
    sum_of(s, attendees_in_month_fn(m))
}

pub open spec fn revenue_in_month_fn(m: int) -> spec_fn(Event) -> int {
    |e: Event|
        if month_of(e) == m {
            e.tickets_sold * e.price_cents
        } else {
            0int
        }
}

/// Ticket revenue (tickets sold times price, in cents) of month bucket
/// `m`, summed over `s`.
pub open spec fn revenue_in_month(s: Seq<Event>, m: int) -> int {
    sum_of(s, revenue_in_month_fn(m))
}

pub open spec fn tickets_fn() -> spec_fn(Event) -> int {
    |e: Event| e.tickets_sold as int
}

/// All tickets sold over `s`.
pub open spec fn total_tickets(s: Seq<Event>) -> int {
    sum_of(s, tickets_fn())
}

pub open spec fn attendees_fn() -> spec_fn(Event) -> int {
    |e: Event| e.attendees as int
}

/// All attendees over `s`.
pub open spec fn total_attendees(s: Seq<Event>) -> int {
    sum_of(s, attendees_fn())
}

pub open spec fn revenue_fn() -> spec_fn(Event) -> int {
    |e: Event| e.tickets_sold * e.price_cents
}

/// All ticket revenue over `s`, in cents.
pub open spec fn total_revenue(s: Seq<Event>) -> int {
    sum_of(s, revenue_fn())
}

/// Fetches the events of one organizer and year, in table order.
pub fn events_in_scope(db: &Database, org: i64, year: i64) -> (r: Vec<Event>)
    requires
        db.wf(),
    ensures
        r@ == events_of(db.events@, org, year),
        r@.len() <= db.events@.len(),
        forall|i: int|
            0 <= i < r@.len() ==> (#[trigger] r@[i]).wf() && r@[i].organizer_id == org
                && r@[i].event_date.year == year,
{
    let ghost s = db.events@;
    let mut out: Vec<Event> = Vec::new();
    let n = db.events.len();
    proof {
        assert(s.take(0) =~= Seq::<Event>::empty());
    }
    let mut i: usize = 0;
    while i < n
        invariant
            i <= n,
            n == s.len(),
            db.wf(),
            s == db.events@,
            out@ == events_of(s.take(i as int), org, year),
            out@.len() <= i,
        decreases n - i,
    {
        proof {
            lemma_events_of_take_step(s, org, year, i as int);
        }
        let e = &db.events[i];
        if e.organizer_id == org && e.event_date.year == year {
            out.push(e.clone_event());
        }
        i += 1;
    }
    proof {
        lemma_take_all(s);
        lemma_events_of_members(s, org, year);
    }
    out
}

/// One scan step of the scope filter.
pub proof fn lemma_events_of_take_step(s: Seq<Event>, org: i64, year: i64, i: int)
    requires
        0 <= i < s.len(),
    ensures
        events_of(s.take(i + 1), org, year) == if s[i].organizer_id == org
            && s[i].event_date.year == year {
            events_of(s.take(i), org, year).push(s[i])
        } else {
            events_of(s.take(i), org, year)
        },
{
    lemma_filter_where_take_step(s, scope_fn(org, year), i);
    assert(scope_fn(org, year)(s[i]) == (s[i].organizer_id == org && s[i].event_date.year
        == year));
}

/// Every event the scope filter keeps belongs to the organizer and year,
/// and inherits well-formedness from the table.
pub proof fn lemma_events_of_members(s: Seq<Event>, org: i64, year: i64)
    requires
        forall|i: int| 0 <= i < s.len() ==> (#[trigger] s[i]).wf(),
    ensures
        events_of(s, org, year).len() <= s.len(),
        forall|j: int|
            0 <= j < events_of(s, org, year).len() ==> (#[trigger] events_of(s, org, year)[j]).wf()
                && events_of(s, org, year)[j].organizer_id == org && events_of(s, org, year)[
                j].event_date.year == year,
{
    let p = scope_fn(org, year);
    lemma_filter_where_preserves(s, p, wf_fn());
    lemma_filter_where_len(s, p);
    lemma_count_where_bounds(s, p);
    assert forall|j: int| 0 <= j < events_of(s, org, year).len() implies (#[trigger] events_of(
        s,
        org,
        year,
    )[j]).wf() && events_of(s, org, year)[j].organizer_id == org && events_of(s, org, year)[
        j].event_date.year == year by {
        let e = events_of(s, org, year)[j];
        assert(p(e) && wf_fn()(e));
    }
}

/// One pass over an event list, bucketing by month: all events, upcoming
/// events, canceled events, tickets sold and attendees.
pub(crate) fn monthly_buckets(events: &Vec<Event>) -> (r: (Vec<i64>, Vec<i64>, Vec<i64>, Vec<i64>, Vec<i64>))
    requires
        forall|i: int| 0 <= i < events@.len() ==> (#[trigger] events@[i]).wf(),
        events@.len() <= i64::MAX,
        total_tickets(events@) <= i64::MAX,
        total_attendees(events@) <= i64::MAX,
    ensures
        r.0@.len() == 12 && r.1@.len() == 12 && r.2@.len() == 12 && r.3@.len() == 12
            && r.4@.len() == 12,
        forall|m: int| 0 <= m < 12 ==> #[trigger] r.0@[m] == count_in_month(events@, m),
        forall|m: int|
            0 <= m < 12 ==> #[trigger] r.1@[m] == count_status_in_month(
                events@,
                EventStatus::Upcoming,
                m,
            ),
        forall|m: int|
            0 <= m < 12 ==> #[trigger] r.2@[m] == count_status_in_month(
                events@,
                EventStatus::Canceled,
                m,
            ),
        forall|m: int| 0 <= m < 12 ==> #[trigger] r.3@[m] == tickets_in_month(events@, m),
        forall|m: int| 0 <= m < 12 ==> #[trigger] r.4@[m] == attendees_in_month(events@, m),
{
    let ghost s = events@;
    let mut ev: Vec<i64> = vec![0i64; 12];
    let mut up: Vec<i64> = vec![0i64; 12];
    let mut ca: Vec<i64> = vec![0i64; 12];
    let mut ti: Vec<i64> = vec![0i64; 12];
    let mut at: Vec<i64> = vec![0i64; 12];
    let n = events.len();
    proof {
        assert(s.take(0) =~= Seq::<Event>::empty());
    }
    let mut i: usize = 0;
    while i < n
        invariant
            i <= n,
            n == s.len(),
            s == events@,
            forall|k: int| 0 <= k < s.len() ==> (#[trigger] s[k]).wf(),
            s.len() <= i64::MAX,
            total_tickets(s) <= i64::MAX,
            total_attendees(s) <= i64::MAX,
            ev@.len() == 12 && up@.len() == 12 && ca@.len() == 12 && ti@.len() == 12 && at@.len()
                == 12,
            forall|m: int| 0 <= m < 12 ==> #[trigger] ev@[m] == count_in_month(s.take(i as int), m),
            forall|m: int|
                0 <= m < 12 ==> #[trigger] up@[m] == count_status_in_month(
                    s.take(i as int),
                    EventStatus::Upcoming,
                    m,
                ),
            forall|m: int|
                0 <= m < 12 ==> #[trigger] ca@[m] == count_status_in_month(
                    s.take(i as int),
                    EventStatus::Canceled,
                    m,
                ),
            forall|m: int|
                0 <= m < 12 ==> #[trigger] ti@[m] == tickets_in_month(s.take(i as int), m),
            forall|m: int|
                0 <= m < 12 ==> #[trigger] at@[m] == attendees_in_month(s.take(i as int), m),
        decreases n - i,
    {
        let e = &events[i];
        let mi = (e.event_date.month - 1) as usize;
        proof {
            lemma_monthly_bucket_bounds(s, i as int);
        }
        let ev_old = ev[mi];
        ev.set(mi, ev_old + 1);
        let ti_old = ti[mi];
        ti.set(mi, ti_old + e.tickets_sold);
        let at_old = at[mi];
        at.set(mi, at_old + e.attendees);
        if e.status == EventStatus::Upcoming {
            let up_old = up[mi];
            up.set(mi, up_old + 1);
        }
        if e.status == EventStatus::Canceled {
            let ca_old = ca[mi];
            ca.set(mi, ca_old + 1);
        }
        proof {
            let ghost t1 = s.take(i as int + 1);
            assert forall|m: int| 0 <= m < 12 implies #[trigger] ev@[m] == count_in_month(t1, m) by {
                lemma_count_where_take_step(s, in_month_fn(m), i as int);
                assert(in_month_fn(m)(s[i as int]) == (month_of(s[i as int]) == m));
            }
            assert forall|m: int| 0 <= m < 12 implies #[trigger] up@[m] == count_status_in_month(
                t1,
                EventStatus::Upcoming,
                m,
            ) by {
                lemma_count_where_take_step(s, status_in_month_fn(EventStatus::Upcoming, m), i as int);
                assert(status_in_month_fn(EventStatus::Upcoming, m)(s[i as int]) == (s[i as int].status
                    == EventStatus::Upcoming && month_of(s[i as int]) == m));
            }
            assert forall|m: int| 0 <= m < 12 implies #[trigger] ca@[m] == count_status_in_month(
                t1,
                EventStatus::Canceled,
                m,
            ) by {
                lemma_count_where_take_step(s, status_in_month_fn(EventStatus::Canceled, m), i as int);
                assert(status_in_month_fn(EventStatus::Canceled, m)(s[i as int]) == (s[i as int].status
                    == EventStatus::Canceled && month_of(s[i as int]) == m));
            }
            assert forall|m: int| 0 <= m < 12 implies #[trigger] ti@[m] == tickets_in_month(t1, m) by {
                lemma_sum_of_take_step(s, tickets_in_month_fn(m), i as int);
                assert(tickets_in_month_fn(m)(s[i as int]) == if month_of(s[i as int]) == m {
                    s[i as int].tickets_sold as int
                } else {
                    0int
                });
            }
            assert forall|m: int| 0 <= m < 12 implies #[trigger] at@[m] == attendees_in_month(t1, m) by {
                lemma_sum_of_take_step(s, attendees_in_month_fn(m), i as int);
                assert(attendees_in_month_fn(m)(s[i as int]) == if month_of(s[i as int]) == m {
                    s[i as int].attendees as int
                } else {
                    0int
                });
            }
        }
        i += 1;
    }
    proof {
        lemma_take_all(s);
    }
    (ev, up, ca, ti, at)
}

/// Bounds needed by one step of [`monthly_buckets`]: the next counter and
/// the next two sums still fit in `i64`.
proof fn lemma_monthly_bucket_bounds(s: Seq<Event>, i: int)
    requires
        0 <= i < s.len(),
        forall|k: int| 0 <= k < s.len() ==> (#[trigger] s[k]).wf(),
        s.len() <= i64::MAX,
        total_tickets(s) <= i64::MAX,
        total_attendees(s) <= i64::MAX,
    ensures
        forall|m: int|
            0 <= m < 12 ==> 0 <= #[trigger] count_in_month(s.take(i), m) && count_in_month(
                s.take(i),
                m,
            ) + 1 <= i64::MAX,
        forall|m: int|
            0 <= m < 12 ==> 0 <= #[trigger] count_status_in_month(
                s.take(i),
                EventStatus::Upcoming,
                m,
            ) && count_status_in_month(s.take(i), EventStatus::Upcoming, m) + 1 <= i64::MAX,
        forall|m: int|
            0 <= m < 12 ==> 0 <= #[trigger] count_status_in_month(
                s.take(i),
                EventStatus::Canceled,
                m,
            ) && count_status_in_month(s.take(i), EventStatus::Canceled, m) + 1 <= i64::MAX,
        forall|m: int|
            0 <= m < 12 ==> 0 <= #[trigger] tickets_in_month(s.take(i), m) && tickets_in_month(
                s.take(i),
                m,
            ) + s[i].tickets_sold <= i64::MAX,
        forall|m: int|
            0 <= m < 12 ==> 0 <= #[trigger] attendees_in_month(s.take(i), m)
                && attendees_in_month(s.take(i), m) + s[i].attendees <= i64::MAX,
{
    let t = s.take(i);
    assert forall|m: int| 0 <= m < 12 implies 0 <= #[trigger] count_in_month(t, m)
        && count_in_month(t, m) + 1 <= i64::MAX by {
        lemma_count_where_bounds(t, in_month_fn(m));
    }
    assert forall|m: int| 0 <= m < 12 implies 0 <= #[trigger] count_status_in_month(
        t,
        EventStatus::Upcoming,
        m,
    ) && count_status_in_month(t, EventStatus::Upcoming, m) + 1 <= i64::MAX by {
        lemma_count_where_bounds(t, status_in_month_fn(EventStatus::Upcoming, m));
    }
    assert forall|m: int| 0 <= m < 12 implies 0 <= #[trigger] count_status_in_month(
        t,
        EventStatus::Canceled,
        m,
    ) && count_status_in_month(t, EventStatus::Canceled, m) + 1 <= i64::MAX by {
        lemma_count_where_bounds(t, status_in_month_fn(EventStatus::Canceled, m));
    }
    assert forall|m: int| 0 <= m < 12 implies 0 <= #[trigger] tickets_in_month(t, m)
        && tickets_in_month(t, m) + s[i].tickets_sold <= i64::MAX by {
        assert forall|k: int| 0 <= k < s.len() implies 0 <= #[trigger] tickets_in_month_fn(m)(
            s[k],
        ) by {
            assert(s[k].wf());
        }
        assert forall|k: int| 0 <= k < s.len() implies #[trigger] tickets_in_month_fn(m)(s[k])
            <= tickets_fn()(s[k]) by {
            assert(s[k].wf());
        }
        lemma_monthly_sum_bound(s, tickets_in_month_fn(m), tickets_fn(), i);
        assert(tickets_fn()(s[i]) == s[i].tickets_sold as int);
    }
    assert forall|m: int| 0 <= m < 12 implies 0 <= #[trigger] attendees_in_month(t, m)
        && attendees_in_month(t, m) + s[i].attendees <= i64::MAX by {
        assert forall|k: int| 0 <= k < s.len() implies 0 <= #[trigger] attendees_in_month_fn(m)(
            s[k],
        ) by {
            assert(s[k].wf());
        }
        assert forall|k: int| 0 <= k < s.len() implies #[trigger] attendees_in_month_fn(m)(s[k])
            <= attendees_fn()(s[k]) by {
            assert(s[k].wf());
        }
        lemma_monthly_sum_bound(s, attendees_in_month_fn(m), attendees_fn(), i);
        assert(attendees_fn()(s[i]) == s[i].attendees as int);
    }
}

/// For a conditional sum `f` dominated pointwise by a non-negative total
/// sum `g`, the prefix sum of `f` plus the next term of `g` stays within
/// the total of `g`.
pub proof fn lemma_monthly_sum_bound(s: Seq<Event>, f: spec_fn(Event) -> int, g: spec_fn(Event) -> int, i: int)
    requires
        0 <= i < s.len(),
        forall|k: int| 0 <= k < s.len() ==> 0 <= #[trigger] f(s[k]),
        forall|k: int| 0 <= k < s.len() ==> #[trigger] f(s[k]) <= g(s[k]),
    ensures
        0 <= sum_of(s.take(i), f),
        sum_of(s.take(i), f) + g(s[i]) <= sum_of(s, g),
{
    let t = s.take(i);
    assert forall|k: int| 0 <= k < t.len() implies 0 <= #[trigger] f(t[k]) by {
        assert(t[k] == s[k]);
        assert(0 <= f(s[k]));
    }
    assert forall|k: int| 0 <= k < t.len() implies #[trigger] f(t[k]) <= #[trigger] g(t[k]) by {
        assert(t[k] == s[k]);
        assert(f(s[k]) <= g(s[k]));
    }
    lemma_sum_of_nonneg(t, f);
    lemma_sum_of_pointwise_le(t, f, g);
    assert forall|k: int| 0 <= k < s.len() implies #[trigger] g(s[k]) >= 0 by {
        assert(0 <= f(s[k]));
        assert(f(s[k]) <= g(s[k]));
    }
    lemma_sum_of_take_step(s, g, i);
    lemma_sum_of_take_le(s, g, i + 1);
    assert(sum_of(s.take(i), g) + g(s[i]) == sum_of(s.take(i + 1), g));
}

/// All three yearly sums of a scope fit the `i64` accumulators. Reports
/// over the scope require this; [`sums_fit`] decides it at run time.
pub open spec fn scope_sums_fit(s: Seq<Event>) -> bool {
    &&& total_tickets(s) <= i64::MAX
    &&& total_attendees(s) <= i64::MAX
    &&& total_revenue(s) <= i64::MAX
}

/// Decides whether an event list keeps all yearly sums within `i64`,
/// so that an unverified caller can test the reports' precondition.
pub fn sums_fit(events: &Vec<Event>) -> (r: bool)
    requires
        forall|i: int| 0 <= i < events@.len() ==> (#[trigger] events@[i]).wf(),
    ensures
        r == scope_sums_fit(events@),
{
    let ghost s = events@;
    let mut tickets: i128 = 0;
    let mut attendees: i128 = 0;
    let mut revenue: i128 = 0;
    let n = events.len();
    proof {
        assert(s.take(0) =~= Seq::<Event>::empty());
    }
    let mut i: usize = 0;
    while i < n
        invariant
            i <= n,
            n == s.len(),
            s == events@,
            forall|k: int| 0 <= k < s.len() ==> (#[trigger] s[k]).wf(),
            tickets == total_tickets(s.take(i as int)),
            attendees == total_attendees(s.take(i as int)),
            revenue == total_revenue(s.take(i as int)),
            0 <= tickets <= i64::MAX,
            0 <= attendees <= i64::MAX,
            0 <= revenue <= i64::MAX,
        decreases n - i,
    {
        let e = &events[i];
        proof {
            lemma_sums_fit_step(s, i as int);
            assert forall|k: int| 0 <= k < s.len() implies 0 <= #[trigger] tickets_fn()(s[k]) by {
                assert(s[k].wf());
            }
            assert forall|k: int| 0 <= k < s.len() implies 0 <= #[trigger] attendees_fn()(s[k]) by {
                assert(s[k].wf());
            }
            assert forall|k: int| 0 <= k < s.len() implies 0 <= #[trigger] revenue_fn()(s[k]) by {
                assert(s[k].wf());
                lemma_mul_nonnegative(s[k].tickets_sold as int, s[k].price_cents as int);
            }
            lemma_sum_of_take_le(s, tickets_fn(), i as int + 1);
            lemma_sum_of_take_le(s, attendees_fn(), i as int + 1);
            lemma_sum_of_take_le(s, revenue_fn(), i as int + 1);
        }
        let t2 = tickets + e.tickets_sold as i128;
        let a2 = attendees + e.attendees as i128;
        let r2 = revenue + (e.tickets_sold as i128) * (e.price_cents as i128);
        if t2 > i64::MAX as i128 || a2 > i64::MAX as i128 || r2 > i64::MAX as i128 {
            return false;
        }
        tickets = t2;
        attendees = a2;
        revenue = r2;
        i += 1;
    }
    proof {
        lemma_take_all(s);
    }
    true
}

/// One step of the run-time sum check: the spec sums advance by the
/// event's own contribution, and all accumulators stay within `i128`.
proof fn lemma_sums_fit_step(s: Seq<Event>, i: int)
    requires
        0 <= i < s.len(),
        forall|k: int| 0 <= k < s.len() ==> (#[trigger] s[k]).wf(),
    ensures
        total_tickets(s.take(i + 1)) == total_tickets(s.take(i)) + s[i].tickets_sold,
        total_attendees(s.take(i + 1)) == total_attendees(s.take(i)) + s[i].attendees,
        total_revenue(s.take(i + 1)) == total_revenue(s.take(i)) + s[i].tickets_sold
            * s[i].price_cents,
        0 <= s[i].tickets_sold * s[i].price_cents <= i64::MAX as int * i64::MAX as int,
{
    lemma_sum_of_take_step(s, tickets_fn(), i);
    lemma_sum_of_take_step(s, attendees_fn(), i);
    lemma_sum_of_take_step(s, revenue_fn(), i);
    assert(tickets_fn()(s[i]) == s[i].tickets_sold as int);
    assert(attendees_fn()(s[i]) == s[i].attendees as int);
    assert(revenue_fn()(s[i]) == s[i].tickets_sold * s[i].price_cents);
    assert(s[i].wf());
    lemma_mul_nonnegative(s[i].tickets_sold as int, s[i].price_cents as int);
    vstd::arithmetic::mul::lemma_mul_upper_bound(
        s[i].tickets_sold as int,
        i64::MAX as int,
        s[i].price_cents as int,
        i64::MAX as int,
    );
}

/// Sums the attendees of a year's events.
pub(crate) fn total_attendees_exec(events: &Vec<Event>) -> (r: i64)
    requires
        forall|i: int| 0 <= i < events@.len() ==> (#[trigger] events@[i]).wf(),
        total_attendees(events@) <= i64::MAX,
    ensures
        r == total_attendees(events@),
{
    let ghost s = events@;
    let mut total: i64 = 0;
    let n = events.len();
    proof {
        assert(s.take(0) =~= Seq::<Event>::empty());
    }
    let mut i: usize = 0;
    while i < n
        invariant
            i <= n,
            n == s.len(),
            s == events@,
            forall|k: int| 0 <= k < s.len() ==> (#[trigger] s[k]).wf(),
            total_attendees(s) <= i64::MAX,
            total == total_attendees(s.take(i as int)),
        decreases n - i,
    {
        let e = &events[i];
        proof {
            assert forall|k: int| 0 <= k < s.len() implies 0 <= #[trigger] attendees_fn()(s[k]) by {
                assert(s[k].wf());
            }
            lemma_monthly_sum_bound(s, attendees_fn(), attendees_fn(), i as int);
            lemma_sum_of_take_step(s, attendees_fn(), i as int);
            assert(attendees_fn()(s[i as int]) == s[i as int].attendees as int);
        }
        total = total + e.attendees;
        i += 1;
    }
    proof {
        lemma_take_all(s);
    }
    total
}

/// One pass over an event list, accumulating ticket revenue (tickets sold
/// times price, in cents) per month and in total.
pub(crate) fn revenue_buckets(events: &Vec<Event>) -> (r: (Vec<i64>, i64))
    requires
        forall|i: int| 0 <= i < events@.len() ==> (#[trigger] events@[i]).wf(),
        total_revenue(events@) <= i64::MAX,
    ensures
        r.0@.len() == 12,
        forall|m: int| 0 <= m < 12 ==> #[trigger] r.0@[m] == revenue_in_month(events@, m),
        r.1 == total_revenue(events@),
{
    let ghost s = events@;
    let mut ti: Vec<i64> = vec![0i64; 12];
    let mut total: i64 = 0;
    let n = events.len();
    proof {
        assert(s.take(0) =~= Seq::<Event>::empty());
    }
    let mut i: usize = 0;
    while i < n
        invariant
            i <= n,
            n == s.len(),
            s == events@,
            forall|k: int| 0 <= k < s.len() ==> (#[trigger] s[k]).wf(),
            total_revenue(s) <= i64::MAX,
            ti@.len() == 12,
            forall|m: int| 0 <= m < 12 ==> #[trigger] ti@[m] == revenue_in_month(s.take(i as int), m),
            total == total_revenue(s.take(i as int)),
        decreases n - i,
    {
        let e = &events[i];
        let mi = (e.event_date.month - 1) as usize;
        proof {
            lemma_revenue_bounds(s, i as int);
        }
        let rev = e.tickets_sold * e.price_cents;
        let ti_old = ti[mi];
        ti.set(mi, ti_old + rev);
        total = total + rev;
        proof {
            let ghost t1 = s.take(i as int + 1);
            assert forall|m: int| 0 <= m < 12 implies #[trigger] ti@[m] == revenue_in_month(t1, m) by {
                lemma_sum_of_take_step(s, revenue_in_month_fn(m), i as int);
                assert(revenue_in_month_fn(m)(s[i as int]) == if month_of(s[i as int]) == m {
                    s[i as int].tickets_sold * s[i as int].price_cents
                } else {
                    0int
                });
            }
            lemma_sum_of_take_step(s, revenue_fn(), i as int);
            assert(revenue_fn()(s[i as int]) == s[i as int].tickets_sold * s[i as int].price_cents);
        }
        i += 1;
    }
    proof {
        lemma_take_all(s);
    }
    (ti, total)
}

/// Bounds needed by one step of [`revenue_buckets`]: the event's own
/// revenue and both accumulators stay within `i64`.
proof fn lemma_revenue_bounds(s: Seq<Event>, i: int)
    requires
        0 <= i < s.len(),
        forall|k: int| 0 <= k < s.len() ==> (#[trigger] s[k]).wf(),
        total_revenue(s) <= i64::MAX,
    ensures
        0 <= s[i].tickets_sold * s[i].price_cents <= i64::MAX,
        forall|m: int|
            0 <= m < 12 ==> 0 <= #[trigger] revenue_in_month(s.take(i), m) && revenue_in_month(
                s.take(i),
                m,
            ) + s[i].tickets_sold * s[i].price_cents <= i64::MAX,
        0 <= total_revenue(s.take(i)),
        total_revenue(s.take(i)) + s[i].tickets_sold * s[i].price_cents <= i64::MAX,
{
    assert forall|k: int| 0 <= k < s.len() implies 0 <= #[trigger] revenue_fn()(s[k]) by {
        assert(s[k].wf());
        lemma_mul_nonnegative(s[k].tickets_sold as int, s[k].price_cents as int);
    }
    lemma_sum_of_elem_le(s, revenue_fn(), i);
    assert(revenue_fn()(s[i]) == s[i].tickets_sold * s[i].price_cents);
    lemma_monthly_sum_bound(s, revenue_fn(), revenue_fn(), i);
    assert forall|m: int| 0 <= m < 12 implies 0 <= #[trigger] revenue_in_month(s.take(i), m)
        && revenue_in_month(s.take(i), m) + s[i].tickets_sold * s[i].price_cents <= i64::MAX by {
        assert forall|k: int| 0 <= k < s.len() implies 0 <= #[trigger] revenue_in_month_fn(m)(
            s[k],
        ) by {
            assert(s[k].wf());
            lemma_mul_nonnegative(s[k].tickets_sold as int, s[k].price_cents as int);
        }
        assert forall|k: int| 0 <= k < s.len() implies #[trigger] revenue_in_month_fn(m)(s[k])
            <= revenue_fn()(s[k]) by {
            assert(s[k].wf());
            lemma_mul_nonnegative(s[k].tickets_sold as int, s[k].price_cents as int);
        }
        lemma_monthly_sum_bound(s, revenue_in_month_fn(m), revenue_fn(), i);
    }
}

/// Fit of a monthly overview report to a scope: all five vectors have one
/// slot per month, holding the scope's event count, upcoming and canceled
/// counts, ticket sum and attendee sum of that month.
pub open spec fn overview_totals_ok(evs: Seq<Event>, t: OverviewTotals) -> bool {
    &&& t.events@.len() == 12 && t.upcoming@.len() == 12 && t.canceled@.len() == 12
        && t.tickets@.len() == 12 && t.attendees@.len() == 12
    &&& forall|m: int| 0 <= m < 12 ==> #[trigger] t.events@[m] == count_in_month(evs, m)
    &&& forall|m: int|
        0 <= m < 12 ==> #[trigger] t.upcoming@[m] == count_status_in_month(
            evs,
            EventStatus::Upcoming,
            m,
        )
    &&& forall|m: int|
        0 <= m < 12 ==> #[trigger] t.canceled@[m] == count_status_in_month(
            evs,
            EventStatus::Canceled,
            m,
        )
    &&& forall|m: int| 0 <= m < 12 ==> #[trigger] t.tickets@[m] == tickets_in_month(evs, m)
    &&& forall|m: int| 0 <= m < 12 ==> #[trigger] t.attendees@[m] == attendees_in_month(evs, m)
}

/// Fit of a monthly revenue report to a scope: one slot per month with the
/// month's ticket revenue in cents, and the yearly total.
pub open spec fn tickets_overview_ok(evs: Seq<Event>, t: TicketsOverview) -> bool {
    &&& t.tickets@.len() == 12
    &&& forall|m: int| 0 <= m < 12 ==> #[trigger] t.tickets@[m] == revenue_in_month(evs, m)
    &&& t.profit == total_revenue(evs)
}

/// Fit of a monthly attendee report to a scope: one slot per month with
/// the month's attendee sum, and the yearly total.
pub open spec fn attendees_overview_ok(evs: Seq<Event>, t: AttendeesOverview) -> bool {
    &&& t.attendees@.len() == 12
    &&& forall|m: int| 0 <= m < 12 ==> #[trigger] t.attendees@[m] == attendees_in_month(evs, m)
    &&& t.total == total_attendees(evs)
}

/// Fetches the monthly overview totals of one organizer's year: per month,
/// all events, the upcoming ones, the canceled ones, tickets sold and
/// attendees.
pub fn fetch_overview_monthly_totals(data: GetOverview, db: &Database) -> (r: Result<
    OverviewTotals,
    AppError,
>)
    requires
        db.wf(),
        scope_sums_fit(events_of(db.events@, data.organizer_id, data.year)),
    ensures
        r is Ok,
        overview_totals_ok(events_of(db.events@, data.organizer_id, data.year), r->Ok_0),
{
    let evs = events_in_scope(db, data.organizer_id, data.year);
    let (ev, up, ca, ti, at) = monthly_buckets(&evs);
    Ok(OverviewTotals { events: ev, upcoming: up, canceled: ca, tickets: ti, attendees: at })
}

/// Fetches the monthly ticket revenue of one organizer's year and its
/// total, in integer cents.
pub fn fetch_tickets_monthly_overview(data: GetOverview, db: &Database) -> (r: Result<
    TicketsOverview,
    AppError,
>)
    requires
        db.wf(),
        scope_sums_fit(events_of(db.events@, data.organizer_id, data.year)),
    ensures
        r is Ok,
        tickets_overview_ok(events_of(db.events@, data.organizer_id, data.year), r->Ok_0),
{
    let evs = events_in_scope(db, data.organizer_id, data.year);
    let (ti, total) = revenue_buckets(&evs);
    Ok(TicketsOverview { tickets: ti, profit: total })
}

/// Fetches the monthly attendee sums of one organizer's year and their
/// total.
pub fn fetch_attendees_monthly_overview(data: GetOverview, db: &Database) -> (r: Result<
    AttendeesOverview,
    AppError,
>)
    requires
        db.wf(),
        scope_sums_fit(events_of(db.events@, data.organizer_id, data.year)),
    ensures
        r is Ok,
        attendees_overview_ok(events_of(db.events@, data.organizer_id, data.year), r->Ok_0),
{
    let evs = events_in_scope(db, data.organizer_id, data.year);
    let (_, _, _, _, at) = monthly_buckets(&evs);
    let total = total_attendees_exec(&evs);
    Ok(AttendeesOverview { attendees: at, total })
}

/// Membership of an event on one day.
pub open spec fn on_date_fn(d: Date) -> spec_fn(Event) -> bool {
    |e: Event| e.event_date == d
}

/// How many events of `s` fall on day `d`.
pub open spec fn count_on_date(s: Seq<Event>, d: Date) -> int {
    count_where(s, on_date_fn(d))
}

pub open spec fn attendees_on_date_fn(d: Date) -> spec_fn(Event) -> int {
    |e: Event|
        if e.event_date == d {
            e.attendees as int
        } else {
            0int
        }
}

/// Attendees of the events of `s` falling on day `d`.
pub open spec fn attendees_on_date(s: Seq<Event>, d: Date) -> int {
    sum_of(s, attendees_on_date_fn(d))
}

/// The days of a grouped report, in report order.
pub open spec fn days_of(r: Seq<(Date, usize, i64)>) -> Seq<Date> {
    r.map_values(|p: (Date, usize, i64)| p.0)
}

/// A day list fits a scope when it is strictly ascending and holds exactly
/// the days on which the scope's events fall: the report is sparse, with
/// no zero-filled days.
pub open spec fn daily_days_ok(evs: Seq<Event>, ds: Seq<Date>) -> bool {
    &&& forall|a: int, b: int| 0 <= a < b < ds.len() ==> ds[a].spec_lt(ds[b])
    &&& forall|t: int| 0 <= t < ds.len() ==> count_on_date(evs, #[trigger] ds[t]) > 0
    &&& forall|i: int| 0 <= i < evs.len() ==> ds.contains((#[trigger] evs[i]).event_date)
}

/// Groups a scope's events by day: one entry per day with at least one
/// event, ascending, with the day's event count and attendee sum.
pub(crate) fn daily_groups(v: Vec<Event>) -> (r: Vec<(Date, usize, i64)>)
    requires
        forall|i: int| 0 <= i < v@.len() ==> (#[trigger] v@[i]).wf(),
        total_attendees(v@) <= i64::MAX,
    ensures
        daily_days_ok(v@, days_of(r@)),
        forall|t: int|
            0 <= t < r@.len() ==> (#[trigger] r@[t]).0.wf() && r@[t].1 == count_on_date(
                v@,
                r@[t].0,
            ) && r@[t].1 > 0 && r@[t].2 == attendees_on_date(v@, r@[t].0),
{
    let ghost orig = v@;
    let sorted = sort_events_by_date(v);
    let ghost sv = sorted@;
    proof {
        lemma_multiset_pointwise(orig, sv, wf_fn());
        assert forall|k: int| 0 <= k < sv.len() implies (#[trigger] sv[k]).wf() by {
            assert(wf_fn()(sv[k]));
        }
        assert forall|k: int| 0 <= k < orig.len() implies wf_fn()(#[trigger] orig[k]) by {
            assert(orig[k].wf());
        }
        assert forall|k: int| 0 <= k < sv.len() implies 0 <= #[trigger] attendees_fn()(sv[k]) by {
            assert(sv[k].wf());
        }
        lemma_sum_of_multiset(sv, orig, attendees_fn());
    }
    let n = sorted.len();
    let mut out: Vec<(Date, usize, i64)> = Vec::new();
    let mut j: usize = 0;
    proof {
        assert(days_of(out@) =~= Seq::<Date>::empty());
    }
    while j < n
        invariant
            j <= n,
            n == sv.len(),
            sv == sorted@,
            crate::event::sorted_by_date(sv),
            sv.to_multiset() == orig.to_multiset(),
            total_attendees(sv) <= i64::MAX,
            forall|k: int| 0 <= k < sv.len() ==> (#[trigger] sv[k]).wf(),
            forall|a: int, b: int|
                0 <= a < b < days_of(out@).len() ==> days_of(out@)[a].spec_lt(days_of(out@)[b]),
            j < n ==> forall|t: int|
                0 <= t < days_of(out@).len() ==> (#[trigger] days_of(out@)[t]).spec_lt(
                    sv[j as int].event_date,
                ),
            j < n ==> forall|k: int|
                0 <= k < j ==> (#[trigger] sv[k]).event_date.spec_lt(sv[j as int].event_date),
            forall|t: int|
                0 <= t < out@.len() ==> (#[trigger] out@[t]).0.wf() && out@[t].1 == count_on_date(
                    sv,
                    out@[t].0,
                ) && out@[t].1 > 0 && out@[t].2 == attendees_on_date(sv, out@[t].0),
            forall|k: int| 0 <= k < j ==> days_of(out@).contains((#[trigger] sv[k]).event_date),
        decreases n - j,
    {
        let ghost out0 = out@;
        let d = sorted[j].event_date;
        let start = j;
        let mut acc: i64 = 0;
        proof {
            assert forall|k: int| 0 <= k < start as int implies attendees_on_date_fn(d)(
                #[trigger] sv[k],
            ) == 0 by {
                assert(sv[k].event_date.spec_lt(d));
                assert(sv[k].event_date != d);
            }
            assert forall|k: int|
                0 <= k < sv.take(start as int).len() implies attendees_on_date_fn(d)(
                #[trigger] sv.take(start as int)[k],
            ) == 0 by {
                assert(sv.take(start as int)[k] == sv[k]);
            }
            lemma_sum_of_zero(sv.take(start as int), attendees_on_date_fn(d));
        }
        while j < n && sorted[j].event_date == d
            invariant
                start <= j <= n,
                start < n,
                n == sv.len(),
                sv == sorted@,
                d == sv[start as int].event_date,
                crate::event::sorted_by_date(sv),
                total_attendees(sv) <= i64::MAX,
                forall|k: int| 0 <= k < sv.len() ==> (#[trigger] sv[k]).wf(),
                forall|k: int| start <= k < j ==> (#[trigger] sv[k]).event_date == d,
                acc == attendees_on_date(sv.take(j as int), d),
            decreases n - j,
        {
            proof {
                assert forall|k: int| 0 <= k < sv.len() implies 0 <= #[trigger] attendees_on_date_fn(
                    d,
                )(sv[k]) by {
                    assert(sv[k].wf());
                }
                assert forall|k: int| 0 <= k < sv.len() implies #[trigger] attendees_on_date_fn(d)(
                    sv[k],
                ) <= attendees_fn()(sv[k]) by {
                    assert(sv[k].wf());
                }
                lemma_monthly_sum_bound(sv, attendees_on_date_fn(d), attendees_fn(), j as int);
                lemma_sum_of_take_step(sv, attendees_on_date_fn(d), j as int);
                assert(attendees_on_date_fn(d)(sv[j as int]) == sv[j as int].attendees as int);
                assert(attendees_fn()(sv[j as int]) == sv[j as int].attendees as int);
            }
            acc = acc + sorted[j].attendees;
            j += 1;
        }
        proof {
            assert(j > start) by {
                if j == start {
                    assert(sv[start as int].event_date == d);
                }
            }
            // the run [start, j) holds exactly the events on day d
            assert forall|k: int| 0 <= k < sv.len() implies (on_date_fn(d)(#[trigger] sv[k]) <==> (
            start as int <= k < j as int)) by {
                assert(on_date_fn(d)(sv[k]) == (sv[k].event_date == d));
                if k < start as int {
                    assert(sv[k].event_date.spec_lt(d));
                } else if k >= j as int {
                    assert(j < n ==> sv[j as int].event_date != d);
                    assert(sv[start as int].event_date.spec_le(sv[j as int].event_date));
                    assert(d.spec_lt(sv[j as int].event_date));
                    assert(sv[j as int].event_date.spec_le(sv[k].event_date));
                    lemma_date_lt_le_trans(d, sv[j as int].event_date, sv[k].event_date);
                    assert(sv[k].event_date != d);
                } else {
                    assert(sv[k].event_date == d);
                }
            }
            lemma_count_where_range(sv, on_date_fn(d), start as int, j as int);
            assert forall|k: int| j as int <= k < sv.len() implies attendees_on_date_fn(d)(
                #[trigger] sv[k],
            ) == 0 by {
                assert(!(on_date_fn(d)(sv[k])));
            }
            lemma_sum_of_take_rest_zero(sv, attendees_on_date_fn(d), j as int);
        }
        out.push((d, j - start, acc));
        proof {
            assert(days_of(out@) =~= days_of(out0).push(d));
            let ds = days_of(out@);
            let ds0 = days_of(out0);
            assert forall|a: int, b: int| 0 <= a < b < ds.len() implies ds[a].spec_lt(ds[b]) by {
                if b < ds0.len() {
                    assert(ds[a] == ds0[a] && ds[b] == ds0[b]);
                } else {
                    assert(ds[b] == d);
                    assert(ds[a] == ds0[a]);
                    assert(ds0[a].spec_lt(sv[start as int].event_date));
                }
            }
            assert forall|k: int| 0 <= k < j implies ds.contains((#[trigger] sv[k]).event_date) by {
                if k < start as int {
                    assert(ds0.contains(sv[k].event_date));
                    let t = choose|t: int| 0 <= t < ds0.len() && ds0[t] == sv[k].event_date;
                    assert(ds[t] == sv[k].event_date);
                } else {
                    assert(sv[k].event_date == d);
                    assert(ds[ds.len() - 1] == d);
                }
            }
            if j < n {
                assert(d.spec_lt(sv[j as int].event_date)) by {
                    assert(sv[j as int].event_date != d);
                    assert(sv[start as int].event_date.spec_le(sv[j as int].event_date));
                }
                assert forall|t: int| 0 <= t < ds.len() implies (#[trigger] ds[t]).spec_lt(
                    sv[j as int].event_date,
                ) by {
                    if t < ds0.len() {
                        assert(ds0[t].spec_lt(d));
                        lemma_date_lt_le_trans(ds0[t], d, sv[j as int].event_date);
                    } else {
                        assert(ds[t] == d);
                    }
                }
                assert forall|k: int| 0 <= k < j implies (#[trigger] sv[k]).event_date.spec_lt(
                    sv[j as int].event_date,
                ) by {
                    if k < start as int {
                        lemma_date_lt_le_trans(sv[k].event_date, d, sv[j as int].event_date);
                    } else {
                        assert(sv[k].event_date == d);
                    }
                }
            }
        }
    }
    proof {
        // transfer the per-day values and membership back to the unsorted scope
        assert forall|t: int|
            0 <= t < out@.len() implies (#[trigger] out@[t]).0.wf() && out@[t].1 == count_on_date(
            orig,
            out@[t].0,
        ) && out@[t].1 > 0 && out@[t].2 == attendees_on_date(orig, out@[t].0) by {
            lemma_count_where_multiset(sv, orig, on_date_fn(out@[t].0));
            lemma_sum_of_multiset(sv, orig, attendees_on_date_fn(out@[t].0));
        }
        assert forall|t: int| 0 <= t < days_of(out@).len() implies count_on_date(
            orig,
            #[trigger] days_of(out@)[t],
        ) > 0 by {
            assert(days_of(out@)[t] == out@[t].0);
        }
        assert forall|i: int| 0 <= i < orig.len() implies days_of(out@).contains(
            (#[trigger] orig[i]).event_date,
        ) by {
            broadcast use vstd::seq_lib::group_to_multiset_ensures;

            assert(orig.contains(orig[i]));
            assert(sv.to_multiset().count(orig[i]) > 0);
            assert(sv.contains(orig[i]));
            let k = choose|k: int| 0 <= k < sv.len() && sv[k] == orig[i];
            assert(days_of(out@).contains(sv[k].event_date));
        }
    }
    out
}

/// Fit of a sparse daily event-count report to a scope: an ascending day
/// list holding exactly the scope's event days, each rendered as
/// `YYYY-MM-DD` beside its event count.
pub open spec fn daily_counts_report_ok(evs: Seq<Event>, ds: Seq<Date>, out: Seq<DateCount>) -> bool {
    &&& daily_days_ok(evs, ds)
    &&& out.len() == ds.len()
    &&& forall|t: int|
        0 <= t < out.len() ==> (#[trigger] out[t]).date@ == date_chars(ds[t]) && out[t].count
            == count_on_date(evs, ds[t])
}

/// Fit of a sparse daily event-count report to a scope, with rows carried
/// as [`CountByDate`].
pub open spec fn daily_counts_by_date_ok(
    evs: Seq<Event>,
    ds: Seq<Date>,
    out: Seq<CountByDate>,
) -> bool {
    &&& daily_days_ok(evs, ds)
    &&& out.len() == ds.len()
    &&& forall|t: int|
        0 <= t < out.len() ==> (#[trigger] out[t]).date@ == date_chars(ds[t]) && out[t].count
            == count_on_date(evs, ds[t])
}

/// A sparse daily event-count report (as [`CountByDate`] rows) fits the
/// scope: some ascending day list witnesses [`daily_counts_by_date_ok`].
pub open spec fn daily_events_by_date_matches(evs: Seq<Event>, out: Seq<CountByDate>) -> bool {
    exists|ds: Seq<Date>| #[trigger] daily_counts_by_date_ok(evs, ds, out)
}

/// Fit of a sparse daily attendee-sum report to a scope: an ascending day
/// list holding exactly the scope's event days, each rendered as
/// `YYYY-MM-DD` beside the attendees of that day's events.
pub open spec fn daily_attendees_report_ok(
    evs: Seq<Event>,
    ds: Seq<Date>,
    out: Seq<CountByDate>,
) -> bool {
    &&& daily_days_ok(evs, ds)
    &&& out.len() == ds.len()
    &&& forall|t: int|
        0 <= t < out.len() ==> (#[trigger] out[t]).date@ == date_chars(ds[t]) && out[t].count
            == attendees_on_date(evs, ds[t])
}

/// A sparse daily attendee-sum report fits the scope: some ascending day
/// list witnesses [`daily_attendees_report_ok`].
pub open spec fn daily_attendees_report_matches(evs: Seq<Event>, out: Seq<CountByDate>) -> bool {
    exists|ds: Seq<Date>| #[trigger] daily_attendees_report_ok(evs, ds, out)
}

/// A sparse daily event-count report fits the scope: some ascending day
/// list witnesses [`daily_counts_report_ok`].
pub open spec fn daily_events_report_matches(evs: Seq<Event>, out: Seq<DateCount>) -> bool {
    exists|ds: Seq<Date>| #[trigger] daily_counts_report_ok(evs, ds, out)
}

/// Fetches the daily event counts of one organizer's year: only days with
/// at least one event appear, ascending, with the day's event count.
pub fn fetch_events_daily_overview(data: GetOverview, db: &Database) -> (r: Result<
    EventsOverview,
    AppError,
>)
    requires
        db.wf(),
        scope_sums_fit(events_of(db.events@, data.organizer_id, data.year)),
    ensures
        r is Ok,
        daily_events_report_matches(
            events_of(db.events@, data.organizer_id, data.year),
            r->Ok_0.event_counts@,
        ),
{
    let evs = events_in_scope(db, data.organizer_id, data.year);
    let ghost scope = evs@;
    let groups = daily_groups(evs);
    let mut out: Vec<DateCount> = Vec::new();
    let n = groups.len();
    let mut t: usize = 0;
    while t < n
        invariant
            t <= n,
            n == groups@.len(),
            forall|u: int|
                0 <= u < groups@.len() ==> (#[trigger] groups@[u]).0.wf() && groups@[u].1
                    == count_on_date(scope, groups@[u].0),
            out@.len() == t,
            forall|u: int|
                0 <= u < t ==> (#[trigger] out@[u]).date@ == date_chars(groups@[u].0)
                    && out@[u].count == count_on_date(scope, groups@[u].0),
        decreases n - t,
    {
        let day = date_string(&groups[t].0);
        out.push(DateCount { date: day, count: groups[t].1 });
        t += 1;
    }
    let result = EventsOverview { event_counts: out };
    proof {
        let ds = days_of(groups@);
        assert forall|u: int|
            0 <= u < result.event_counts@.len() implies (#[trigger] result.event_counts@[u]).date@
            == date_chars(ds[u]) && result.event_counts@[u].count == count_on_date(
            scope,
            ds[u],
        ) by {
            assert(ds[u] == groups@[u].0);
            assert(result.event_counts@[u] == out@[u]);
        }
        assert(scope == events_of(db.events@, data.organizer_id, data.year));
        assert(daily_counts_report_ok(
            events_of(db.events@, data.organizer_id, data.year),
            ds,
            result.event_counts@,
        ));
        assert(daily_events_report_matches(
            events_of(db.events@, data.organizer_id, data.year),
            result.event_counts@,
        ));
    }
    Ok(result)
}

/// Handler core of the monthly overview totals route: authenticates the session and reports
/// over the authenticated organizer's events of the requested year.
pub fn get_overview_monthly_totals(token: Option<&String>, query: OverviewQuery, db: &Database) -> (r: Result<
    OverviewTotals,
    AppError,
>)
    requires
        db.wf(),
        match session_of(*db, token) {
            Some(x) => scope_sums_fit(events_of(db.events@, x.user_id, query.year)),
            None => true,
        },
    ensures
        session_of(*db, token) is None ==> r == Err::<OverviewTotals, AppError>(AppError::Unauthenticated),
        session_of(*db, token) matches Some(x) ==> r matches Ok(v) && overview_totals_ok(
            events_of(db.events@, x.user_id, query.year),
            v,
        ),
{
    let session = match validate_session(token, db) {
        Ok(x) => x,
        Err(_) => {
            return Err(AppError::Unauthenticated);
        },
    };
    fetch_overview_monthly_totals(
        GetOverview { organizer_id: session.user_id, year: query.year },
        db,
    )
}

/// Handler core of the monthly ticket revenue route: authenticates the session and reports
/// over the authenticated organizer's events of the requested year.
pub fn get_tickets_monthly_overview(token: Option<&String>, query: OverviewQuery, db: &Database) -> (r: Result<
    TicketsOverview,
    AppError,
>)
    requires
        db.wf(),
        match session_of(*db, token) {
            Some(x) => scope_sums_fit(events_of(db.events@, x.user_id, query.year)),
            None => true,
        },
    ensures
        session_of(*db, token) is None ==> r == Err::<TicketsOverview, AppError>(AppError::Unauthenticated),
        session_of(*db, token) matches Some(x) ==> r matches Ok(v) && tickets_overview_ok(
            events_of(db.events@, x.user_id, query.year),
            v,
        ),
{
    let session = match validate_session(token, db) {
        Ok(x) => x,
        Err(_) => {
            return Err(AppError::Unauthenticated);
        },
    };
    fetch_tickets_monthly_overview(
        GetOverview { organizer_id: session.user_id, year: query.year },
        db,
    )
}

/// Handler core of the monthly attendee totals route: authenticates the session and reports
/// over the authenticated organizer's events of the requested year.
pub fn get_attendees_monthly_overview(token: Option<&String>, query: OverviewQuery, db: &Database) -> (r: Result<
    AttendeesOverview,
    AppError,
>)
    requires
        db.wf(),
        match session_of(*db, token) {
            Some(x) => scope_sums_fit(events_of(db.events@, x.user_id, query.year)),
            None => true,
        },
    ensures
        session_of(*db, token) is None ==> r == Err::<AttendeesOverview, AppError>(AppError::Unauthenticated),
        session_of(*db, token) matches Some(x) ==> r matches Ok(v) && attendees_overview_ok(
            events_of(db.events@, x.user_id, query.year),
            v,
        ),
{
    let session = match validate_session(token, db) {
        Ok(x) => x,
        Err(_) => {
            return Err(AppError::Unauthenticated);
        },
    };
    fetch_attendees_monthly_overview(
        GetOverview { organizer_id: session.user_id, year: query.year },
        db,
    )
}

/// Handler core of the daily event-count route: authenticates the session
/// and reports over the authenticated organizer's events of the requested
/// year.
pub fn get_events_daily_overview(token: Option<&String>, query: OverviewQuery, db: &Database) -> (r:
    Result<EventsOverview, AppError>)
    requires
        db.wf(),
        match session_of(*db, token) {
            Some(x) => scope_sums_fit(events_of(db.events@, x.user_id, query.year)),
            None => true,
        },
    ensures
        session_of(*db, token) is None ==> r == Err::<EventsOverview, AppError>(
            AppError::Unauthenticated,
        ),
        session_of(*db, token) matches Some(x) ==> r matches Ok(v)
            && daily_events_report_matches(
            events_of(db.events@, x.user_id, query.year),
            v.event_counts@,
        ),
{
    let session = match validate_session(token, db) {
        Ok(x) => x,
        Err(_) => {
            return Err(AppError::Unauthenticated);
        },
    };
    fetch_events_daily_overview(
        GetOverview { organizer_id: session.user_id, year: query.year },
        db,
    )
}

} // verus!
