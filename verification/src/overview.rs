//! Overview analytics: the monthly totals report over one organizer's year.

use vstd::prelude::*;

use crate::auth::{session_of, validate_session};
use crate::AppError;
use crate::analytics::{
    attendees_in_month, count_in_month, count_status_in_month, events_in_scope, events_of,
    monthly_buckets, scope_sums_fit, tickets_in_month,
};
use crate::event::EventStatus;
use crate::store::Database;

verus! {

/// Twelve-slot monthly totals: all events, those still upcoming, those
/// canceled, tickets sold and attendees, bucketed by the month of
/// `event_date`.
pub struct MonthlyTotals {
    pub events: Vec<i64>,
    pub upcoming: Vec<i64>,
    pub canceled: Vec<i64>,
    pub tickets: Vec<i64>,
    pub attendees: Vec<i64>,
}

/// Query parameter: the year a report covers.
pub struct YearQuery {
    pub year: i64,
}

/// Scope of an analytics request: one organizer's events of one year.
pub struct GetOverview {
    pub year: i64,
    pub organizer_id: i64,
}

/// A day (as `YYYY-MM-DD` text) with an associated count.
pub struct CountByDate {
    pub date: String,
    pub count: usize,
}

/// Fit of a monthly totals report to a scope: all five vectors have one
/// slot per month, holding the scope's event count, upcoming and canceled
/// counts, ticket sum and attendee sum of that month.
pub open spec fn monthly_totals_ok(evs: Seq<crate::event::Event>, t: MonthlyTotals) -> bool {
    &&& t.events@.len() == 12 && t.upcoming@.len() == 12 && t.canceled@.len() == 12
        && t.tickets@.len() == 12 && t.attendees@.len() == 12
    &&& forall|m: int| 0 <= m < 12 ==> #[trigger] t.events@[m] == count_in_month(evs, m)
    &&& forall|m: int|
        0 <= m < 12 ==> #[trigger] t.upcoming@[m] == count_status_in_month(
            evs,
            EventStatus::Upcoming,
            m,
        )
    &&& forall|m: int|
        0 <= m < 12 ==> #[trigger] t.canceled@[m] == count_status_in_month(
            evs,
            EventStatus::Canceled,
            m,
        )
    &&& forall|m: int| 0 <= m < 12 ==> #[trigger] t.tickets@[m] == tickets_in_month(evs, m)
    &&& forall|m: int| 0 <= m < 12 ==> #[trigger] t.attendees@[m] == attendees_in_month(evs, m)
}

/// Fetches the monthly totals of one organizer's year: per month, all
/// events, the upcoming ones, the canceled ones, tickets sold and
/// attendees.
pub fn fetch_monthly_totals(data: GetOverview, db: &Database) -> (r: Result<
    MonthlyTotals,
    AppError,
>)
    requires
        db.wf(),
        scope_sums_fit(events_of(db.events@, data.organizer_id, data.year)),
    ensures
        r is Ok,
        monthly_totals_ok(events_of(db.events@, data.organizer_id, data.year), r->Ok_0),
{
    let evs = events_in_scope(db, data.organizer_id, data.year);
    let (ev, up, ca, ti, at) = monthly_buckets(&evs);
    Ok(MonthlyTotals { events: ev, upcoming: up, canceled: ca, tickets: ti, attendees: at })
}

/// Handler core of the monthly totals route: authenticates the session and
/// reports over the authenticated organizer's events of the requested
/// year.
pub fn get_monthly_totals(token: Option<&String>, query: YearQuery, db: &Database) -> (r: Result<
    MonthlyTotals,
    AppError,
>)
    requires
        db.wf(),
        match session_of(*db, token) {
            Some(x) => scope_sums_fit(events_of(db.events@, x.user_id, query.year)),
            None => true,
        },
    ensures
        session_of(*db, token) is None ==> r == Err::<MonthlyTotals, AppError>(
            AppError::Unauthenticated,
        ),
        session_of(*db, token) matches Some(x) ==> r matches Ok(v) && monthly_totals_ok(
            events_of(db.events@, x.user_id, query.year),
            v,
        ),
{
    let session = match validate_session(token, db) {
        Ok(x) => x,
        Err(_) => {
            return Err(AppError::Unauthenticated);
        },
    };
    fetch_monthly_totals(GetOverview { organizer_id: session.user_id, year: query.year }, db)
}

} // verus!
