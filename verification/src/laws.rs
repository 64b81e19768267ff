//! Library-wide laws: properties that relate several accessors or reports,
//! stated and proved over the spec functions their contracts use.

use vstd::prelude::*;

use crate::analytics::{count_in_month, events_of, in_month_fn, lemma_events_of_members, month_of};
use crate::auth::{
    find_session, keep_session_fn, session_token_fn, sessions_without, Session,
};
use crate::event::{event_key_fn, find_event, Event, EventData};
use crate::store::Database;
use crate::attendee::{no_show_in_month_fn, no_shows_in_month};
use crate::sums::{
    count_where, lemma_count_where_zero, lemma_filter_where_sat, lemma_find_first_at,
    lemma_find_first_none, lemma_sum_of_zero,
};

verus! {

/// The sum of a sequence of machine integers, as an unbounded integer.
pub open spec fn sum_i64(s: Seq<i64>) -> int
    decreases s.len(),
{
    if s.len() == 0 {
        0
    } else {
        sum_i64(s.drop_last()) + s.last()
    }
}

/// The sum of the first `k` monthly event-count buckets of `s`.
pub open spec fn sum_counts_upto(s: Seq<Event>, k: int) -> int
    decreases k,
{
    if k <= 0 {
        0
    } else {
        sum_counts_upto(s, k - 1) + count_in_month(s, k - 1)
    }
}

proof fn lemma_sum_counts_upto_empty(k: int)
    ensures
        sum_counts_upto(Seq::<Event>::empty(), k) == 0,
    decreases k,
{
    if k > 0 {
        lemma_sum_counts_upto_empty(k - 1);
    }
}

proof fn lemma_sum_counts_upto_step(s: Seq<Event>, k: int)
    requires
        s.len() > 0,
    ensures
        sum_counts_upto(s, k) == sum_counts_upto(s.drop_last(), k) + if 0 <= month_of(s.last())
            < k {
            1int
        } else {
            0int
        },
    decreases k,
{
    if k > 0 {
        lemma_sum_counts_upto_step(s, k - 1);
        assert(count_in_month(s, k - 1) == count_where(s.drop_last(), in_month_fn(k - 1)) + if (
        in_month_fn(k - 1))(s.last()) {
            1int
        } else {
            0int
        });
        assert(in_month_fn(k - 1)(s.last()) == (month_of(s.last()) == k - 1));
    }
}

/// Each well-formed event falls in exactly one of the twelve month
/// buckets, so the bucket counts sum to the number of events.
pub proof fn lemma_month_buckets_partition(s: Seq<Event>)
    requires
        forall|i: int| 0 <= i < s.len() ==> (#[trigger] s[i]).wf(),
    ensures
        sum_counts_upto(s, 12) == s.len(),
    decreases s.len(),
{
    if s.len() == 0 {
        assert(s =~= Seq::<Event>::empty());
        lemma_sum_counts_upto_empty(12);
    } else {
        let t = s.drop_last();
        assert forall|i: int| 0 <= i < t.len() implies (#[trigger] t[i]).wf() by {
            assert(t[i] == s[i]);
        }
        lemma_month_buckets_partition(t);
        lemma_sum_counts_upto_step(s, 12);
        assert(s[s.len() - 1].wf());
        assert(0 <= month_of(s.last()) < 12);
    }
}

proof fn lemma_sum_i64_matches_buckets(counts: Seq<i64>, s: Seq<Event>, k: int)
    requires
        0 <= k <= counts.len(),
        forall|m: int| 0 <= m < k ==> counts[m] == count_in_month(s, m),
    ensures
        sum_i64(counts.take(k)) == sum_counts_upto(s, k),
    decreases k,
{
    if k > 0 {
        lemma_sum_i64_matches_buckets(counts, s, k - 1);
        assert(counts.take(k).drop_last() =~= counts.take(k - 1));
        assert(counts.take(k).last() == counts[k - 1]);
    }
}

/// Law: the twelve monthly event counters of a year's report partition the
/// scope — their sum is exactly the number of the organizer's events with
/// an event date in that year. The hypotheses are what the monthly-totals
/// reports ensure of their `events` vector.
pub proof fn lemma_monthly_totals_partition(
    table: Seq<Event>,
    org: i64,
    year: i64,
    counts: Seq<i64>,
)
    requires
        forall|i: int| 0 <= i < table.len() ==> (#[trigger] table[i]).wf(),
        counts.len() == 12,
        forall|m: int| 0 <= m < 12 ==> counts[m] == count_in_month(events_of(table, org, year), m),
    ensures
        sum_i64(counts) == events_of(table, org, year).len(),
{
    let evs = events_of(table, org, year);
    lemma_events_of_members(table, org, year);
    lemma_month_buckets_partition(evs);
    lemma_sum_i64_matches_buckets(counts, evs, 12);
    assert(counts.take(12) =~= counts);
}

/// Law: creating an event and fetching it back under its identifier and
/// its owner returns exactly the created row, with every field as it was
/// stored — the payload fields verbatim and both stamps server-set. The
/// hypotheses are what `create_event` ensures: the new row is built from
/// the payload under the store's next identifier, which is fresh.
pub proof fn lemma_event_round_trip(
    db0: Database,
    db1: Database,
    data: EventData,
    now: String,
    e: Event,
)
    requires
        db0.wf(),
        e == data.spec_into_event(db0.next_event_id, now),
        db1.events@ == db0.events@.push(e),
    ensures
        find_event(db1.events@, e.id, e.organizer_id) == Some(e),
{
    let s = db1.events@;
    let n = db0.events@.len() as int;
    let p = event_key_fn(e.id, e.organizer_id);
    assert forall|k: int| 0 <= k < n implies !p(s[k]) by {
        assert(s[k] == db0.events@[k]);
        assert(1 <= db0.events@[k].id < db0.next_event_id);
        assert(p(s[k]) == (s[k].id == e.id && s[k].organizer_id == e.organizer_id));
    }
    assert(s[n] == e);
    assert(p(s[n]));
    lemma_find_first_at(s, p, n);
}

/// Law: after a session binds a fresh token to a user, looking the token
/// up returns that session; after the token's sessions are deleted, the
/// same lookup misses.
pub proof fn lemma_session_lifecycle(s: Seq<Session>, x: Session)
    requires
        forall|i: int| 0 <= i < s.len() ==> (#[trigger] s[i]).token@ != x.token@,
    ensures
        find_session(s.push(x), x.token@) == Some(x),
        find_session(sessions_without(s.push(x), x.token@), x.token@) is None,
{
    let s1 = s.push(x);
    let p = session_token_fn(x.token@);
    assert forall|k: int| 0 <= k < s.len() implies !p(s1[k]) by {
        assert(s1[k] == s[k]);
        assert(p(s1[k]) == (s1[k].token@ == x.token@));
    }
    assert(s1[s.len() as int] == x);
    assert(p(s1[s.len() as int]));
    lemma_find_first_at(s1, p, s.len() as int);
    let kept = sessions_without(s1, x.token@);
    lemma_filter_where_sat(s1, keep_session_fn(x.token@));
    assert forall|j: int| 0 <= j < kept.len() implies !p(#[trigger] kept[j]) by {
        assert(keep_session_fn(x.token@)(kept[j]));
    }
    lemma_find_first_none(kept, p);
}

/// Law: an event owned by one organizer is invisible to every other: the
/// scoped fetch misses even when the identifier is right, because the
/// identifier is unique and the owner does not match.
pub proof fn lemma_cross_tenant_isolation(s: Seq<Event>, i: int, other: i64)
    requires
        0 <= i < s.len(),
        forall|a: int, b: int| 0 <= a < b < s.len() ==> s[a].id != s[b].id,
        s[i].organizer_id != other,
    ensures
        find_event(s, s[i].id, other) is None,
{
    let p = event_key_fn(s[i].id, other);
    assert forall|k: int| 0 <= k < s.len() implies !p(s[k]) by {
        assert(p(s[k]) == (s[k].id == s[i].id && s[k].organizer_id == other));
        if k != i {
            if k < i {
                assert(s[k].id != s[i].id);
            } else {
                assert(s[i].id != s[k].id);
            }
        }
    }
    lemma_find_first_none(s, p);
}

/// Law: no-shows only come from events, so a month whose event count is
/// zero reports zero no-shows — the no-show rate's denominator is never
/// zero on a month whose rate is computed at all.
pub proof fn lemma_no_shows_need_events(s: Seq<Event>, m: int)
    requires
        count_in_month(s, m) == 0,
    ensures
        no_shows_in_month(s, m) == 0,
{
    lemma_count_where_zero(s, in_month_fn(m));
    assert forall|k: int| 0 <= k < s.len() implies no_show_in_month_fn(m)(#[trigger] s[k])
        == 0 by {
        assert(!(in_month_fn(m)(s[k])));
        assert(month_of(s[k]) != m);
    }
    lemma_sum_of_zero(s, no_show_in_month_fn(m));
}

} // verus!
