//! FAQs: question/answer pairs attached to one event.

use vstd::prelude::*;

use crate::AppError;
use crate::store::Database;
use crate::sums::{filter_where, lemma_filter_where_take_step, lemma_take_all};

verus! {

pub struct Faq {
    pub id: i64,
    pub event_id: i64,
    pub question: String,
    pub answer: Option<String>,
}

impl Faq {
    pub fn clone_faq(&self) -> (r: Faq)
        ensures
            r == *self,
    {
        Faq {
            id: self.id,
            event_id: self.event_id,
            question: self.question.clone(),
            answer: crate::event::clone_opt_string(&self.answer),
        }
    }
}

/// Lookup key: the owning event.
pub struct GetFaqData {
    pub event_id: i64,
}

/// Ownership key of faq rows: the parent event.
pub open spec fn faq_of_event_fn(event_id: i64) -> spec_fn(Faq) -> bool {
    |x: Faq| x.event_id == event_id
}

/// The faq rows of `s` owned by the given event, in table order.
pub open spec fn faqs_of_event(s: Seq<Faq>, event_id: i64) -> Seq<Faq> {
    filter_where(s, faq_of_event_fn(event_id))
}

/// Retrieves the faq rows of one event.
pub fn fetch_faqs(data: GetFaqData, db: &Database) -> (r: Result<Vec<Faq>, AppError>)
    requires
        db.wf(),
    ensures
        r is Ok,
        r->Ok_0@ == faqs_of_event(db.faqs@, data.event_id),
{
    let ghost s = db.faqs@;
    let mut out: Vec<Faq> = Vec::new();
    let n = db.faqs.len();
    proof {
        assert(s.take(0) =~= Seq::<Faq>::empty());
    }
    let mut i: usize = 0;
    while i < n
        invariant
            i <= n,
            n == s.len(),
            s == db.faqs@,
            out@ == faqs_of_event(s.take(i as int), data.event_id),
        decreases n - i,
    {
        proof {
            lemma_filter_where_take_step(s, faq_of_event_fn(data.event_id), i as int);
            assert(faq_of_event_fn(data.event_id)(s[i as int]) == (s[i as int].event_id
                == data.event_id));
        }
        let x = &db.faqs[i];
        if x.event_id == data.event_id {
            out.push(x.clone_faq());
        }
        i += 1;
    }
    proof {
        lemma_take_all(s);
    }
    Ok(out)
}

/// The stored row of a created faq: the payload's fields under the
/// store-assigned identifier.
pub open spec fn spec_created_faq(item: Faq, id: int) -> Faq {
    Faq { id: id as i64, ..item }
}

/// Inserts the given faq rows one by one, assigning each the next
/// identifier, and returns the stored rows. Insertion is item by item,
/// with no surrounding transaction.
pub fn create_faqs(data: Vec<Faq>, db: &mut Database) -> (r: Result<Vec<Faq>, AppError>)
    requires
        old(db).wf(),
        old(db).next_faq_id + data@.len() <= i64::MAX,
    ensures
        final(db).wf(),
        r is Ok,
        r->Ok_0@.len() == data@.len(),
        forall|j: int|
            0 <= j < data@.len() ==> #[trigger] r->Ok_0@[j] == spec_created_faq(
                data@[j],
                old(db).next_faq_id + j,
            ),
        final(db).faqs@ == old(db).faqs@ + r->Ok_0@,
        final(db).next_faq_id == old(db).next_faq_id + data@.len(),
        *final(db) == (Database {
            faqs: final(db).faqs,
            next_faq_id: final(db).next_faq_id,
            ..*old(db)
        }),
{
    let ghost orig = old(db).faqs@;
    let ghost items = data@;
    let mut out: Vec<Faq> = Vec::new();
    let n = data.len();
    proof {
        assert(orig + out@ =~= orig);
    }
    let mut j: usize = 0;
    while j < n
        invariant
            j <= n,
            n == items.len(),
            items == data@,
            old(db).wf(),
            old(db).next_faq_id + items.len() <= i64::MAX,
            orig == old(db).faqs@,
            db.wf(),
            out@.len() == j,
            db.next_faq_id == old(db).next_faq_id + j,
            db.faqs@ == orig + out@,
            forall|t: int|
                0 <= t < j ==> #[trigger] out@[t] == spec_created_faq(
                    items[t],
                    old(db).next_faq_id + t,
                ),
            *db == (Database { faqs: db.faqs, next_faq_id: db.next_faq_id, ..*old(db) }),
        decreases n - j,
    {
        let id = db.next_faq_id;
        let mut row = data[j].clone_faq();
        row.id = id;
        let stored = row.clone_faq();
        let ghost before = db.faqs@;
        db.faqs.push(row);
        db.next_faq_id = id + 1;
        out.push(stored);
        proof {
            assert(db.faqs@ =~= orig + out@);
            assert forall|k: int| 0 <= k < db.faqs@.len() implies 1 <= (
            #[trigger] db.faqs@[k]).id < db.next_faq_id by {
                if k < before.len() {
                    assert(db.faqs@[k] == before[k]);
                }
            }
            assert forall|a: int, b: int|
                0 <= a < b < db.faqs@.len() implies db.faqs@[a].id != db.faqs@[b].id by {
                assert(db.faqs@[a] == before[a]);
                if b < before.len() {
                    assert(db.faqs@[b] == before[b]);
                } else {
                    assert(1 <= before[a].id < id);
                }
            }
        }
        j += 1;
    }
    proof {
        assert(items.len() == n);
    }
    Ok(out)
}

/// Full-field replace of one faq row: every payload field is taken
/// over; the identifier and the owning event stay with the stored row.
pub open spec fn spec_apply_faq_update(s: Seq<Faq>, u: Faq) -> Seq<Faq> {
    Seq::new(
        s.len(),
        |i: int|
            if s[i].id == u.id {
                Faq { id: s[i].id, event_id: s[i].event_id, ..u }
            } else {
                s[i]
            },
    )
}

/// The given updates applied in order, each by identifier.
pub open spec fn spec_apply_faq_updates(s: Seq<Faq>, us: Seq<Faq>) -> Seq<Faq>
    decreases us.len(),
{
    if us.len() == 0 {
        s
    } else {
        spec_apply_faq_update(spec_apply_faq_updates(s, us.drop_last()), us.last())
    }
}

fn update_one_faq(u: &Faq, db: &mut Database)
    requires
        old(db).wf(),
    ensures
        final(db).wf(),
        final(db).faqs@ == spec_apply_faq_update(old(db).faqs@, *u),
        *final(db) == (Database { faqs: final(db).faqs, ..*old(db) }),
{
    let ghost orig = old(db).faqs@;
    let n = db.faqs.len();
    let mut i: usize = 0;
    while i < n
        invariant
            i <= n,
            n == orig.len(),
            db.faqs@.len() == orig.len(),
            orig == old(db).faqs@,
            forall|k: int|
                0 <= k < i ==> #[trigger] db.faqs@[k] == (if orig[k].id == u.id {
                    Faq { id: orig[k].id, event_id: orig[k].event_id, ..*u }
                } else {
                    orig[k]
                }),
            forall|k: int| i <= k < orig.len() ==> #[trigger] db.faqs@[k] == orig[k],
            *db == (Database { faqs: db.faqs, ..*old(db) }),
        decreases n - i,
    {
        if db.faqs[i].id == u.id {
            let id = db.faqs[i].id;
            let event_id = db.faqs[i].event_id;
            let mut row = u.clone_faq();
            row.id = id;
            row.event_id = event_id;
            db.faqs.set(i, row);
        }
        i += 1;
    }
    proof {
        assert(db.faqs@ =~= spec_apply_faq_update(orig, *u));
        assert forall|k: int| 0 <= k < db.faqs@.len() implies 1 <= (
        #[trigger] db.faqs@[k]).id < db.next_faq_id && db.faqs@[k].id == orig[k].id by {
            assert(1 <= orig[k].id < old(db).next_faq_id);
        }
    }
}

/// Applies the given faq updates in order, each a full-field replace by
/// identifier; rows with unknown identifiers are left alone. The updates
/// run item by item, with no surrounding transaction.
pub fn update_faqs(data: Vec<Faq>, db: &mut Database) -> (r: Result<(), AppError>)
    requires
        old(db).wf(),
    ensures
        final(db).wf(),
        r is Ok,
        final(db).faqs@ == spec_apply_faq_updates(old(db).faqs@, data@),
        *final(db) == (Database { faqs: final(db).faqs, ..*old(db) }),
{
    let ghost orig = old(db).faqs@;
    let ghost items = data@;
    let n = data.len();
    let mut j: usize = 0;
    proof {
        assert(items.take(0) =~= Seq::<Faq>::empty());
    }
    while j < n
        invariant
            j <= n,
            n == items.len(),
            items == data@,
            orig == old(db).faqs@,
            db.wf(),
            db.faqs@ == spec_apply_faq_updates(orig, items.take(j as int)),
            *db == (Database { faqs: db.faqs, ..*old(db) }),
        decreases n - j,
    {
        update_one_faq(&data[j], db);
        proof {
            assert(items.take(j as int + 1).drop_last() =~= items.take(j as int));
            assert(items.take(j as int + 1).last() == items[j as int]);
        }
        j += 1;
    }
    proof {
        assert(items.take(n as int) =~= items);
    }
    Ok(())
}

} // verus!
