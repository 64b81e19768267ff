//! Attachments: named links attached to one event.

use vstd::prelude::*;

use crate::AppError;
use crate::store::Database;
use crate::sums::{filter_where, lemma_filter_where_take_step, lemma_take_all};

verus! {

pub struct Attachment {
    pub id: i64,
    pub event_id: i64,
    pub name: String,
    pub url: String,
}

impl Attachment {
    pub fn clone_attachment(&self) -> (r: Attachment)
        ensures
            r == *self,
    {
        Attachment {
            id: self.id,
            event_id: self.event_id,
            name: self.name.clone(),
            url: self.url.clone(),
        }
    }
}

/// Lookup key: the owning event.
pub struct GetAttachmentData {
    pub event_id: i64,
}

/// Ownership key of attachment rows: the parent event.
pub open spec fn attachment_of_event_fn(event_id: i64) -> spec_fn(Attachment) -> bool {
    |x: Attachment| x.event_id == event_id
}

/// The attachment rows of `s` owned by the given event, in table order.
pub open spec fn attachments_of_event(s: Seq<Attachment>, event_id: i64) -> Seq<Attachment> {
    filter_where(s, attachment_of_event_fn(event_id))
}

/// Retrieves the attachment rows of one event.
pub fn fetch_attachments(data: GetAttachmentData, db: &Database) -> (r: Result<Vec<Attachment>, AppError>)
    requires
        db.wf(),
    ensures
        r is Ok,
        r->Ok_0@ == attachments_of_event(db.attachments@, data.event_id),
{
    let ghost s = db.attachments@;
    let mut out: Vec<Attachment> = Vec::new();
    let n = db.attachments.len();
    proof {
        assert(s.take(0) =~= Seq::<Attachment>::empty());
    }
    let mut i: usize = 0;
    while i < n
        invariant
            i <= n,
            n == s.len(),
            s == db.attachments@,
            out@ == attachments_of_event(s.take(i as int), data.event_id),
        decreases n - i,
    {
        proof {
            lemma_filter_where_take_step(s, attachment_of_event_fn(data.event_id), i as int);
            assert(attachment_of_event_fn(data.event_id)(s[i as int]) == (s[i as int].event_id
                == data.event_id));
        }
        let x = &db.attachments[i];
        if x.event_id == data.event_id {
            out.push(x.clone_attachment());
        }
        i += 1;
    }
    proof {
        lemma_take_all(s);
    }
    Ok(out)
}

/// The stored row of a created attachment: the payload's fields under the
/// store-assigned identifier.
pub open spec fn spec_created_attachment(item: Attachment, id: int) -> Attachment {
    Attachment { id: id as i64, ..item }
}

/// Inserts the given attachment rows one by one, assigning each the next
/// identifier, and returns the stored rows. Insertion is item by item,
/// with no surrounding transaction.
pub fn create_attachments(data: Vec<Attachment>, db: &mut Database) -> (r: Result<Vec<Attachment>, AppError>)
    requires
        old(db).wf(),
        old(db).next_attachment_id + data@.len() <= i64::MAX,
    ensures
        final(db).wf(),
        r is Ok,
        r->Ok_0@.len() == data@.len(),
        forall|j: int|
            0 <= j < data@.len() ==> #[trigger] r->Ok_0@[j] == spec_created_attachment(
                data@[j],
                old(db).next_attachment_id + j,
            ),
        final(db).attachments@ == old(db).attachments@ + r->Ok_0@,
        final(db).next_attachment_id == old(db).next_attachment_id + data@.len(),
        *final(db) == (Database {
            attachments: final(db).attachments,
            next_attachment_id: final(db).next_attachment_id,
            ..*old(db)
        }),
{
    let ghost orig = old(db).attachments@;
    let ghost items = data@;
    let mut out: Vec<Attachment> = Vec::new();
    let n = data.len();
    proof {
        assert(orig + out@ =~= orig);
    }
    let mut j: usize = 0;
    while j < n
        invariant
            j <= n,
            n == items.len(),
            items == data@,
            old(db).wf(),
            old(db).next_attachment_id + items.len() <= i64::MAX,
            orig == old(db).attachments@,
            db.wf(),
            out@.len() == j,
            db.next_attachment_id == old(db).next_attachment_id + j,
            db.attachments@ == orig + out@,
            forall|t: int|
                0 <= t < j ==> #[trigger] out@[t] == spec_created_attachment(
                    items[t],
                    old(db).next_attachment_id + t,
                ),
            *db == (Database { attachments: db.attachments, next_attachment_id: db.next_attachment_id, ..*old(db) }),
        decreases n - j,
    {
        let id = db.next_attachment_id;
        let mut row = data[j].clone_attachment();
        row.id = id;
        let stored = row.clone_attachment();
        let ghost before = db.attachments@;
        db.attachments.push(row);
        db.next_attachment_id = id + 1;
        out.push(stored);
        proof {
            assert(db.attachments@ =~= orig + out@);
            assert forall|k: int| 0 <= k < db.attachments@.len() implies 1 <= (
            #[trigger] db.attachments@[k]).id < db.next_attachment_id by {
                if k < before.len() {
                    assert(db.attachments@[k] == before[k]);
                }
            }
            assert forall|a: int, b: int|
                0 <= a < b < db.attachments@.len() implies db.attachments@[a].id != db.attachments@[b].id by {
                assert(db.attachments@[a] == before[a]);
                if b < before.len() {
                    assert(db.attachments@[b] == before[b]);
                } else {
                    assert(1 <= before[a].id < id);
                }
            }
        }
        j += 1;
    }
    proof {
        assert(items.len() == n);
    }
    Ok(out)
}

/// Full-field replace of one attachment row: every payload field is taken
/// over; the identifier and the owning event stay with the stored row.
pub open spec fn spec_apply_attachment_update(s: Seq<Attachment>, u: Attachment) -> Seq<Attachment> {
    Seq::new(
        s.len(),
        |i: int|
            if s[i].id == u.id {
                Attachment { id: s[i].id, event_id: s[i].event_id, ..u }
            } else {
                s[i]
            },
    )
}

/// The given updates applied in order, each by identifier.
pub open spec fn spec_apply_attachment_updates(s: Seq<Attachment>, us: Seq<Attachment>) -> Seq<Attachment>
    decreases us.len(),
{
    if us.len() == 0 {
        s
    } else {
        spec_apply_attachment_update(spec_apply_attachment_updates(s, us.drop_last()), us.last())
    }
}

fn update_one_attachment(u: &Attachment, db: &mut Database)
    requires
        old(db).wf(),
    ensures
        final(db).wf(),
        final(db).attachments@ == spec_apply_attachment_update(old(db).attachments@, *u),
        *final(db) == (Database { attachments: final(db).attachments, ..*old(db) }),
{
    let ghost orig = old(db).attachments@;
    let n = db.attachments.len();
    let mut i: usize = 0;
    while i < n
        invariant
            i <= n,
            n == orig.len(),
            db.attachments@.len() == orig.len(),
            orig == old(db).attachments@,
            forall|k: int|
                0 <= k < i ==> #[trigger] db.attachments@[k] == (if orig[k].id == u.id {
                    Attachment { id: orig[k].id, event_id: orig[k].event_id, ..*u }
                } else {
                    orig[k]
                }),
            forall|k: int| i <= k < orig.len() ==> #[trigger] db.attachments@[k] == orig[k],
            *db == (Database { attachments: db.attachments, ..*old(db) }),
        decreases n - i,
    {
        if db.attachments[i].id == u.id {
            let id = db.attachments[i].id;
            let event_id = db.attachments[i].event_id;
            let mut row = u.clone_attachment();
            row.id = id;
            row.event_id = event_id;
            db.attachments.set(i, row);
        }
        i += 1;
    }
    proof {
        assert(db.attachments@ =~= spec_apply_attachment_update(orig, *u));
        assert forall|k: int| 0 <= k < db.attachments@.len() implies 1 <= (
        #[trigger] db.attachments@[k]).id < db.next_attachment_id && db.attachments@[k].id == orig[k].id by {
            assert(1 <= orig[k].id < old(db).next_attachment_id);
        }
    }
}

/// Applies the given attachment updates in order, each a full-field replace by
/// identifier; rows with unknown identifiers are left alone. The updates
/// run item by item, with no surrounding transaction.
pub fn update_attachments(data: Vec<Attachment>, db: &mut Database) -> (r: Result<(), AppError>)
    requires
        old(db).wf(),
    ensures
        final(db).wf(),
        r is Ok,
        final(db).attachments@ == spec_apply_attachment_updates(old(db).attachments@, data@),
        *final(db) == (Database { attachments: final(db).attachments, ..*old(db) }),
{
    let ghost orig = old(db).attachments@;
    let ghost items = data@;
    let n = data.len();
    let mut j: usize = 0;
    proof {
        assert(items.take(0) =~= Seq::<Attachment>::empty());
    }
    while j < n
        invariant
            j <= n,
            n == items.len(),
            items == data@,
            orig == old(db).attachments@,
            db.wf(),
            db.attachments@ == spec_apply_attachment_updates(orig, items.take(j as int)),
            *db == (Database { attachments: db.attachments, ..*old(db) }),
        decreases n - j,
    {
        update_one_attachment(&data[j], db);
        proof {
            assert(items.take(j as int + 1).drop_last() =~= items.take(j as int));
            assert(items.take(j as int + 1).last() == items[j as int]);
        }
        j += 1;
    }
    proof {
        assert(items.take(n as int) =~= items);
    }
    Ok(())
}

} // verus!
