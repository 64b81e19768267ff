//! Speakers: presenters attached to one event.

use vstd::prelude::*;

use crate::AppError;
use crate::store::Database;
use crate::sums::{filter_where, lemma_filter_where_take_step, lemma_take_all};

verus! {

pub struct Speaker {
    pub id: i64,
    pub event_id: i64,
    pub name: String,
    pub bio: Option<String>,
    pub photo: Option<String>,
}

impl Speaker {
    pub fn clone_speaker(&self) -> (r: Speaker)
        ensures
            r == *self,
    {
        Speaker {
            id: self.id,
            event_id: self.event_id,
            name: self.name.clone(),
            bio: crate::event::clone_opt_string(&self.bio),
            photo: crate::event::clone_opt_string(&self.photo),
        }
    }
}

/// Lookup key: the owning event.
pub struct GetSpeakerData {
    pub event_id: i64,
}

/// Ownership key of speaker rows: the parent event.
pub open spec fn speaker_of_event_fn(event_id: i64) -> spec_fn(Speaker) -> bool {
    |x: Speaker| x.event_id == event_id
}

/// The speaker rows of `s` owned by the given event, in table order.
pub open spec fn speakers_of_event(s: Seq<Speaker>, event_id: i64) -> Seq<Speaker> {
    filter_where(s, speaker_of_event_fn(event_id))
}

/// Retrieves the speaker rows of one event.
pub fn fetch_speakers(data: GetSpeakerData, db: &Database) -> (r: Result<Vec<Speaker>, AppError>)
    requires
        db.wf(),
    ensures
        r is Ok,
        r->Ok_0@ == speakers_of_event(db.speakers@, data.event_id),
{
    let ghost s = db.speakers@;
    let mut out: Vec<Speaker> = Vec::new();
    let n = db.speakers.len();
    proof {
        assert(s.take(0) =~= Seq::<Speaker>::empty());
    }
    let mut i: usize = 0;
    while i < n
        invariant
            i <= n,
            n == s.len(),
            s == db.speakers@,
            out@ == speakers_of_event(s.take(i as int), data.event_id),
        decreases n - i,
    {
        proof {
            lemma_filter_where_take_step(s, speaker_of_event_fn(data.event_id), i as int);
            assert(speaker_of_event_fn(data.event_id)(s[i as int]) == (s[i as int].event_id
                == data.event_id));
        }
        let x = &db.speakers[i];
        if x.event_id == data.event_id {
            out.push(x.clone_speaker());
        }
        i += 1;
    }
    proof {
        lemma_take_all(s);
    }
    Ok(out)
}

/// The stored row of a created speaker: the payload's fields under the
/// store-assigned identifier.
pub open spec fn spec_created_speaker(item: Speaker, id: int) -> Speaker {
    Speaker { id: id as i64, ..item }
}

/// Inserts the given speaker rows one by one, assigning each the next
/// identifier, and returns the stored rows. Insertion is item by item,
/// with no surrounding transaction.
pub fn create_speakers(data: Vec<Speaker>, db: &mut Database) -> (r: Result<Vec<Speaker>, AppError>)
    requires
        old(db).wf(),
        old(db).next_speaker_id + data@.len() <= i64::MAX,
    ensures
        final(db).wf(),
        r is Ok,
        r->Ok_0@.len() == data@.len(),
        forall|j: int|
            0 <= j < data@.len() ==> #[trigger] r->Ok_0@[j] == spec_created_speaker(
                data@[j],
                old(db).next_speaker_id + j,
            ),
        final(db).speakers@ == old(db).speakers@ + r->Ok_0@,
        final(db).next_speaker_id == old(db).next_speaker_id + data@.len(),
        *final(db) == (Database {
            speakers: final(db).speakers,
            next_speaker_id: final(db).next_speaker_id,
            ..*old(db)
        }),
{
    let ghost orig = old(db).speakers@;
    let ghost items = data@;
    let mut out: Vec<Speaker> = Vec::new();
    let n = data.len();
    proof {
        assert(orig + out@ =~= orig);
    }
    let mut j: usize = 0;
    while j < n
        invariant
            j <= n,
            n == items.len(),
            items == data@,
            old(db).wf(),
            old(db).next_speaker_id + items.len() <= i64::MAX,
            orig == old(db).speakers@,
            db.wf(),
            out@.len() == j,
            db.next_speaker_id == old(db).next_speaker_id + j,
            db.speakers@ == orig + out@,
            forall|t: int|
                0 <= t < j ==> #[trigger] out@[t] == spec_created_speaker(
                    items[t],
                    old(db).next_speaker_id + t,
                ),
            *db == (Database { speakers: db.speakers, next_speaker_id: db.next_speaker_id, ..*old(db) }),
        decreases n - j,
    {
        let id = db.next_speaker_id;
        let mut row = data[j].clone_speaker();
        row.id = id;
        let stored = row.clone_speaker();
        let ghost before = db.speakers@;
        db.speakers.push(row);
        db.next_speaker_id = id + 1;
        out.push(stored);
        proof {
            assert(db.speakers@ =~= orig + out@);
            assert forall|k: int| 0 <= k < db.speakers@.len() implies 1 <= (
            #[trigger] db.speakers@[k]).id < db.next_speaker_id by {
                if k < before.len() {
                    assert(db.speakers@[k] == before[k]);
                }
            }
            assert forall|a: int, b: int|
                0 <= a < b < db.speakers@.len() implies db.speakers@[a].id != db.speakers@[b].id by {
                assert(db.speakers@[a] == before[a]);
                if b < before.len() {
                    assert(db.speakers@[b] == before[b]);
                } else {
                    assert(1 <= before[a].id < id);
                }
            }
        }
        j += 1;
    }
    proof {
        assert(items.len() == n);
    }
    Ok(out)
}

/// Full-field replace of one speaker row: every payload field is taken
/// over; the identifier and the owning event stay with the stored row.
pub open spec fn spec_apply_speaker_update(s: Seq<Speaker>, u: Speaker) -> Seq<Speaker> {
    Seq::new(
        s.len(),
        |i: int|
            if s[i].id == u.id {
                Speaker { id: s[i].id, event_id: s[i].event_id, ..u }
            } else {
                s[i]
            },
    )
}

/// The given updates applied in order, each by identifier.
pub open spec fn spec_apply_speaker_updates(s: Seq<Speaker>, us: Seq<Speaker>) -> Seq<Speaker>
    decreases us.len(),
{
    if us.len() == 0 {
        s
    } else {
        spec_apply_speaker_update(spec_apply_speaker_updates(s, us.drop_last()), us.last())
    }
}

fn update_one_speaker(u: &Speaker, db: &mut Database)
    requires
        old(db).wf(),
    ensures
        final(db).wf(),
        final(db).speakers@ == spec_apply_speaker_update(old(db).speakers@, *u),
        *final(db) == (Database { speakers: final(db).speakers, ..*old(db) }),
{
    let ghost orig = old(db).speakers@;
    let n = db.speakers.len();
    let mut i: usize = 0;
    while i < n
        invariant
            i <= n,
            n == orig.len(),
            db.speakers@.len() == orig.len(),
            orig == old(db).speakers@,
            forall|k: int|
                0 <= k < i ==> #[trigger] db.speakers@[k] == (if orig[k].id == u.id {
                    Speaker { id: orig[k].id, event_id: orig[k].event_id, ..*u }
                } else {
                    orig[k]
                }),
            forall|k: int| i <= k < orig.len() ==> #[trigger] db.speakers@[k] == orig[k],
            *db == (Database { speakers: db.speakers, ..*old(db) }),
        decreases n - i,
    {
        if db.speakers[i].id == u.id {
            let id = db.speakers[i].id;
            let event_id = db.speakers[i].event_id;
            let mut row = u.clone_speaker();
            row.id = id;
            row.event_id = event_id;
            db.speakers.set(i, row);
        }
        i += 1;
    }
    proof {
        assert(db.speakers@ =~= spec_apply_speaker_update(orig, *u));
        assert forall|k: int| 0 <= k < db.speakers@.len() implies 1 <= (
        #[trigger] db.speakers@[k]).id < db.next_speaker_id && db.speakers@[k].id == orig[k].id by {
            assert(1 <= orig[k].id < old(db).next_speaker_id);
        }
    }
}

/// Applies the given speaker updates in order, each a full-field replace by
/// identifier; rows with unknown identifiers are left alone. The updates
/// run item by item, with no surrounding transaction.
pub fn update_speakers(data: Vec<Speaker>, db: &mut Database) -> (r: Result<(), AppError>)
    requires
        old(db).wf(),
    ensures
        final(db).wf(),
        r is Ok,
        final(db).speakers@ == spec_apply_speaker_updates(old(db).speakers@, data@),
        *final(db) == (Database { speakers: final(db).speakers, ..*old(db) }),
{
    let ghost orig = old(db).speakers@;
    let ghost items = data@;
    let n = data.len();
    let mut j: usize = 0;
    proof {
        assert(items.take(0) =~= Seq::<Speaker>::empty());
    }
    while j < n
        invariant
            j <= n,
            n == items.len(),
            items == data@,
            orig == old(db).speakers@,
            db.wf(),
            db.speakers@ == spec_apply_speaker_updates(orig, items.take(j as int)),
            *db == (Database { speakers: db.speakers, ..*old(db) }),
        decreases n - j,
    {
        update_one_speaker(&data[j], db);
        proof {
            assert(items.take(j as int + 1).drop_last() =~= items.take(j as int));
            assert(items.take(j as int + 1).last() == items[j as int]);
        }
        j += 1;
    }
    proof {
        assert(items.take(n as int) =~= items);
    }
    Ok(())
}

} // verus!
