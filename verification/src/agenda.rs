//! Agenda items: timed programme entries owned by one event.

use vstd::prelude::*;

use crate::AppError;
use crate::store::Database;
use crate::sums::{filter_where, lemma_filter_where_take_step, lemma_take_all};

verus! {

/// An agenda row; `start_time` is carried as opaque text.
pub struct Agenda {
    pub id: i64,
    pub event_id: i64,
    pub start_time: String,
    pub title: String,
    pub speaker: String,
}

impl Agenda {
    pub fn clone_agenda(&self) -> (r: Agenda)
        ensures
            r == *self,
    {
        Agenda {
            id: self.id,
            event_id: self.event_id,
            start_time: self.start_time.clone(),
            title: self.title.clone(),
            speaker: self.speaker.clone(),
        }
    }
}

/// Lookup key: the owning event.
pub struct GetAgendaData {
    pub event_id: i64,
}

/// Ownership key of agenda rows: the parent event.
pub open spec fn agenda_of_event_fn(event_id: i64) -> spec_fn(Agenda) -> bool {
    |x: Agenda| x.event_id == event_id
}

/// The agenda rows of `s` owned by the given event, in table order.
pub open spec fn agendas_of_event(s: Seq<Agenda>, event_id: i64) -> Seq<Agenda> {
    filter_where(s, agenda_of_event_fn(event_id))
}

/// Retrieves the agenda rows of one event.
pub fn fetch_agenda(data: GetAgendaData, db: &Database) -> (r: Result<Vec<Agenda>, AppError>)
    requires
        db.wf(),
    ensures
        r is Ok,
        r->Ok_0@ == agendas_of_event(db.agendas@, data.event_id),
{
    let ghost s = db.agendas@;
    let mut out: Vec<Agenda> = Vec::new();
    let n = db.agendas.len();
    proof {
        assert(s.take(0) =~= Seq::<Agenda>::empty());
    }
    let mut i: usize = 0;
    while i < n
        invariant
            i <= n,
            n == s.len(),
            s == db.agendas@,
            out@ == agendas_of_event(s.take(i as int), data.event_id),
        decreases n - i,
    {
        proof {
            lemma_filter_where_take_step(s, agenda_of_event_fn(data.event_id), i as int);
            assert(agenda_of_event_fn(data.event_id)(s[i as int]) == (s[i as int].event_id
                == data.event_id));
        }
        let x = &db.agendas[i];
        if x.event_id == data.event_id {
            out.push(x.clone_agenda());
        }
        i += 1;
    }
    proof {
        lemma_take_all(s);
    }
    Ok(out)
}

/// The stored row of a created agenda: the payload's fields under the
/// store-assigned identifier.
pub open spec fn spec_created_agenda(item: Agenda, id: int) -> Agenda {
    Agenda { id: id as i64, ..item }
}

/// Inserts the given agenda rows one by one, assigning each the next
/// identifier, and returns the stored rows. Insertion is item by item,
/// with no surrounding transaction.
pub fn create_agenda(data: Vec<Agenda>, db: &mut Database) -> (r: Result<Vec<Agenda>, AppError>)
    requires
        old(db).wf(),
        old(db).next_agenda_id + data@.len() <= i64::MAX,
    ensures
        final(db).wf(),
        r is Ok,
        r->Ok_0@.len() == data@.len(),
        forall|j: int|
            0 <= j < data@.len() ==> #[trigger] r->Ok_0@[j] == spec_created_agenda(
                data@[j],
                old(db).next_agenda_id + j,
            ),
        final(db).agendas@ == old(db).agendas@ + r->Ok_0@,
        final(db).next_agenda_id == old(db).next_agenda_id + data@.len(),
        *final(db) == (Database {
            agendas: final(db).agendas,
            next_agenda_id: final(db).next_agenda_id,
            ..*old(db)
        }),
{
    let ghost orig = old(db).agendas@;
    let ghost items = data@;
    let mut out: Vec<Agenda> = Vec::new();
    let n = data.len();
    proof {
        assert(orig + out@ =~= orig);
    }
    let mut j: usize = 0;
    while j < n
        invariant
            j <= n,
            n == items.len(),
            items == data@,
            old(db).wf(),
            old(db).next_agenda_id + items.len() <= i64::MAX,
            orig == old(db).agendas@,
            db.wf(),
            out@.len() == j,
            db.next_agenda_id == old(db).next_agenda_id + j,
            db.agendas@ == orig + out@,
            forall|t: int|
                0 <= t < j ==> #[trigger] out@[t] == spec_created_agenda(
                    items[t],
                    old(db).next_agenda_id + t,
                ),
            *db == (Database { agendas: db.agendas, next_agenda_id: db.next_agenda_id, ..*old(db) }),
        decreases n - j,
    {
        let id = db.next_agenda_id;
        let mut row = data[j].clone_agenda();
        row.id = id;
        let stored = row.clone_agenda();
        let ghost before = db.agendas@;
        db.agendas.push(row);
        db.next_agenda_id = id + 1;
        out.push(stored);
        proof {
            assert(db.agendas@ =~= orig + out@);
            assert forall|k: int| 0 <= k < db.agendas@.len() implies 1 <= (
            #[trigger] db.agendas@[k]).id < db.next_agenda_id by {
                if k < before.len() {
                    assert(db.agendas@[k] == before[k]);
                }
            }
            assert forall|a: int, b: int|
                0 <= a < b < db.agendas@.len() implies db.agendas@[a].id != db.agendas@[b].id by {
                assert(db.agendas@[a] == before[a]);
                if b < before.len() {
                    assert(db.agendas@[b] == before[b]);
                } else {
                    assert(1 <= before[a].id < id);
                }
            }
        }
        j += 1;
    }
    proof {
        assert(items.len() == n);
    }
    Ok(out)
}

/// Full-field replace of one agenda row: every payload field is taken
/// over; the identifier and the owning event stay with the stored row.
pub open spec fn spec_apply_agenda_update(s: Seq<Agenda>, u: Agenda) -> Seq<Agenda> {
    Seq::new(
        s.len(),
        |i: int|
            if s[i].id == u.id {
                Agenda { id: s[i].id, event_id: s[i].event_id, ..u }
            } else {
                s[i]
            },
    )
}

/// The given updates applied in order, each by identifier.
pub open spec fn spec_apply_agenda_updates(s: Seq<Agenda>, us: Seq<Agenda>) -> Seq<Agenda>
    decreases us.len(),
{
    if us.len() == 0 {
        s
    } else {
        spec_apply_agenda_update(spec_apply_agenda_updates(s, us.drop_last()), us.last())
    }
}

fn update_one_agenda(u: &Agenda, db: &mut Database)
    requires
        old(db).wf(),
    ensures
        final(db).wf(),
        final(db).agendas@ == spec_apply_agenda_update(old(db).agendas@, *u),
        *final(db) == (Database { agendas: final(db).agendas, ..*old(db) }),
{
    let ghost orig = old(db).agendas@;
    let n = db.agendas.len();
    let mut i: usize = 0;
    while i < n
        invariant
            i <= n,
            n == orig.len(),
            db.agendas@.len() == orig.len(),
            orig == old(db).agendas@,
            forall|k: int|
                0 <= k < i ==> #[trigger] db.agendas@[k] == (if orig[k].id == u.id {
                    Agenda { id: orig[k].id, event_id: orig[k].event_id, ..*u }
                } else {
                    orig[k]
                }),
            forall|k: int| i <= k < orig.len() ==> #[trigger] db.agendas@[k] == orig[k],
            *db == (Database { agendas: db.agendas, ..*old(db) }),
        decreases n - i,
    {
        if db.agendas[i].id == u.id {
            let id = db.agendas[i].id;
            let event_id = db.agendas[i].event_id;
            let mut row = u.clone_agenda();
            row.id = id;
            row.event_id = event_id;
            db.agendas.set(i, row);
        }
        i += 1;
    }
    proof {
        assert(db.agendas@ =~= spec_apply_agenda_update(orig, *u));
        assert forall|k: int| 0 <= k < db.agendas@.len() implies 1 <= (
        #[trigger] db.agendas@[k]).id < db.next_agenda_id && db.agendas@[k].id == orig[k].id by {
            assert(1 <= orig[k].id < old(db).next_agenda_id);
        }
    }
}

/// Applies the given agenda updates in order, each a full-field replace by
/// identifier; rows with unknown identifiers are left alone. The updates
/// run item by item, with no surrounding transaction.
pub fn update_agenda(data: Vec<Agenda>, db: &mut Database) -> (r: Result<(), AppError>)
    requires
        old(db).wf(),
    ensures
        final(db).wf(),
        r is Ok,
        final(db).agendas@ == spec_apply_agenda_updates(old(db).agendas@, data@),
        *final(db) == (Database { agendas: final(db).agendas, ..*old(db) }),
{
    let ghost orig = old(db).agendas@;
    let ghost items = data@;
    let n = data.len();
    let mut j: usize = 0;
    proof {
        assert(items.take(0) =~= Seq::<Agenda>::empty());
    }
    while j < n
        invariant
            j <= n,
            n == items.len(),
            items == data@,
            orig == old(db).agendas@,
            db.wf(),
            db.agendas@ == spec_apply_agenda_updates(orig, items.take(j as int)),
            *db == (Database { agendas: db.agendas, ..*old(db) }),
        decreases n - j,
    {
        update_one_agenda(&data[j], db);
        proof {
            assert(items.take(j as int + 1).drop_last() =~= items.take(j as int));
            assert(items.take(j as int + 1).last() == items[j as int]);
        }
        j += 1;
    }
    proof {
        assert(items.take(n as int) =~= items);
    }
    Ok(())
}

} // verus!
