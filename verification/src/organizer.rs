//! Organizers: the tenant owning events, one-to-one with a user.

use vstd::prelude::*;

use crate::auth::{session_of, validate_session};
use crate::AppError;
use crate::store::Database;
use crate::sums::{
    filter_where, find_first, lemma_filter_where_pairwise, lemma_filter_where_take_step,
    lemma_find_first_at, lemma_find_first_none, lemma_take_all,
};

verus! {

/// An organizer row; its identifier equals the owning user's.
pub struct Organizer {
    pub id: i64,
    pub name: String,
    pub logo: Option<String>,
    pub website: Option<String>,
}

impl Organizer {
    pub fn clone_organizer(&self) -> (r: Organizer)
        ensures
            r == *self,
    {
        Organizer {
            id: self.id,
            name: self.name.clone(),
            logo: crate::event::clone_opt_string(&self.logo),
            website: crate::event::clone_opt_string(&self.website),
        }
    }
}

impl Default for Organizer {
    /// The placeholder organizer used when profile data is absent.
    fn default() -> (r: Organizer)
        ensures
            r.id == 0,
            r.name@ == Seq::<char>::empty(),
            r.logo is None,
            r.website is None,
    {
        Organizer { id: 0, name: String::new(), logo: None, website: None }
    }
}

/// Payload for creating or updating an organizer profile.
pub struct OrganizerData {
    pub name: String,
    pub logo: Option<String>,
    pub website: Option<String>,
}

/// Lookup key: an organizer identifier.
pub struct GetOrganizerData {
    pub organizer_id: i64,
}

/// Deletion key: an organizer identifier.
pub struct DeleteOrganizerData {
    pub organizer_id: i64,
}

/// Lookup key of an organizer by identifier.
pub open spec fn organizer_id_fn(id: i64) -> spec_fn(Organizer) -> bool {
    |o: Organizer| o.id == id
}

/// The first organizer of `s` with the given identifier, if any.
pub open spec fn find_organizer(s: Seq<Organizer>, id: i64) -> Option<Organizer> {
    find_first(s, organizer_id_fn(id))
}

/// The organizers of `s` other than the one with the given identifier.
pub open spec fn organizers_without(s: Seq<Organizer>, id: i64) -> Seq<Organizer> {
    filter_where(s, keep_organizer_fn(id))
}

pub open spec fn keep_organizer_fn(id: i64) -> spec_fn(Organizer) -> bool {
    |o: Organizer| o.id != id
}

/// Distinctness of two organizer rows, as a relation value.
pub open spec fn organizer_distinct_fn() -> spec_fn(Organizer, Organizer) -> bool {
    |a: Organizer, b: Organizer| a.id != b.id
}

/// Retrieves the organizer profile with the given identifier.
pub fn fetch_organizer(data: GetOrganizerData, db: &Database) -> (r: Result<Organizer, AppError>)
    requires
        db.wf(),
    ensures
        r == match find_organizer(db.organizers@, data.organizer_id) {
            Some(o) => Ok::<Organizer, AppError>(o),
            None => Err::<Organizer, AppError>(AppError::NotFound),
        },
{
    let ghost s = db.organizers@;
    let n = db.organizers.len();
    let mut i: usize = 0;
    while i < n
        invariant
            i <= n,
            n == s.len(),
            s == db.organizers@,
            forall|k: int| 0 <= k < i ==> (#[trigger] s[k]).id != data.organizer_id,
        decreases n - i,
    {
        let o = &db.organizers[i];
        if o.id == data.organizer_id {
            proof {
                assert forall|k: int| 0 <= k < i implies !(#[trigger] organizer_id_fn(
                    data.organizer_id,
                )(s[k])) by {
                    assert(organizer_id_fn(data.organizer_id)(s[k]) == (s[k].id
                        == data.organizer_id));
                }
                assert(organizer_id_fn(data.organizer_id)(s[i as int]));
                lemma_find_first_at(s, organizer_id_fn(data.organizer_id), i as int);
            }
            return Ok(o.clone_organizer());
        }
        i += 1;
    }
    proof {
        assert forall|k: int| 0 <= k < s.len() implies !(#[trigger] organizer_id_fn(
            data.organizer_id,
        )(s[k])) by {
            assert(organizer_id_fn(data.organizer_id)(s[k]) == (s[k].id == data.organizer_id));
        }
        lemma_find_first_none(s, organizer_id_fn(data.organizer_id));
    }
    Err(AppError::NotFound)
}

/// Inserts an organizer profile under the caller-supplied identifier (the
/// owning user's). A taken identifier is refused, as the store's key
/// constraint would refuse it.
pub fn create_organizer(data: Organizer, db: &mut Database) -> (r: Result<Organizer, AppError>)
    requires
        old(db).wf(),
    ensures
        final(db).wf(),
        (r is Ok) <==> (find_organizer(old(db).organizers@, data.id) is None),
        r is Ok ==> ({
            &&& r->Ok_0 == data
            &&& final(db).organizers@ == old(db).organizers@.push(data)
            &&& *final(db) == (Database { organizers: final(db).organizers, ..*old(db) })
        }),
        r is Err ==> *final(db) == *old(db) && r == Err::<Organizer, AppError>(AppError::Storage),
{
    let ghost s = db.organizers@;
    let n = db.organizers.len();
    let mut i: usize = 0;
    while i < n
        invariant
            i <= n,
            n == s.len(),
            s == db.organizers@,
            *db == *old(db),
            old(db).wf(),
            forall|k: int| 0 <= k < i ==> (#[trigger] s[k]).id != data.id,
        decreases n - i,
    {
        let o = &db.organizers[i];
        if o.id == data.id {
            proof {
                assert forall|k: int| 0 <= k < i implies !(#[trigger] organizer_id_fn(data.id)(
                    s[k],
                )) by {
                    assert(organizer_id_fn(data.id)(s[k]) == (s[k].id == data.id));
                }
                assert(organizer_id_fn(data.id)(s[i as int]));
                lemma_find_first_at(s, organizer_id_fn(data.id), i as int);
            }
            return Err(AppError::Storage);
        }
        i += 1;
    }
    proof {
        assert forall|k: int| 0 <= k < s.len() implies !(#[trigger] organizer_id_fn(data.id)(
            s[k],
        )) by {
            assert(organizer_id_fn(data.id)(s[k]) == (s[k].id == data.id));
        }
        lemma_find_first_none(s, organizer_id_fn(data.id));
    }
    let stored = data.clone_organizer();
    db.organizers.push(data);
    proof {
        assert forall|a: int, b: int|
            0 <= a < b < db.organizers@.len() implies db.organizers@[a].id
            != db.organizers@[b].id by {
            assert(db.organizers@[a] == s[a]);
            if b < s.len() {
                assert(db.organizers@[b] == s[b]);
            } else {
                assert(s[a].id != db.organizers@[b].id);
            }
        }
    }
    Ok(stored)
}

/// Replaces the profile fields of the organizer with the payload's
/// identifier; a missing identifier updates nothing, as in the store.
pub fn update_organizer(data: Organizer, db: &mut Database) -> (r: Result<(), AppError>)
    requires
        old(db).wf(),
    ensures
        final(db).wf(),
        r is Ok,
        final(db).organizers@.len() == old(db).organizers@.len(),
        forall|i: int|
            0 <= i < old(db).organizers@.len() ==> #[trigger] final(db).organizers@[i] == (
            if old(db).organizers@[i].id == data.id {
                Organizer { id: old(db).organizers@[i].id, ..data }
            } else {
                old(db).organizers@[i]
            }),
        *final(db) == (Database { organizers: final(db).organizers, ..*old(db) }),
{
    let ghost orig = old(db).organizers@;
    let n = db.organizers.len();
    let mut i: usize = 0;
    while i < n
        invariant
            i <= n,
            n == orig.len(),
            db.organizers@.len() == orig.len(),
            orig == old(db).organizers@,
            forall|k: int|
                0 <= k < i ==> #[trigger] db.organizers@[k] == (if orig[k].id == data.id {
                    Organizer { id: orig[k].id, ..data }
                } else {
                    orig[k]
                }),
            forall|k: int| i <= k < orig.len() ==> #[trigger] db.organizers@[k] == orig[k],
            *db == (Database { organizers: db.organizers, ..*old(db) }),
        decreases n - i,
    {
        if db.organizers[i].id == data.id {
            let id = db.organizers[i].id;
            let mut updated = data.clone_organizer();
            updated.id = id;
            db.organizers.set(i, updated);
        }
        i += 1;
    }
    proof {
        assert forall|a: int, b: int|
            0 <= a < b < db.organizers@.len() implies db.organizers@[a].id
            != db.organizers@[b].id by {
            assert(orig[a].id != orig[b].id);
            assert(db.organizers@[a].id == orig[a].id && db.organizers@[b].id == orig[b].id);
        }
    }
    Ok(())
}

/// Deletes the organizer with the given identifier; absent identifiers
/// delete nothing.
pub fn delete_organizer(data: DeleteOrganizerData, db: &mut Database) -> (r: Result<(), AppError>)
    requires
        old(db).wf(),
    ensures
        final(db).wf(),
        r is Ok,
        final(db).organizers@ == organizers_without(old(db).organizers@, data.organizer_id),
        *final(db) == (Database { organizers: final(db).organizers, ..*old(db) }),
{
    let ghost s = old(db).organizers@;
    let ghost p = keep_organizer_fn(data.organizer_id);
    let mut kept: Vec<Organizer> = Vec::new();
    let n = db.organizers.len();
    proof {
        assert(s.take(0) =~= Seq::<Organizer>::empty());
    }
    let mut i: usize = 0;
    while i < n
        invariant
            i <= n,
            n == s.len(),
            s == db.organizers@,
            *db == *old(db),
            kept@ == organizers_without(s.take(i as int), data.organizer_id),
        decreases n - i,
    {
        proof {
            lemma_filter_where_take_step(s, keep_organizer_fn(data.organizer_id), i as int);
            assert(keep_organizer_fn(data.organizer_id)(s[i as int]) == (s[i as int].id
                != data.organizer_id));
        }
        let o = &db.organizers[i];
        if o.id != data.organizer_id {
            kept.push(o.clone_organizer());
        }
        i += 1;
    }
    proof {
        lemma_take_all(s);
        lemma_filter_where_pairwise(s, p, organizer_distinct_fn());
        assert forall|a: int, b: int|
            0 <= a < b < s.len() implies #[trigger] organizer_distinct_fn()(s[a], s[b]) by {
            assert(s[a].id != s[b].id);
        }
        assert forall|a: int, b: int|
            0 <= a < b < organizers_without(s, data.organizer_id).len() implies organizers_without(
            s,
            data.organizer_id,
        )[a].id != organizers_without(s, data.organizer_id)[b].id by {
            assert(organizer_distinct_fn()(organizers_without(s, data.organizer_id)[a],
                organizers_without(s, data.organizer_id)[b]));
        }
    }
    db.organizers = kept;
    Ok(())
}

/// Handler core of the organizer profile route: authenticates the session
/// and fetches the authenticated user's organizer profile.
pub fn get_organizer(token: Option<&String>, db: &Database) -> (r: Result<Organizer, AppError>)
    requires
        db.wf(),
    ensures
        session_of(*db, token) is None ==> r == Err::<Organizer, AppError>(
            AppError::Unauthenticated,
        ),
        session_of(*db, token) matches Some(x) ==> r == match find_organizer(
            db.organizers@,
            x.user_id,
        ) {
            Some(o) => Ok::<Organizer, AppError>(o),
            None => Err::<Organizer, AppError>(AppError::NotFound),
        },
{
    let session = match validate_session(token, db) {
        Ok(x) => x,
        Err(_) => {
            return Err(AppError::Unauthenticated);
        },
    };
    fetch_organizer(GetOrganizerData { organizer_id: session.user_id }, db)
}

/// Handler core of the organizer registration route: authenticates the
/// session and stores the profile under the authenticated user's
/// identifier; an existing profile is refused.
pub fn register_organizer(token: Option<&String>, data: OrganizerData, db: &mut Database) -> (r:
    Result<Organizer, AppError>)
    requires
        old(db).wf(),
    ensures
        final(db).wf(),
        session_of(*old(db), token) is None ==> r == Err::<Organizer, AppError>(
            AppError::Unauthenticated,
        ) && *final(db) == *old(db),
        session_of(*old(db), token) matches Some(x) ==> ({
            let profile = Organizer {
                id: x.user_id,
                name: data.name,
                logo: data.logo,
                website: data.website,
            };
            &&& (r is Ok) <==> (find_organizer(old(db).organizers@, x.user_id) is None)
            &&& r is Ok ==> r == Ok::<Organizer, AppError>(profile) && final(db).organizers@
                == old(db).organizers@.push(profile) && *final(db) == (Database {
                organizers: final(db).organizers,
                ..*old(db)
            })
            &&& r is Err ==> r == Err::<Organizer, AppError>(AppError::Storage) && *final(db)
                == *old(db)
        }),
{
    let session = match validate_session(token, db) {
        Ok(x) => x,
        Err(_) => {
            return Err(AppError::Unauthenticated);
        },
    };
    let OrganizerData { name, logo, website } = data;
    create_organizer(Organizer { id: session.user_id, name, logo, website }, db)
}

/// Handler core of the organizer update route: authenticates the session,
/// checks that a profile exists, and replaces its fields under the
/// authenticated user's identifier.
pub fn put_organizer(token: Option<&String>, data: Organizer, db: &mut Database) -> (r: Result<
    (),
    AppError,
>)
    requires
        old(db).wf(),
    ensures
        final(db).wf(),
        session_of(*old(db), token) is None ==> r == Err::<(), AppError>(
            AppError::Unauthenticated,
        ) && *final(db) == *old(db),
        session_of(*old(db), token) matches Some(x) ==> match find_organizer(
            old(db).organizers@,
            x.user_id,
        ) {
            None => r == Err::<(), AppError>(AppError::NotFound) && *final(db) == *old(db),
            Some(_) => ({
                &&& r is Ok
                &&& final(db).organizers@.len() == old(db).organizers@.len()
                &&& forall|i: int|
                    0 <= i < old(db).organizers@.len() ==> #[trigger] final(db).organizers@[i] == (
                    if old(db).organizers@[i].id == x.user_id {
                        Organizer { id: old(db).organizers@[i].id, ..data }
                    } else {
                        old(db).organizers@[i]
                    })
                &&& *final(db) == (Database { organizers: final(db).organizers, ..*old(db) })
            }),
        },
{
    let session = match validate_session(token, db) {
        Ok(x) => x,
        Err(_) => {
            return Err(AppError::Unauthenticated);
        },
    };
    match fetch_organizer(GetOrganizerData { organizer_id: session.user_id }, db) {
        Ok(_) => (),
        Err(_) => {
            return Err(AppError::NotFound);
        },
    }
    let payload = Organizer { id: session.user_id, ..data };
    update_organizer(payload, db)
}

} // verus!
