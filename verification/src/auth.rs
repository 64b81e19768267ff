//! Users, sessions and the credential service: password hashing and
//! verification, session-token generation, and the accessor and handler
//! logic for authentication.

use vstd::prelude::*;

use argon2::{PasswordHasher, PasswordVerifier};
use base64::Engine;
use rand::TryRng;

use crate::AppError;
use crate::organizer::{
    delete_organizer, fetch_organizer, find_organizer, organizers_without, DeleteOrganizerData,
    GetOrganizerData, Organizer,
};
use crate::store::Database;
use crate::sums::{
    filter_where, find_first, lemma_count_where_bounds, lemma_filter_where_len,
    lemma_filter_where_pairwise, lemma_filter_where_preserves, lemma_filter_where_take_step,
    lemma_find_first_at, lemma_find_first_none, lemma_find_first_some, lemma_take_all,
};

verus! {

/// A registered user; `password` holds the encoded password hash, never
/// the plaintext.
pub struct User {
    pub id: i64,
    pub username: String,
    pub password: String,
}

impl User {
    pub fn clone_user(&self) -> (r: User)
        ensures
            r == *self,
    {
        User { id: self.id, username: self.username.clone(), password: self.password.clone() }
    }
}

/// User profile information returned to the client.
pub struct UserData {
    pub username: String,
    pub name: String,
    pub logo: Option<String>,
    pub website: Option<String>,
}

/// Credentials presented at login or registration.
pub struct AuthData {
    pub username: String,
    pub password: String,
}

/// Lookup key: a username.
pub struct GetUserData {
    pub username: String,
}

/// Lookup key: a user identifier.
pub struct GetUserIDData {
    pub id: i64,
}

/// Client request to change the password of the authenticated user.
pub struct UpdatePasswordRequestData {
    pub new_password: String,
}

/// Store-level password update: the user and the new (already hashed)
/// password.
pub struct UpdatePasswordData {
    pub user_id: i64,
    pub new_password: String,
}

/// Store-level user deletion by identifier.
pub struct DeleteUserData {
    pub user_id: i64,
}

/// An authenticated session binding a token to a user.
pub struct Session {
    pub id: i64,
    pub user_id: i64,
    pub token: String,
}

impl Session {
    pub fn clone_session(&self) -> (r: Session)
        ensures
            r == *self,
    {
        Session { id: self.id, user_id: self.user_id, token: self.token.clone() }
    }
}

/// Store-level session creation: the user and the token to bind.
pub struct SessionData {
    pub user_id: i64,
    pub token: String,
}

/// Lookup key: a session token.
pub struct GetSessionData {
    pub token: String,
}

/// Deletion key: a session token.
pub struct DeleteSessionData {
    pub token: String,
}

/// Lookup key of a user by name.
pub open spec fn user_name_fn(name: Seq<char>) -> spec_fn(User) -> bool {
    |u: User| u.username@ == name
}

/// The first user of `s` with the given username, if any.
pub open spec fn find_user_by_username(s: Seq<User>, name: Seq<char>) -> Option<User> {
    find_first(s, user_name_fn(name))
}

/// Lookup key of a user by identifier.
pub open spec fn user_id_fn(id: i64) -> spec_fn(User) -> bool {
    |u: User| u.id == id
}

/// The first user of `s` with the given identifier, if any.
pub open spec fn find_user_by_id(s: Seq<User>, id: i64) -> Option<User> {
    find_first(s, user_id_fn(id))
}

/// Lookup key of a session by token.
pub open spec fn session_token_fn(token: Seq<char>) -> spec_fn(Session) -> bool {
    |x: Session| x.token@ == token
}

/// The first session of `s` bound to the given token, if any.
pub open spec fn find_session(s: Seq<Session>, token: Seq<char>) -> Option<Session> {
    find_first(s, session_token_fn(token))
}

/// The users of `s` other than the one with the given identifier.
pub open spec fn users_without(s: Seq<User>, id: i64) -> Seq<User> {
    filter_where(s, keep_user_fn(id))
}

pub open spec fn keep_user_fn(id: i64) -> spec_fn(User) -> bool {
    |u: User| u.id != id
}

/// The sessions of `s` not bound to the given token.
pub open spec fn sessions_without(s: Seq<Session>, token: Seq<char>) -> Seq<Session> {
    filter_where(s, keep_session_fn(token))
}

pub open spec fn keep_session_fn(token: Seq<char>) -> spec_fn(Session) -> bool {
    |x: Session| x.token@ != token
}

/// Fetches a user by username.
pub fn get_user_by_username(data: GetUserData, db: &Database) -> (r: Result<User, AppError>)
    requires
        db.wf(),
    ensures
        r == match find_user_by_username(db.users@, data.username@) {
            Some(u) => Ok::<User, AppError>(u),
            None => Err::<User, AppError>(AppError::NotFound),
        },
{
    let ghost s = db.users@;
    let n = db.users.len();
    let mut i: usize = 0;
    while i < n
        invariant
            i <= n,
            n == s.len(),
            s == db.users@,
            forall|k: int| 0 <= k < i ==> (#[trigger] s[k]).username@ != data.username@,
        decreases n - i,
    {
        let u = &db.users[i];
        if u.username == data.username {
            proof {
                assert forall|k: int| 0 <= k < i implies !(#[trigger] user_name_fn(data.username@)(
                    s[k],
                )) by {
                    assert(user_name_fn(data.username@)(s[k]) == (s[k].username@
                        == data.username@));
                }
                assert(user_name_fn(data.username@)(s[i as int]));
                lemma_find_first_at(s, user_name_fn(data.username@), i as int);
            }
            return Ok(u.clone_user());
        }
        i += 1;
    }
    proof {
        assert forall|k: int| 0 <= k < s.len() implies !(#[trigger] user_name_fn(data.username@)(
            s[k],
        )) by {
            assert(user_name_fn(data.username@)(s[k]) == (s[k].username@ == data.username@));
        }
        lemma_find_first_none(s, user_name_fn(data.username@));
    }
    Err(AppError::NotFound)
}

/// Fetches a user by identifier.
pub fn get_user_by_id(data: GetUserIDData, db: &Database) -> (r: Result<User, AppError>)
    requires
        db.wf(),
    ensures
        r == match find_user_by_id(db.users@, data.id) {
            Some(u) => Ok::<User, AppError>(u),
            None => Err::<User, AppError>(AppError::NotFound),
        },
{
    let ghost s = db.users@;
    let n = db.users.len();
    let mut i: usize = 0;
    while i < n
        invariant
            i <= n,
            n == s.len(),
            s == db.users@,
            forall|k: int| 0 <= k < i ==> (#[trigger] s[k]).id != data.id,
        decreases n - i,
    {
        let u = &db.users[i];
        if u.id == data.id {
            proof {
                assert forall|k: int| 0 <= k < i implies !(#[trigger] user_id_fn(data.id)(s[k])) by {
                    assert(user_id_fn(data.id)(s[k]) == (s[k].id == data.id));
                }
                assert(user_id_fn(data.id)(s[i as int]));
                lemma_find_first_at(s, user_id_fn(data.id), i as int);
            }
            return Ok(u.clone_user());
        }
        i += 1;
    }
    proof {
        assert forall|k: int| 0 <= k < s.len() implies !(#[trigger] user_id_fn(data.id)(s[k])) by {
            assert(user_id_fn(data.id)(s[k]) == (s[k].id == data.id));
        }
        lemma_find_first_none(s, user_id_fn(data.id));
    }
    Err(AppError::NotFound)
}

/// Creates a user with the next identifier. A taken username is refused,
/// as the store's uniqueness constraint would refuse it.
pub fn create_user(data: AuthData, db: &mut Database) -> (r: Result<User, AppError>)
    requires
        old(db).wf(),
        old(db).next_user_id < i64::MAX,
    ensures
        final(db).wf(),
        (r is Ok) <==> (find_user_by_username(old(db).users@, data.username@) is None),
        r is Ok ==> ({
            &&& r->Ok_0 == (User {
                id: old(db).next_user_id,
                username: data.username,
                password: data.password,
            })
            &&& final(db).users@ == old(db).users@.push(r->Ok_0)
            &&& final(db).next_user_id == old(db).next_user_id + 1
            &&& *final(db) == (Database {
                users: final(db).users,
                next_user_id: final(db).next_user_id,
                ..*old(db)
            })
        }),
        r is Err ==> *final(db) == *old(db) && r == Err::<User, AppError>(AppError::Storage),
{
    let ghost s = db.users@;
    let n = db.users.len();
    let mut i: usize = 0;
    while i < n
        invariant
            i <= n,
            n == s.len(),
            s == db.users@,
            *db == *old(db),
            old(db).wf(),
            forall|k: int| 0 <= k < i ==> (#[trigger] s[k]).username@ != data.username@,
        decreases n - i,
    {
        let u = &db.users[i];
        if u.username == data.username {
            proof {
                assert forall|k: int| 0 <= k < i implies !(#[trigger] user_name_fn(data.username@)(
                    s[k],
                )) by {
                    assert(user_name_fn(data.username@)(s[k]) == (s[k].username@
                        == data.username@));
                }
                assert(user_name_fn(data.username@)(s[i as int]));
                lemma_find_first_at(s, user_name_fn(data.username@), i as int);
            }
            return Err(AppError::Storage);
        }
        i += 1;
    }
    proof {
        assert forall|k: int| 0 <= k < s.len() implies !(#[trigger] user_name_fn(data.username@)(
            s[k],
        )) by {
            assert(user_name_fn(data.username@)(s[k]) == (s[k].username@ == data.username@));
        }
        lemma_find_first_none(s, user_name_fn(data.username@));
    }
    let id = db.next_user_id;
    let stored = User { id, username: data.username, password: data.password };
    let out = stored.clone_user();
    db.users.push(stored);
    db.next_user_id = id + 1;
    proof {
        assert forall|k: int| 0 <= k < db.users@.len() implies 1 <= (#[trigger] db.users@[k]).id
            < db.next_user_id by {
            if k < s.len() {
                assert(db.users@[k] == s[k]);
            }
        }
        assert forall|a: int, b: int|
            0 <= a < b < db.users@.len() implies db.users@[a].id != db.users@[b].id
            && db.users@[a].username@ != db.users@[b].username@ by {
            assert(db.users@[a] == s[a]);
            if b < s.len() {
                assert(db.users@[b] == s[b]);
            } else {
                assert(s[a].username@ != data.username@);
                assert(1 <= s[a].id < old(db).next_user_id);
            }
        }
    }
    Ok(out)
}

/// Replaces the stored (hashed) password of the user with the given
/// identifier. A missing identifier updates nothing, as in the store.
pub fn update_user_password(data: UpdatePasswordData, db: &mut Database) -> (r: Result<
    (),
    AppError,
>)
    requires
        old(db).wf(),
    ensures
        final(db).wf(),
        r is Ok,
        final(db).users@.len() == old(db).users@.len(),
        forall|i: int|
            0 <= i < old(db).users@.len() ==> #[trigger] final(db).users@[i] == (
            if old(db).users@[i].id == data.user_id {
                User {
                    id: old(db).users@[i].id,
                    username: old(db).users@[i].username,
                    password: data.new_password,
                }
            } else {
                old(db).users@[i]
            }),
        *final(db) == (Database { users: final(db).users, ..*old(db) }),
{
    let ghost orig = old(db).users@;
    let n = db.users.len();
    let mut i: usize = 0;
    while i < n
        invariant
            i <= n,
            n == orig.len(),
            db.users@.len() == orig.len(),
            orig == old(db).users@,
            forall|k: int|
                0 <= k < i ==> #[trigger] db.users@[k] == (if orig[k].id == data.user_id {
                    User { id: orig[k].id, username: orig[k].username, password: data.new_password }
                } else {
                    orig[k]
                }),
            forall|k: int| i <= k < orig.len() ==> #[trigger] db.users@[k] == orig[k],
            *db == (Database { users: db.users, ..*old(db) }),
        decreases n - i,
    {
        if db.users[i].id == data.user_id {
            let id = db.users[i].id;
            let username = db.users[i].username.clone();
            db.users.set(i, User { id, username, password: data.new_password.clone() });
        }
        i += 1;
    }
    proof {
        assert forall|k: int| 0 <= k < db.users@.len() implies 1 <= (#[trigger] db.users@[k]).id
            < db.next_user_id && db.users@[k].id == orig[k].id && db.users@[k].username@
            == orig[k].username@ by {
            assert(1 <= orig[k].id < old(db).next_user_id);
        }
    }
    Ok(())
}

/// Deletes the user with the given identifier; absent identifiers delete
/// nothing.
pub fn delete_user(data: DeleteUserData, db: &mut Database) -> (r: Result<(), AppError>)
    requires
        old(db).wf(),
    ensures
        final(db).wf(),
        r is Ok,
        final(db).users@ == users_without(old(db).users@, data.user_id),
        *final(db) == (Database { users: final(db).users, ..*old(db) }),
{
    let ghost s = old(db).users@;
    let ghost p = keep_user_fn(data.user_id);
    let mut kept: Vec<User> = Vec::new();
    let n = db.users.len();
    proof {
        assert(s.take(0) =~= Seq::<User>::empty());
    }
    let mut i: usize = 0;
    while i < n
        invariant
            i <= n,
            n == s.len(),
            s == db.users@,
            *db == *old(db),
            kept@ == users_without(s.take(i as int), data.user_id),
        decreases n - i,
    {
        proof {
            lemma_filter_where_take_step(s, keep_user_fn(data.user_id), i as int);
            assert(keep_user_fn(data.user_id)(s[i as int]) == (s[i as int].id != data.user_id));
        }
        let u = &db.users[i];
        if u.id != data.user_id {
            kept.push(u.clone_user());
        }
        i += 1;
    }
    proof {
        lemma_take_all(s);
        lemma_filter_where_preserves(s, p, user_wf_in_fn(old(db).next_user_id));
        assert forall|k: int| 0 <= k < s.len() implies user_wf_in_fn(old(db).next_user_id)(
            #[trigger] s[k],
        ) by {
            assert(1 <= s[k].id < old(db).next_user_id);
        }
        lemma_filter_where_pairwise(s, p, user_distinct_fn());
        assert forall|a: int, b: int| 0 <= a < b < s.len() implies #[trigger] user_distinct_fn()(
            s[a],
            s[b],
        ) by {
            assert(s[a].id != s[b].id && s[a].username@ != s[b].username@);
        }
        assert forall|a: int, b: int|
            0 <= a < b < users_without(s, data.user_id).len() implies users_without(
            s,
            data.user_id,
        )[a].id != users_without(s, data.user_id)[b].id && users_without(s, data.user_id)[
            a].username@ != users_without(s, data.user_id)[b].username@ by {
            assert(user_distinct_fn()(users_without(s, data.user_id)[a], users_without(
                s,
                data.user_id,
            )[b]));
        }
        lemma_filter_where_len(s, p);
        lemma_count_where_bounds(s, p);
    }
    db.users = kept;
    Ok(())
}

/// Identifier range of a user row, as a predicate value.
pub open spec fn user_wf_in_fn(next: i64) -> spec_fn(User) -> bool {
    |u: User| 1 <= u.id < next
}

/// Distinctness of two user rows, as a relation value.
pub open spec fn user_distinct_fn() -> spec_fn(User, User) -> bool {
    |a: User, b: User| a.id != b.id && a.username@ != b.username@
}

/// Fetches a session by its token.
pub fn get_session_by_token(data: GetSessionData, db: &Database) -> (r: Result<Session, AppError>)
    requires
        db.wf(),
    ensures
        r == match find_session(db.sessions@, data.token@) {
            Some(x) => Ok::<Session, AppError>(x),
            None => Err::<Session, AppError>(AppError::NotFound),
        },
{
    let ghost s = db.sessions@;
    let n = db.sessions.len();
    let mut i: usize = 0;
    while i < n
        invariant
            i <= n,
            n == s.len(),
            s == db.sessions@,
            forall|k: int| 0 <= k < i ==> (#[trigger] s[k]).token@ != data.token@,
        decreases n - i,
    {
        let x = &db.sessions[i];
        if x.token == data.token {
            proof {
                assert forall|k: int| 0 <= k < i implies !(#[trigger] session_token_fn(data.token@)(
                    s[k],
                )) by {
                    assert(session_token_fn(data.token@)(s[k]) == (s[k].token@ == data.token@));
                }
                assert(session_token_fn(data.token@)(s[i as int]));
                lemma_find_first_at(s, session_token_fn(data.token@), i as int);
            }
            return Ok(x.clone_session());
        }
        i += 1;
    }
    proof {
        assert forall|k: int| 0 <= k < s.len() implies !(#[trigger] session_token_fn(data.token@)(
            s[k],
        )) by {
            assert(session_token_fn(data.token@)(s[k]) == (s[k].token@ == data.token@));
        }
        lemma_find_first_none(s, session_token_fn(data.token@));
    }
    Err(AppError::NotFound)
}

/// Creates a session binding the token to the user. A token already bound
/// is refused, as the store's uniqueness constraint would refuse it.
pub fn create_session(data: SessionData, db: &mut Database) -> (r: Result<(), AppError>)
    requires
        old(db).wf(),
        old(db).next_session_id < i64::MAX,
    ensures
        final(db).wf(),
        (r is Ok) <==> (find_session(old(db).sessions@, data.token@) is None),
        r is Ok ==> ({
            &&& final(db).sessions@ == old(db).sessions@.push(
                Session {
                    id: old(db).next_session_id,
                    user_id: data.user_id,
                    token: data.token,
                },
            )
            &&& final(db).next_session_id == old(db).next_session_id + 1
            &&& *final(db) == (Database {
                sessions: final(db).sessions,
                next_session_id: final(db).next_session_id,
                ..*old(db)
            })
        }),
        r is Err ==> *final(db) == *old(db) && r == Err::<(), AppError>(AppError::Storage),
{
    let ghost s = db.sessions@;
    let n = db.sessions.len();
    let mut i: usize = 0;
    while i < n
        invariant
            i <= n,
            n == s.len(),
            s == db.sessions@,
            *db == *old(db),
            old(db).wf(),
            forall|k: int| 0 <= k < i ==> (#[trigger] s[k]).token@ != data.token@,
        decreases n - i,
    {
        let x = &db.sessions[i];
        if x.token == data.token {
            proof {
                assert forall|k: int| 0 <= k < i implies !(#[trigger] session_token_fn(data.token@)(
                    s[k],
                )) by {
                    assert(session_token_fn(data.token@)(s[k]) == (s[k].token@ == data.token@));
                }
                assert(session_token_fn(data.token@)(s[i as int]));
                lemma_find_first_at(s, session_token_fn(data.token@), i as int);
            }
            return Err(AppError::Storage);
        }
        i += 1;
    }
    proof {
        assert forall|k: int| 0 <= k < s.len() implies !(#[trigger] session_token_fn(data.token@)(
            s[k],
        )) by {
            assert(session_token_fn(data.token@)(s[k]) == (s[k].token@ == data.token@));
        }
        lemma_find_first_none(s, session_token_fn(data.token@));
    }
    let id = db.next_session_id;
    db.sessions.push(Session { id, user_id: data.user_id, token: data.token });
    db.next_session_id = id + 1;
    proof {
        assert forall|k: int| 0 <= k < db.sessions@.len() implies 1 <= (
        #[trigger] db.sessions@[k]).id < db.next_session_id by {
            if k < s.len() {
                assert(db.sessions@[k] == s[k]);
            }
        }
        assert forall|a: int, b: int|
            0 <= a < b < db.sessions@.len() implies db.sessions@[a].id != db.sessions@[b].id
            && db.sessions@[a].token@ != db.sessions@[b].token@ by {
            assert(db.sessions@[a] == s[a]);
            if b < s.len() {
                assert(db.sessions@[b] == s[b]);
            } else {
                assert(s[a].token@ != data.token@);
                assert(1 <= s[a].id < old(db).next_session_id);
            }
        }
    }
    Ok(())
}

/// Deletes every session bound to the token; an unknown token deletes
/// nothing.
pub fn delete_session(data: DeleteSessionData, db: &mut Database) -> (r: Result<(), AppError>)
    requires
        old(db).wf(),
    ensures
        final(db).wf(),
        r is Ok,
        final(db).sessions@ == sessions_without(old(db).sessions@, data.token@),
        *final(db) == (Database { sessions: final(db).sessions, ..*old(db) }),
{
    let ghost s = old(db).sessions@;
    let ghost p = keep_session_fn(data.token@);
    let mut kept: Vec<Session> = Vec::new();
    let n = db.sessions.len();
    proof {
        assert(s.take(0) =~= Seq::<Session>::empty());
    }
    let mut i: usize = 0;
    while i < n
        invariant
            i <= n,
            n == s.len(),
            s == db.sessions@,
            *db == *old(db),
            kept@ == sessions_without(s.take(i as int), data.token@),
        decreases n - i,
    {
        proof {
            lemma_filter_where_take_step(s, keep_session_fn(data.token@), i as int);
            assert(keep_session_fn(data.token@)(s[i as int]) == (s[i as int].token@
                != data.token@));
        }
        let x = &db.sessions[i];
        if !(x.token == data.token) {
            kept.push(x.clone_session());
        }
        i += 1;
    }
    proof {
        lemma_take_all(s);
        lemma_filter_where_preserves(s, p, session_wf_in_fn(old(db).next_session_id));
        assert forall|k: int| 0 <= k < s.len() implies session_wf_in_fn(old(db).next_session_id)(
            #[trigger] s[k],
        ) by {
            assert(1 <= s[k].id < old(db).next_session_id);
        }
        lemma_filter_where_pairwise(s, p, session_distinct_fn());
        assert forall|a: int, b: int|
            0 <= a < b < s.len() implies #[trigger] session_distinct_fn()(s[a], s[b]) by {
            assert(s[a].id != s[b].id && s[a].token@ != s[b].token@);
        }
        assert forall|a: int, b: int|
            0 <= a < b < sessions_without(s, data.token@).len() implies sessions_without(
            s,
            data.token@,
        )[a].id != sessions_without(s, data.token@)[b].id && sessions_without(s, data.token@)[
            a].token@ != sessions_without(s, data.token@)[b].token@ by {
            assert(session_distinct_fn()(sessions_without(s, data.token@)[a], sessions_without(
                s,
                data.token@,
            )[b]));
        }
        lemma_filter_where_len(s, p);
        lemma_count_where_bounds(s, p);
    }
    db.sessions = kept;
    Ok(())
}

/// Identifier range of a session row, as a predicate value.
pub open spec fn session_wf_in_fn(next: i64) -> spec_fn(Session) -> bool {
    |x: Session| 1 <= x.id < next
}

/// Distinctness of two session rows, as a relation value.
pub open spec fn session_distinct_fn() -> spec_fn(Session, Session) -> bool {
    |a: Session, b: Session| a.id != b.id && a.token@ != b.token@
}

/// What argon2's password verification returns for a given PHC hash string
/// and password: a fixed function of the two, named but not restated here.
pub uninterp spec fn password_matches(hash: Seq<char>, password: Seq<char>) -> bool;

/// Relies on argon2's `PasswordHasher::hash_password` (default Argon2
/// parameters, fresh random salt): on success the returned PHC-encoded
/// hash verifies against the password it was computed from, since
/// verification recomputes the hash from the parameters and salt encoded
/// in the string.
#[verifier::external_body]
pub fn hash_password(password: &str) -> (r: Result<String, AppError>)
    ensures
        r is Ok ==> password_matches(r->Ok_0@, password@),
{
    match argon2::Argon2::default().hash_password(password.as_bytes()) {
        Ok(h) => Ok(h.to_string()),
        Err(_) => Err(AppError::Crypto),
    }
}

/// Relies on argon2's `PasswordVerifier::verify_password` for `&str`
/// hashes: parses the PHC string, recomputes and compares; the outcome is
/// a function of the hash string and the password alone.
#[verifier::external_body]
pub fn verify_password(hash: &str, password: &str) -> (r: Result<(), AppError>)
    ensures
        (r is Ok) <==> password_matches(hash@, password@),
{
    match argon2::Argon2::default().verify_password(password.as_bytes(), hash) {
        Ok(()) => Ok(()),
        Err(_) => Err(AppError::Crypto),
    }
}

/// Relies on `rand::rng` and `TryRng::try_fill_bytes` on `ThreadRng`
/// (infallible): fills the buffer with 32 bytes from the thread's CSPRNG.
/// Nothing is promised about the values.
#[verifier::external_body]
fn random_bytes_32() -> (r: Vec<u8>)
    ensures
        r@.len() == 32,
{
    let mut bytes = vec![0u8; 32];
    let _ = rand::rng().try_fill_bytes(&mut bytes);
    bytes
}

/// What base64's URL-safe no-padding encoding yields for given bytes.
pub uninterp spec fn base64url_of(bytes: Seq<u8>) -> Seq<char>;

/// Membership in the URL-safe base64 alphabet.
pub open spec fn is_base64url_char(c: char) -> bool {
    ('A' <= c && c <= 'Z') || ('a' <= c && c <= 'z') || ('0' <= c && c <= '9') || c == '-' || c
        == '_'
}

/// Relies on base64's `Engine::encode` with `URL_SAFE_NO_PAD`: the ASCII
/// result is a function of the input bytes alone and, without padding,
/// has exactly ceil(4n/3) characters for n input bytes.
#[verifier::external_body]
fn base64url_encode(bytes: &Vec<u8>) -> (r: String)
    requires
        bytes@.len() * 4 + 2 <= usize::MAX,
    ensures
        r@ == base64url_of(bytes@),
        r@.len() == (bytes@.len() * 4 + 2) / 3,
        forall|i: int| 0 <= i < r@.len() ==> is_base64url_char(#[trigger] r@[i]),
{
    base64::engine::general_purpose::URL_SAFE_NO_PAD.encode(bytes)
}

/// Generates a session token: 32 bytes from a cryptographically secure
/// RNG, URL-safe base64 without padding — 43 characters, each from the
/// URL-safe alphabet.
pub fn generate_session_token() -> (t: String)
    ensures
        t@.len() == 43,
        forall|i: int| 0 <= i < t@.len() ==> is_base64url_char(#[trigger] t@[i]),
{
    let bytes = random_bytes_32();
    base64url_encode(&bytes)
}

/// The session a request's cookie token authenticates, if any: the
/// request handlers' contracts branch on this.
pub open spec fn session_of(db: Database, token: Option<&String>) -> Option<Session> {
    match token {
        None => None,
        Some(t) => find_session(db.sessions@, t@),
    }
}

/// Validates a request's session: a missing cookie token or one that no
/// session is bound to is `Unauthenticated`; otherwise the session, whose
/// `user_id` scopes everything the request may touch.
pub fn validate_session(token: Option<&String>, db: &Database) -> (r: Result<Session, AppError>)
    requires
        db.wf(),
    ensures
        r == match token {
            None => Err::<Session, AppError>(AppError::Unauthenticated),
            Some(t) => match find_session(db.sessions@, t@) {
                Some(x) => Ok::<Session, AppError>(x),
                None => Err::<Session, AppError>(AppError::Unauthenticated),
            },
        },
{
    match token {
        None => Err(AppError::Unauthenticated),
        Some(t) => match get_session_by_token(GetSessionData { token: t.clone() }, db) {
            Ok(x) => Ok(x),
            Err(_) => Err(AppError::Unauthenticated),
        },
    }
}

/// Logs a user in: the username must exist and the password must verify
/// against the stored hash, else `Unauthenticated` and an unchanged store;
/// on success a fresh random token is bound in a new session for that
/// user. The one remaining failure is a token collision, which the
/// session store refuses as `Storage`.
pub fn login_user(data: AuthData, db: &mut Database) -> (r: Result<Session, AppError>)
    requires
        old(db).wf(),
        old(db).next_session_id < i64::MAX,
    ensures
        final(db).wf(),
        ({
            let found = find_user_by_username(old(db).users@, data.username@);
            &&& (found is None) ==> r == Err::<Session, AppError>(AppError::Unauthenticated)
                && *final(db) == *old(db)
            &&& found matches Some(u) ==> ({
                &&& !password_matches(u.password@, data.password@) ==> r == Err::<
                    Session,
                    AppError,
                >(AppError::Unauthenticated) && *final(db) == *old(db)
                &&& password_matches(u.password@, data.password@) ==> ({
                    &&& r matches Ok(x) ==> ({
                        &&& x == (Session {
                            id: old(db).next_session_id,
                            user_id: u.id,
                            token: x.token,
                        })
                        &&& x.token@.len() == 43
                        &&& final(db).sessions@ == old(db).sessions@.push(x)
                        &&& final(db).next_session_id == old(db).next_session_id + 1
                        &&& *final(db) == (Database {
                            sessions: final(db).sessions,
                            next_session_id: final(db).next_session_id,
                            ..*old(db)
                        })
                    })
                    &&& r is Err ==> r == Err::<Session, AppError>(AppError::Storage)
                        && *final(db) == *old(db)
                })
            })
        }),
{
    let username = data.username.clone();
    let user = match get_user_by_username(GetUserData { username }, db) {
        Ok(u) => u,
        Err(_) => {
            return Err(AppError::Unauthenticated);
        },
    };
    match verify_password(user.password.as_str(), data.password.as_str()) {
        Ok(()) => (),
        Err(_) => {
            return Err(AppError::Unauthenticated);
        },
    }
    let token = generate_session_token();
    let session = Session { id: db.next_session_id, user_id: user.id, token: token.clone() };
    match create_session(SessionData { user_id: user.id, token }, db) {
        Ok(()) => Ok(session),
        Err(_) => Err(AppError::Storage),
    }
}

/// Registers a user: the password is hashed with a fresh salt and the
/// user stored under the next identifier. A taken username is refused
/// with `Storage`; a hashing failure with `Crypto`; either way the store
/// is unchanged.
pub fn register_user(data: AuthData, db: &mut Database) -> (r: Result<User, AppError>)
    requires
        old(db).wf(),
        old(db).next_user_id < i64::MAX,
    ensures
        final(db).wf(),
        (find_user_by_username(old(db).users@, data.username@) is Some) ==> r is Err,
        (find_user_by_username(old(db).users@, data.username@) is None) ==> (r is Ok || r
            == Err::<User, AppError>(AppError::Crypto)),
        r is Err ==> (r == Err::<User, AppError>(AppError::Crypto) || r == Err::<User, AppError>(
            AppError::Storage,
        )),
        r matches Ok(u) ==> ({
            &&& find_user_by_username(old(db).users@, data.username@) is None
            &&& u.id == old(db).next_user_id
            &&& u.username == data.username
            &&& password_matches(u.password@, data.password@)
            &&& final(db).users@ == old(db).users@.push(u)
            &&& final(db).next_user_id == old(db).next_user_id + 1
            &&& *final(db) == (Database {
                users: final(db).users,
                next_user_id: final(db).next_user_id,
                ..*old(db)
            })
        }),
        r is Err ==> *final(db) == *old(db),
{
    let password = match hash_password(data.password.as_str()) {
        Ok(h) => h,
        Err(_) => {
            return Err(AppError::Crypto);
        },
    };
    create_user(AuthData { username: data.username, password }, db)
}

/// Logs a user out: with a valid session token, every session bound to it
/// is deleted; without one, `Unauthenticated` and an unchanged store.
pub fn logout_user(token: Option<&String>, db: &mut Database) -> (r: Result<(), AppError>)
    requires
        old(db).wf(),
    ensures
        final(db).wf(),
        ({
            match token {
                None => r == Err::<(), AppError>(AppError::Unauthenticated) && *final(db) == *old(
                    db,
                ),
                Some(t) => match find_session(old(db).sessions@, t@) {
                    None => r == Err::<(), AppError>(AppError::Unauthenticated) && *final(db)
                        == *old(db),
                    Some(x) => r is Ok && final(db).sessions@ == sessions_without(
                        old(db).sessions@,
                        t@,
                    ) && *final(db) == (Database { sessions: final(db).sessions, ..*old(db) }),
                },
            }
        }),
{
    let session = match validate_session(token, db) {
        Ok(x) => x,
        Err(_) => {
            return Err(AppError::Unauthenticated);
        },
    };
    proof {
        if token is Some {
            let t = token->Some_0;
            lemma_find_first_some(old(db).sessions@, session_token_fn(t@));
            assert(session_token_fn(t@)(session));
        }
    }
    delete_session(DeleteSessionData { token: session.token }, db)
}

/// Changes the authenticated user's password: the new password is hashed
/// with a fresh salt and stored in the user's row; identity and username
/// stay. Without a valid session `Unauthenticated`; on a hashing failure
/// `Crypto`; either way the store is unchanged.
pub fn change_password(
    token: Option<&String>,
    data: UpdatePasswordRequestData,
    db: &mut Database,
) -> (r: Result<(), AppError>)
    requires
        old(db).wf(),
    ensures
        final(db).wf(),
        (match token {
            None => true,
            Some(t) => find_session(old(db).sessions@, t@) is None,
        }) ==> r == Err::<(), AppError>(AppError::Unauthenticated) && *final(db) == *old(db),
        session_of(*old(db), token) is Some ==> (r is Ok || r == Err::<(), AppError>(
            AppError::Crypto,
        )),
        r is Err ==> *final(db) == *old(db),
        r is Ok ==> ({
            let x = find_session(old(db).sessions@, token->Some_0@)->Some_0;
            &&& token is Some
            &&& find_session(old(db).sessions@, token->Some_0@) is Some
            &&& final(db).users@.len() == old(db).users@.len()
            &&& forall|i: int|
                0 <= i < old(db).users@.len() && old(db).users@[i].id != x.user_id
                    ==> #[trigger] final(db).users@[i] == old(db).users@[i]
            &&& forall|i: int|
                0 <= i < old(db).users@.len() && old(db).users@[i].id == x.user_id ==> ({
                    &&& (#[trigger] final(db).users@[i]).id == old(db).users@[i].id
                    &&& final(db).users@[i].username == old(db).users@[i].username
                    &&& password_matches(final(db).users@[i].password@, data.new_password@)
                })
            &&& *final(db) == (Database { users: final(db).users, ..*old(db) })
        }),
{
    let session = match validate_session(token, db) {
        Ok(x) => x,
        Err(_) => {
            return Err(AppError::Unauthenticated);
        },
    };
    let new_password = match hash_password(data.new_password.as_str()) {
        Ok(h) => h,
        Err(_) => {
            return Err(AppError::Crypto);
        },
    };
    update_user_password(UpdatePasswordData { user_id: session.user_id, new_password }, db)
}

/// Deletes the authenticated user and, cascading, their organizer
/// profile. Sessions are deliberately left in place. Without a
/// valid session `Unauthenticated` and an unchanged store.
pub fn remove_user(token: Option<&String>, db: &mut Database) -> (r: Result<(), AppError>)
    requires
        old(db).wf(),
    ensures
        final(db).wf(),
        (match token {
            None => true,
            Some(t) => find_session(old(db).sessions@, t@) is None,
        }) ==> r == Err::<(), AppError>(AppError::Unauthenticated) && *final(db) == *old(db),
        session_of(*old(db), token) is Some ==> r is Ok,
        r is Ok ==> ({
            let x = find_session(old(db).sessions@, token->Some_0@)->Some_0;
            &&& token is Some
            &&& find_session(old(db).sessions@, token->Some_0@) is Some
            &&& final(db).users@ == users_without(old(db).users@, x.user_id)
            &&& final(db).organizers@ == organizers_without(old(db).organizers@, x.user_id)
            &&& *final(db) == (Database {
                users: final(db).users,
                organizers: final(db).organizers,
                ..*old(db)
            })
        }),
        r is Err ==> *final(db) == *old(db),
{
    let session = match validate_session(token, db) {
        Ok(x) => x,
        Err(_) => {
            return Err(AppError::Unauthenticated);
        },
    };
    match delete_user(DeleteUserData { user_id: session.user_id }, db) {
        Ok(()) => (),
        Err(e) => {
            return Err(e);
        },
    }
    delete_organizer(DeleteOrganizerData { organizer_id: session.user_id }, db)
}

/// Reports the authenticated user's profile: username, and the organizer
/// profile fields where an organizer row exists — otherwise the empty
/// placeholder profile. An unknown user behind a live session is
/// `Unauthenticated`.
pub fn check_auth_status(token: Option<&String>, db: &Database) -> (r: Result<UserData, AppError>)
    requires
        db.wf(),
    ensures
        (match token {
            None => true,
            Some(t) => find_session(db.sessions@, t@) is None,
        }) ==> r == Err::<UserData, AppError>(AppError::Unauthenticated),
        token matches Some(t) ==> match find_session(db.sessions@, t@) {
            None => true,
            Some(x) => match find_user_by_id(db.users@, x.user_id) {
                None => r == Err::<UserData, AppError>(AppError::Unauthenticated),
                Some(u) => ({
                    &&& r is Ok
                    &&& r->Ok_0.username == u.username
                    &&& match find_organizer(db.organizers@, x.user_id) {
                        Some(o) => r->Ok_0.name == o.name && r->Ok_0.logo == o.logo
                            && r->Ok_0.website == o.website,
                        None => r->Ok_0.name@ == Seq::<char>::empty() && r->Ok_0.logo is None
                            && r->Ok_0.website is None,
                    }
                }),
            },
        },
{
    let session = match validate_session(token, db) {
        Ok(x) => x,
        Err(_) => {
            return Err(AppError::Unauthenticated);
        },
    };
    let organizer_info = match fetch_organizer(
        GetOrganizerData { organizer_id: session.user_id },
        db,
    ) {
        Ok(o) => o,
        Err(_) => Organizer::default(),
    };
    match get_user_by_id(GetUserIDData { id: session.user_id }, db) {
        Ok(user) => Ok(
            UserData {
                username: user.username,
                name: organizer_info.name,
                logo: organizer_info.logo,
                website: organizer_info.website,
            },
        ),
        Err(_) => Err(AppError::Unauthenticated),
    }
}

} // verus!
