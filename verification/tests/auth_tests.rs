use eventdesk::auth::{
    change_password, check_auth_status, create_session, delete_session, generate_session_token,
    get_session_by_token, get_user_by_username, hash_password, login_user, logout_user,
    register_user, remove_user, validate_session, verify_password, AuthData, DeleteSessionData,
    GetSessionData, GetUserData, SessionData, UpdatePasswordRequestData,
};
use eventdesk::organizer::{register_organizer, OrganizerData};
use eventdesk::store::Database;
use eventdesk::AppError;

fn err_of<T>(r: Result<T, AppError>) -> AppError {
    match r {
        Err(e) => e,
        Ok(_) => panic!("expected an error"),
    }
}

#[test]
fn token_is_43_urlsafe_chars() {
    let t = generate_session_token();
    assert_eq!(t.len(), 43);
    assert!(t
        .chars()
        .all(|c| c.is_ascii_alphanumeric() || c == '-' || c == '_'));
}

#[test]
fn two_tokens_differ() {
    // 256-bit tokens collide with negligible probability
    let a = generate_session_token();
    let b = generate_session_token();
    assert_ne!(a, b);
}

#[test]
fn hash_then_verify_roundtrip() {
    let hash = hash_password("open sesame").unwrap();
    assert!(hash.starts_with("$argon2"));
    assert!(verify_password(&hash, "open sesame").is_ok());
    assert!(verify_password(&hash, "open sesam").is_err());
}

#[test]
fn register_stores_hash_not_plaintext() {
    let mut db = Database::new();
    let user = register_user(
        AuthData { username: "ada".to_string(), password: "hunter2".to_string() },
        &mut db,
    )
    .unwrap();
    assert_eq!(user.id, 1);
    assert_eq!(user.username, "ada");
    assert_ne!(user.password, "hunter2");
    let stored = get_user_by_username(GetUserData { username: "ada".to_string() }, &db).unwrap();
    assert!(verify_password(&stored.password, "hunter2").is_ok());
}

#[test]
fn register_duplicate_username_is_storage_error() {
    let mut db = Database::new();
    register_user(
        AuthData { username: "ada".to_string(), password: "pw1".to_string() },
        &mut db,
    )
    .unwrap();
    let again = register_user(
        AuthData { username: "ada".to_string(), password: "pw2".to_string() },
        &mut db,
    );
    assert_eq!(err_of(again), AppError::Storage);
    assert_eq!(db.users.len(), 1);
}

#[test]
fn login_with_right_password_creates_session() {
    let mut db = Database::new();
    register_user(
        AuthData { username: "ada".to_string(), password: "hunter2".to_string() },
        &mut db,
    )
    .unwrap();
    let session = login_user(
        AuthData { username: "ada".to_string(), password: "hunter2".to_string() },
        &mut db,
    )
    .unwrap();
    assert_eq!(session.user_id, 1);
    assert_eq!(session.token.len(), 43);
    let looked_up =
        get_session_by_token(GetSessionData { token: session.token.clone() }, &db).unwrap();
    assert_eq!(looked_up.user_id, 1);
}

#[test]
fn login_with_wrong_password_fails() {
    let mut db = Database::new();
    register_user(
        AuthData { username: "ada".to_string(), password: "hunter2".to_string() },
        &mut db,
    )
    .unwrap();
    let attempt = login_user(
        AuthData { username: "ada".to_string(), password: "hunter3".to_string() },
        &mut db,
    );
    assert_eq!(err_of(attempt), AppError::Unauthenticated);
    assert_eq!(db.sessions.len(), 0);
}

#[test]
fn login_with_unknown_username_fails() {
    let mut db = Database::new();
    let attempt = login_user(
        AuthData { username: "ghost".to_string(), password: "pw".to_string() },
        &mut db,
    );
    assert_eq!(err_of(attempt), AppError::Unauthenticated);
}

#[test]
fn session_lifecycle_create_lookup_delete() {
    let mut db = Database::new();
    create_session(SessionData { user_id: 7, token: "tok-a".to_string() }, &mut db).unwrap();
    let s = get_session_by_token(GetSessionData { token: "tok-a".to_string() }, &db).unwrap();
    assert_eq!(s.user_id, 7);
    delete_session(DeleteSessionData { token: "tok-a".to_string() }, &mut db).unwrap();
    let gone = get_session_by_token(GetSessionData { token: "tok-a".to_string() }, &db);
    assert_eq!(err_of(gone), AppError::NotFound);
}

#[test]
fn duplicate_session_token_is_storage_error() {
    let mut db = Database::new();
    create_session(SessionData { user_id: 1, token: "tok".to_string() }, &mut db).unwrap();
    let again = create_session(SessionData { user_id: 2, token: "tok".to_string() }, &mut db);
    assert_eq!(again, Err(AppError::Storage));
    assert_eq!(db.sessions.len(), 1);
}

#[test]
fn validate_session_without_cookie_fails() {
    let db = Database::new();
    assert_eq!(err_of(validate_session(None, &db)), AppError::Unauthenticated);
    let bogus = "no-such-token".to_string();
    assert_eq!(
        err_of(validate_session(Some(&bogus), &db)),
        AppError::Unauthenticated
    );
}

#[test]
fn logout_deletes_the_session() {
    let mut db = Database::new();
    create_session(SessionData { user_id: 3, token: "tok".to_string() }, &mut db).unwrap();
    let tok = "tok".to_string();
    logout_user(Some(&tok), &mut db).unwrap();
    assert_eq!(db.sessions.len(), 0);
    assert_eq!(logout_user(Some(&tok), &mut db), Err(AppError::Unauthenticated));
}

#[test]
fn change_password_replaces_the_hash() {
    let mut db = Database::new();
    register_user(
        AuthData { username: "ada".to_string(), password: "old-pw".to_string() },
        &mut db,
    )
    .unwrap();
    login_user(
        AuthData { username: "ada".to_string(), password: "old-pw".to_string() },
        &mut db,
    )
    .unwrap();
    let token = db.sessions[0].token.clone();
    change_password(
        Some(&token),
        UpdatePasswordRequestData { new_password: "new-pw".to_string() },
        &mut db,
    )
    .unwrap();
    let stored = get_user_by_username(GetUserData { username: "ada".to_string() }, &db).unwrap();
    assert!(verify_password(&stored.password, "new-pw").is_ok());
    assert!(verify_password(&stored.password, "old-pw").is_err());
}

#[test]
fn remove_user_cascades_to_organizer() {
    let mut db = Database::new();
    register_user(
        AuthData { username: "ada".to_string(), password: "pw".to_string() },
        &mut db,
    )
    .unwrap();
    create_session(SessionData { user_id: 1, token: "tok".to_string() }, &mut db).unwrap();
    let tok = "tok".to_string();
    register_organizer(
        Some(&tok),
        OrganizerData { name: "Ada Events".to_string(), logo: None, website: None },
        &mut db,
    )
    .unwrap();
    assert_eq!(db.users.len(), 1);
    assert_eq!(db.organizers.len(), 1);
    remove_user(Some(&tok), &mut db).unwrap();
    assert_eq!(db.users.len(), 0);
    assert_eq!(db.organizers.len(), 0);
}

#[test]
fn auth_status_reports_profile() {
    let mut db = Database::new();
    register_user(
        AuthData { username: "ada".to_string(), password: "pw".to_string() },
        &mut db,
    )
    .unwrap();
    create_session(SessionData { user_id: 1, token: "tok".to_string() }, &mut db).unwrap();
    let tok = "tok".to_string();
    // without an organizer profile the placeholder is reported
    let status = check_auth_status(Some(&tok), &db).unwrap();
    assert_eq!(status.username, "ada");
    assert_eq!(status.name, "");
    register_organizer(
        Some(&tok),
        OrganizerData {
            name: "Ada Events".to_string(),
            logo: Some("logo.png".to_string()),
            website: None,
        },
        &mut db,
    )
    .unwrap();
    let status = check_auth_status(Some(&tok), &db).unwrap();
    assert_eq!(status.name, "Ada Events");
    assert_eq!(status.logo, Some("logo.png".to_string()));
    assert_eq!(status.website, None);
}
