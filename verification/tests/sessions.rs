use volts::db::Database;
use volts::error::{Credential, Error};
use volts::models::NewTokenPayload;
use volts::session::{
    authenticated_user, check_oauth_state, list, logout, me, new, new_session, revoke,
    session_authorize, Session, SessionStore, SESSION_COOKIE_NAME,
};

fn signed_in() -> (SessionStore, Database) {
    let mut store = SessionStore::new();
    let mut db = Database::new();
    new_session(&mut store, "h1", "state-1", "https://provider/authorize?state=state-1");
    check_oauth_state(&mut store, "h1", "state-1", 0).unwrap();
    session_authorize(&mut store, &mut db, "h1", 7, "alice", "gho_1", 0).unwrap();
    (store, db)
}

#[test]
fn a_new_session_keeps_the_state_and_hands_out_the_cookie() {
    let mut store = SessionStore::new();
    let (answer, cookie) = new_session(&mut store, "h1", "s1", "https://p/?state=s1");
    assert_eq!(answer.url, "https://p/?state=s1");
    assert_eq!(answer.state, "s1");
    assert_eq!(cookie, "session=h1; Path=/");
    assert_eq!(SESSION_COOKIE_NAME, "session");
    assert_eq!(
        store.sessions(),
        &vec![Session {
            handle: "h1".to_string(),
            oauth_state: Some("s1".to_string()),
            state_checked: false,
            user_id: None,
            expires_at: None
        }]
    );
    new_session(&mut store, "h1", "s2", "u");
    assert_eq!(store.sessions().len(), 1);
    assert_eq!(store.sessions()[0].oauth_state, Some("s2".to_string()));
}

#[test]
fn a_state_that_differs_is_a_mismatch_and_a_state_is_checked_once() {
    let mut store = SessionStore::new();
    new_session(&mut store, "h1", "s1", "u");
    new_session(&mut store, "h2", "s2", "u");
    assert_eq!(check_oauth_state(&mut store, "h1", "s2", 0), Err(Error::StateMismatch));
    assert_eq!(store.sessions().len(), 1);
    assert_eq!(store.sessions()[0].handle, "h2");
    assert_eq!(
        check_oauth_state(&mut store, "h1", "s1", 0),
        Err(Error::Unauthorized(Credential::Session))
    );
    assert_eq!(check_oauth_state(&mut store, "h2", "s2", 0), Ok(()));
    assert_eq!(store.sessions()[0].oauth_state, None);
    assert!(store.sessions()[0].state_checked);
    assert_eq!(check_oauth_state(&mut store, "h2", "s2", 0), Err(Error::StateMismatch));
    assert!(store.sessions().is_empty());
    assert_eq!(check_oauth_state(&mut store, "h3", "s2", 0), Err(Error::Unauthorized(Credential::Session)));
    assert_eq!(Error::StateMismatch.status_code(), 400);
}

#[test]
fn sign_in_records_the_account_in_the_session() {
    let (mut store, mut db) = signed_in();
    assert_eq!(store.sessions()[0].user_id, Some(1));
    let u = authenticated_user(&store, &db, Some("h1"), 5).unwrap();
    assert_eq!((u.id, u.gh_id, u.gh_login.as_str()), (1, 7, "alice"));
    assert_eq!(me(&store, &db, Some("h1"), 5).unwrap().login, "alice");

    new_session(&mut store, "h2", "s", "u");
    assert_eq!(
        session_authorize(&mut store, &mut db, "h2", 8, "bob", "t", 9),
        Err(Error::StateMismatch)
    );
    assert_eq!(db.users().len(), 1);
    assert_eq!(store.sessions()[1].user_id, None);
    check_oauth_state(&mut store, "h2", "s", 9).unwrap();
    let again = session_authorize(&mut store, &mut db, "h2", 7, "alice-renamed", "gho_2", 9).unwrap();
    assert_eq!(
        session_authorize(&mut store, &mut db, "h2", 7, "alice-renamed", "gho_2", 9),
        Err(Error::StateMismatch)
    );
    assert_eq!(again.id, 1);
    assert_eq!(db.users().len(), 1);
    assert_eq!(me(&store, &db, Some("h1"), 9).unwrap().login, "alice-renamed");
    assert_eq!(
        session_authorize(&mut store, &mut db, "nope", 8, "bob", "t", 9),
        Err(Error::Unauthorized(Credential::Session))
    );
    assert_eq!(db.users().len(), 1);
}

#[test]
fn no_account_without_cookie_session_or_sign_in() {
    let (mut store, db) = signed_in();
    assert_eq!(authenticated_user(&store, &db, None, 0), None);
    assert_eq!(authenticated_user(&store, &db, Some("other"), 0), None);
    new_session(&mut store, "fresh", "s", "u");
    assert_eq!(authenticated_user(&store, &db, Some("fresh"), 0), None);
    assert_eq!(me(&store, &db, Some("fresh"), 0), Err(Error::Unauthorized(Credential::Session)));
    assert_eq!(authenticated_user(&store, &Database::new(), Some("h1"), 0), None);

    assert_eq!(logout(&mut store, "h1", 0), Ok(()));
    assert_eq!(authenticated_user(&store, &db, Some("h1"), 0), None);
    assert_eq!(store.sessions()[0].handle, "h1");
    assert_eq!(logout(&mut store, "gone", 0), Err(Error::Unauthorized(Credential::Session)));
}

#[test]
fn an_ended_session_is_no_session() {
    let (mut store, db) = signed_in();
    let mut s = store.load_session("h1", 0).unwrap();
    s.expires_at = Some(100);
    store.store_session(s);
    assert!(authenticated_user(&store, &db, Some("h1"), 99).is_some());
    assert!(authenticated_user(&store, &db, Some("h1"), 100).is_none());
    assert_eq!(store.load_session("h1", 101), None);
    assert_eq!(check_oauth_state(&mut store, "h1", "x", 100), Err(Error::Unauthorized(Credential::Session)));
}

#[test]
fn tokens_of_the_signed_in_account() {
    let (store, mut db) = signed_in();
    let payload = NewTokenPayload { name: "ci".to_string() };
    let made = new(&store, &mut db, Some("h1"), &payload, 50).unwrap();
    assert_eq!(made.token.name, "ci");
    assert_eq!(made.token.user_id, 1);
    assert_eq!(made.plaintext.len(), 32);
    let second = new(&store, &mut db, Some("h1"), &payload, 60).unwrap();
    assert_ne!(second.plaintext, made.plaintext);
    assert_eq!(new(&store, &mut db, None, &payload, 50), Err(Error::Unauthorized(Credential::Session)));

    let l = list(&store, &db, Some("h1"), 70).unwrap();
    let ids: Vec<i32> = l.api_tokens.iter().map(|t| t.id).collect();
    assert_eq!(ids, vec![second.token.id, made.token.id]);
    assert_eq!(list(&store, &db, Some("x"), 70), Err(Error::Unauthorized(Credential::Session)));

    assert_eq!(revoke(&store, &mut db, Some("h1"), made.token.id, 80), Ok(()));
    assert_eq!(revoke(&store, &mut db, Some("h1"), 999, 80), Err(Error::NotFound));
    assert_eq!(revoke(&store, &mut db, None, second.token.id, 80), Err(Error::Unauthorized(Credential::Session)));
    let l = list(&store, &db, Some("h1"), 90).unwrap();
    assert_eq!(l.api_tokens.len(), 1);
    assert_eq!(l.api_tokens[0].id, second.token.id);
    assert_eq!(volts::db::find_api_token(&mut db, &made.plaintext, 95), Err(Error::NotFound));
    assert!(volts::db::find_api_token(&mut db, &second.plaintext, 95).is_ok());
}
