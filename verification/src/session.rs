//! Sessions and sign-in: the anti-forgery state of an OAuth exchange and the
//! account a session is signed in to.
//!
//! The provider is reached from outside this library. A sign-in is two steps
//! here: [`check_oauth_state`] before the code is exchanged, and
//! [`session_authorize`] once the provider has named the account.

use crate::db::{
    find_user, insert_token, list_tokens, revoke_token, token_views, user_has_id, Database,
    DbView, NewUser,
};
use crate::error::{Credential, Error, ErrorView};
use crate::models::{
    opt_view, ApiTokenList, ApiTokenView, EncodeApiToken, MeUser, NewSessionResponse,
    NewTokenPayload, User, UserView,
};
use crate::seqs::{first_match, lemma_first_match_absent, lemma_first_match_found};
use crate::text::same_text;
use vstd::prelude::*;
use vstd::string::*;

verus! {

/// The name of the cookie that carries the session handle.
pub const SESSION_COOKIE_NAME: &'static str = "session";

/// One session.
#[derive(Clone, Debug, PartialEq, Eq)]
pub struct Session {
    /// The opaque handle the client presents.
    pub handle: String,
    /// The anti-forgery state of a sign-in that was begun and not completed.
    pub oauth_state: Option<String>,
    /// Whether the state of the sign-in that was begun last has been
    /// checked and found right, and no account was signed in since.
    pub state_checked: bool,
    /// The account the session is signed in to.
    pub user_id: Option<i32>,
    /// When the session ends, where it does.
    pub expires_at: Option<i64>,
}

/// A [`Session`] as contracts see it.
pub struct SessionView {
    pub handle: Seq<char>,
    pub oauth_state: Option<Seq<char>>,
    pub state_checked: bool,
    pub user_id: Option<i32>,
    pub expires_at: Option<i64>,
}

impl View for Session {
    type V = SessionView;

    open spec fn view(&self) -> SessionView {
        SessionView {
            handle: self.handle@,
            oauth_state: opt_view(self.oauth_state),
            state_checked: self.state_checked,
            user_id: self.user_id,
            expires_at: self.expires_at,
        }
    }
}

impl Session {
    /// A copy with the same contents.
    pub fn duplicate(&self) -> (r: Session)
        ensures
            r@ == self@,
    {
        Session {
            handle: self.handle.clone(),
            oauth_state: crate::models::duplicate_opt(&self.oauth_state),
            state_checked: self.state_checked,
            user_id: self.user_id,
            expires_at: self.expires_at,
        }
    }
}

/// The sessions of a list, as contracts see them.
pub open spec fn sessions_view(s: Seq<Session>) -> Seq<SessionView> {
    s.map_values(|x: Session| x@)
}

/// The session with a given handle.
pub open spec fn session_is(handle: Seq<char>) -> spec_fn(SessionView) -> bool {
    |s: SessionView| s.handle == handle
}

/// Whether a session has ended by `now`.
pub open spec fn has_expired(s: SessionView, now: i64) -> bool {
    s.expires_at matches Some(t) && t <= now
}

/// The session a handle names at time `now`: none where there is no such
/// session or it has ended.
pub open spec fn live_session(sessions: Seq<SessionView>, handle: Seq<char>, now: i64) -> Option<
    int,
> {
    match first_match(sessions, session_is(handle)) {
        Some(i) => if has_expired(sessions[i], now) {
            None
        } else {
            Some(i)
        },
        None => None,
    }
}

/// The store with `s` under its handle: in place of the session that was
/// there, or behind the others.
pub open spec fn sessions_put(sessions: Seq<SessionView>, s: SessionView) -> Seq<SessionView> {
    match first_match(sessions, session_is(s.handle)) {
        Some(i) => sessions.update(i, s),
        None => sessions.push(s),
    }
}

/// No two sessions share a handle.
pub open spec fn sessions_wf(sessions: Seq<SessionView>) -> bool {
    forall|i: int, j: int|
        0 <= i < j < sessions.len() ==> (#[trigger] sessions[i]).handle != (
        #[trigger] sessions[j]).handle
}

/// Putting a session keeps handles distinct and makes it the session under
/// its handle.
pub proof fn lemma_sessions_put(sessions: Seq<SessionView>, s: SessionView)
    requires
        sessions_wf(sessions),
    ensures
        sessions_wf(sessions_put(sessions, s)),
        first_match(sessions_put(sessions, s), session_is(s.handle)) matches Some(i)
            && sessions_put(sessions, s)[i] == s,
{
    crate::seqs::lemma_first_match_means(sessions, session_is(s.handle), 0);
    let out = sessions_put(sessions, s);
    let k = match first_match(sessions, session_is(s.handle)) {
        Some(i) => i,
        None => sessions.len() as int,
    };
    assert(out[k] == s);
    assert forall|j: int| 0 <= j < k implies !session_is(s.handle)(#[trigger] out[j]) by {
        assert(out[j] == sessions[j]);
    }
    lemma_first_match_found(out, session_is(s.handle), 0, k);
}

/// The session store.
pub struct SessionStore {
    sessions: Vec<Session>,
}

impl View for SessionStore {
    type V = Seq<SessionView>;

    closed spec fn view(&self) -> Seq<SessionView> {
        sessions_view(self.sessions@)
    }
}

impl SessionStore {
    /// An empty store.
    pub fn new() -> (r: SessionStore)
        ensures
            r@ == Seq::<SessionView>::empty(),
            sessions_wf(r@),
    {
        let sessions: Vec<Session> = Vec::new();
        assert(sessions_view(sessions@) =~= Seq::<SessionView>::empty());
        SessionStore { sessions }
    }

    fn index_of(&self, handle: &str) -> (r: Option<usize>)
        ensures
            crate::db::index_agrees(r, first_match(self@, session_is(handle@))),
            r matches Some(i) ==> i < self.sessions.len(),
    {
        let mut i: usize = 0;
        while i < self.sessions.len()
            invariant
                i <= self.sessions.len(),
                forall|j: int| 0 <= j < i ==> self.sessions@[j].handle@ != handle@,
            decreases self.sessions.len() - i,
        {
            if same_text(self.sessions[i].handle.as_str(), handle) {
                proof {
                    lemma_first_match_found(self@, session_is(handle@), 0, i as int);
                }
                return Some(i);
            }
            i += 1;
        }
        proof {
            lemma_first_match_absent(self@, session_is(handle@), 0);
        }
        None
    }

    /// Stores a session under its handle, over what was there.
    pub fn store_session(&mut self, s: Session)
        requires
            sessions_wf(old(self)@),
        ensures
            final(self)@ == sessions_put(old(self)@, s@),
            sessions_wf(final(self)@),
    {
        proof {
            lemma_sessions_put(self@, s@);
        }
        match self.index_of(s.handle.as_str()) {
            Some(i) => {
                assert(sessions_view(self.sessions@.update(i as int, s)) =~= sessions_put(
                    old(self)@,
                    s@,
                ));
                self.sessions.set(i, s);
            },
            None => {
                assert(sessions_view(self.sessions@.push(s)) =~= sessions_put(old(self)@, s@));
                self.sessions.push(s);
            },
        }
    }

    /// Ends the session a handle names: takes it out of the store.
    pub fn end_session(&mut self, handle: &str)
        requires
            sessions_wf(old(self)@),
        ensures
            sessions_wf(final(self)@),
            final(self)@ == match first_match(old(self)@, session_is(handle@)) {
                Some(i) => old(self)@.remove(i),
                None => old(self)@,
            },
    {
        match self.index_of(handle) {
            Some(i) => {
                proof {
                    lemma_sessions_remove(self@, i as int);
                    assert(sessions_view(self.sessions@.remove(i as int)) =~= self@.remove(i as int));
                }
                self.sessions.remove(i);
            },
            None => {},
        }
    }

    /// The session a handle names at time `now`.
    pub fn load_session(&self, handle: &str, now: i64) -> (r: Option<Session>)
        ensures
            match r {
                Some(s) => live_session(self@, handle@, now) matches Some(i) && self@[i] == s@,
                None => live_session(self@, handle@, now) is None,
            },
    {
        match self.index_of(handle) {
            Some(i) => {
                let s = &self.sessions[i];
                let ended = match s.expires_at {
                    Some(t) => t <= now,
                    None => false,
                };
                if ended {
                    None
                } else {
                    Some(s.duplicate())
                }
            },
            None => None,
        }
    }

    /// The sessions, in the order their handles were first used.
    pub fn sessions(&self) -> (r: &Vec<Session>)
        ensures
            sessions_view(r@) == self@,
    {
        &self.sessions
    }
}

/// The `Set-Cookie` value that hands a session handle to the client.
pub open spec fn cookie_of(handle: Seq<char>) -> Seq<char> {
    SESSION_COOKIE_NAME@ + "="@ + handle + "; Path=/"@
}

/// The session a sign-in begins with.
pub open spec fn begun_session(handle: Seq<char>, state: Seq<char>) -> SessionView {
    SessionView {
        handle,
        oauth_state: Some(state),
        state_checked: false,
        user_id: None,
        expires_at: None,
    }
}

/// Begins a sign-in: keeps the anti-forgery `state` under a fresh session
/// `handle` and answers with the provider's `url` and the state. The handle,
/// the state and the URL are made outside: the first two at random, the URL
/// by the OAuth client with the state in it. Returns the answer and the
/// `Set-Cookie` value.
pub fn new_session(store: &mut SessionStore, handle: &str, state: &str, url: &str) -> (r: (
    NewSessionResponse,
    String,
))
    requires
        sessions_wf(old(store)@),
    ensures
        sessions_wf(final(store)@),
        final(store)@ == sessions_put(old(store)@, begun_session(handle@, state@)),
        r.0.url@ == url@,
        r.0.state@ == state@,
        r.1@ == cookie_of(handle@),
{
    store.store_session(
        Session {
            handle: handle.to_owned(),
            oauth_state: Some(state.to_owned()),
            state_checked: false,
            user_id: None,
            expires_at: None,
        },
    );
    let mut cookie = SESSION_COOKIE_NAME.to_owned();
    cookie.append("=");
    cookie.append(handle);
    cookie.append("; Path=/");
    (NewSessionResponse { url: url.to_owned(), state: state.to_owned() }, cookie)
}

/// What checking the returned state comes to: a handle that names no live
/// session is `Unauthorized`; otherwise the state kept for the session is
/// taken out of it. Where it was the returned one, the session is marked as
/// checked; where it was not, the check fails with `StateMismatch` and the
/// session ends.
pub open spec fn state_check(
    sessions: Seq<SessionView>,
    handle: Seq<char>,
    returned: Seq<char>,
    now: i64,
) -> (Seq<SessionView>, Result<(), ErrorView>) {
    match live_session(sessions, handle, now) {
        None => (sessions, Err(ErrorView::Unauthorized(Credential::Session))),
        Some(i) => {
            if sessions[i].oauth_state == Some(returned) {
                (
                    sessions.update(
                        i,
                        SessionView { oauth_state: None, state_checked: true, ..sessions[i] },
                    ),
                    Ok(()),
                )
            } else {
                (sessions.remove(i), Err(ErrorView::StateMismatch))
            }
        },
    }
}

/// Taking a session out keeps handles distinct.
pub proof fn lemma_sessions_remove(sessions: Seq<SessionView>, i: int)
    requires
        sessions_wf(sessions),
        0 <= i < sessions.len(),
    ensures
        sessions_wf(sessions.remove(i)),
{
    let out = sessions.remove(i);
    assert forall|a: int, b: int| 0 <= a < b < out.len() implies (#[trigger] out[a]).handle != (
    #[trigger] out[b]).handle by {
        let x = if a < i {
            a
        } else {
            a + 1
        };
        let y = if b < i {
            b
        } else {
            b + 1
        };
        assert(out[a] == sessions[x] && out[b] == sessions[y]);
    }
}

/// Checks the state a provider handed back against the one kept for the
/// session. A state can be checked once, and a wrong one ends the session.
pub fn check_oauth_state(store: &mut SessionStore, handle: &str, returned_state: &str, now: i64) -> (r:
    Result<(), Error>)
    requires
        sessions_wf(old(store)@),
    ensures
        sessions_wf(final(store)@),
        (final(store)@, crate::db::unit_result_view(r)) == state_check(
            old(store)@,
            handle@,
            returned_state@,
            now,
        ),
{
    let s = match store.load_session(handle, now) {
        Some(s) => s,
        None => {
            return Err(Error::Unauthorized(Credential::Session));
        },
    };
    let matched = match &s.oauth_state {
        Some(kept) => same_text(kept.as_str(), returned_state),
        None => false,
    };
    let ghost before = store@;
    let ghost i = first_match(before, session_is(handle@))->Some_0;
    proof {
        crate::seqs::lemma_first_match_means(before, session_is(handle@), 0);
    }
    if matched {
        let checked = Session {
            handle: s.handle,
            oauth_state: None,
            state_checked: true,
            user_id: s.user_id,
            expires_at: s.expires_at,
        };
        store.store_session(checked);
        assert(store@ =~= before.update(
            i,
            SessionView { oauth_state: None, state_checked: true, ..before[i] },
        ));
        Ok(())
    } else {
        store.end_session(handle);
        Err(Error::StateMismatch)
    }
}

/// What completing a sign-in comes to: the account is upserted and the
/// session signed in to it. Without a live session the sign-in is
/// `Unauthorized`, and for a session whose state was not checked and found
/// right since its sign-in began it is `StateMismatch`; then, and where the
/// account cannot be kept, no session changes. A check is good for one
/// sign-in.
pub open spec fn authorize_outcome(
    sessions: Seq<SessionView>,
    db: DbView,
    handle: Seq<char>,
    gh_id: i32,
    gh_login: Seq<char>,
    access_token: Seq<char>,
    now: i64,
) -> (Seq<SessionView>, DbView, Result<UserView, ErrorView>) {
    match live_session(sessions, handle, now) {
        None => (sessions, db, Err(ErrorView::Unauthorized(Credential::Session))),
        Some(i) => if !sessions[i].state_checked {
            (sessions, db, Err(ErrorView::StateMismatch))
        } else {
            let (db1, r) = db.upsert_user(gh_id, gh_login, access_token);
            match r {
                Err(e) => (sessions, db1, Err(e)),
                Ok(u) => (
                    sessions.update(
                        i,
                        SessionView { user_id: Some(u.id), state_checked: false, ..sessions[i] },
                    ),
                    db1,
                    Ok(u),
                ),
            }
        },
    }
}

/// Completes a sign-in with the account the provider named.
pub fn session_authorize(
    store: &mut SessionStore,
    db: &mut Database,
    handle: &str,
    gh_id: i32,
    gh_login: &str,
    access_token: &str,
    now: i64,
) -> (r: Result<User, Error>)
    requires
        sessions_wf(old(store)@),
        old(db)@.wf(),
    ensures
        sessions_wf(final(store)@),
        final(db)@.wf(),
        (final(store)@, final(db)@, crate::db::result_view(r)) == authorize_outcome(
            old(store)@,
            old(db)@,
            handle@,
            gh_id,
            gh_login@,
            access_token@,
            now,
        ),
{
    let s = match store.load_session(handle, now) {
        Some(s) => s,
        None => {
            return Err(Error::Unauthorized(Credential::Session));
        },
    };
    if !s.state_checked {
        return Err(Error::StateMismatch);
    }
    let user = match NewUser::new(gh_id, gh_login, access_token).create_or_update(db) {
        Ok(u) => u,
        Err(e) => {
            return Err(e);
        },
    };
    let ghost before = store@;
    let ghost i = first_match(before, session_is(handle@))->Some_0;
    proof {
        crate::seqs::lemma_first_match_means(before, session_is(handle@), 0);
    }
    let signed_in = Session {
        handle: s.handle,
        oauth_state: s.oauth_state,
        state_checked: false,
        user_id: Some(user.id),
        expires_at: s.expires_at,
    };
    store.store_session(signed_in);
    assert(store@ =~= before.update(
        i,
        SessionView { user_id: Some(user.id), state_checked: false, ..before[i] },
    ));
    Ok(user)
}

/// Signs a session out: it stays, without an account.
pub fn logout(store: &mut SessionStore, handle: &str, now: i64) -> (r: Result<(), Error>)
    requires
        sessions_wf(old(store)@),
    ensures
        sessions_wf(final(store)@),
        match live_session(old(store)@, handle@, now) {
            Some(i) => r is Ok && final(store)@ == old(store)@.update(
                i,
                SessionView { user_id: None, ..old(store)@[i] },
            ),
            None => r matches Err(e) && e@ is Unauthorized && final(store)@ == old(store)@,
        },
{
    let s = match store.load_session(handle, now) {
        Some(s) => s,
        None => {
            return Err(Error::Unauthorized(Credential::Session));
        },
    };
    let ghost before = store@;
    let ghost i = first_match(before, session_is(handle@))->Some_0;
    proof {
        crate::seqs::lemma_first_match_means(before, session_is(handle@), 0);
    }
    let signed_out = Session {
        handle: s.handle,
        oauth_state: s.oauth_state,
        state_checked: s.state_checked,
        user_id: None,
        expires_at: s.expires_at,
    };
    store.store_session(signed_out);
    assert(store@ =~= before.update(i, SessionView { user_id: None, ..before[i] }));
    Ok(())
}

/// The account a request is made for: the one its session is signed in to.
/// None without a cookie, without a live session, without an account in the
/// session, or where the account is not in the store.
pub open spec fn session_user(
    sessions: Seq<SessionView>,
    db: DbView,
    cookie: Option<Seq<char>>,
    now: i64,
) -> Option<UserView> {
    match cookie {
        None => None,
        Some(handle) => match live_session(sessions, handle, now) {
            None => None,
            Some(i) => match sessions[i].user_id {
                None => None,
                Some(id) => match first_match(db.users, user_has_id(id)) {
                    Some(ui) => Some(db.users[ui]),
                    None => None,
                },
            },
        },
    }
}

/// An optional account as contracts see it.
pub open spec fn opt_user_view(u: Option<User>) -> Option<UserView> {
    match u {
        Some(u) => Some(u@),
        None => None,
    }
}

/// An optional borrowed string as contracts see it.
pub open spec fn opt_str_view(s: Option<&str>) -> Option<Seq<char>> {
    match s {
        Some(s) => Some(s@),
        None => None,
    }
}

/// The account a request is made for.
pub fn authenticated_user(store: &SessionStore, db: &Database, cookie: Option<&str>, now: i64) -> (r:
    Option<User>)
    ensures
        opt_user_view(r) == session_user(store@, db@, opt_str_view(cookie), now),
{
    let handle = match cookie {
        Some(h) => h,
        None => {
            return None;
        },
    };
    let s = match store.load_session(handle, now) {
        Some(s) => s,
        None => {
            return None;
        },
    };
    let id = match s.user_id {
        Some(id) => id,
        None => {
            return None;
        },
    };
    match find_user(db, id) {
        Ok(u) => Some(u),
        Err(_) => None,
    }
}

/// The login of the signed-in account.
pub fn me(store: &SessionStore, db: &Database, cookie: Option<&str>, now: i64) -> (r: Result<
    MeUser,
    Error,
>)
    ensures
        match r {
            Ok(m) => session_user(store@, db@, opt_str_view(cookie), now) matches Some(u)
                && m.login@ == u.gh_login,
            Err(e) => session_user(store@, db@, opt_str_view(cookie), now) is None
                && e@ is Unauthorized,
        },
{
    match authenticated_user(store, db, cookie, now) {
        Some(u) => Ok(MeUser { login: u.gh_login }),
        None => Err(Error::Unauthorized(Credential::Session)),
    }
}

/// The live tokens of the signed-in account, newest first.
pub fn list(store: &SessionStore, db: &Database, cookie: Option<&str>, now: i64) -> (r: Result<
    ApiTokenList,
    Error,
>)
    ensures
        match r {
            Ok(l) => session_user(store@, db@, opt_str_view(cookie), now) matches Some(u)
                && db@.is_token_listing(u.id, token_views(l.api_tokens@)),
            Err(e) => session_user(store@, db@, opt_str_view(cookie), now) is None
                && e@ is Unauthorized,
        },
{
    let user = match authenticated_user(store, db, cookie, now) {
        Some(u) => u,
        None => {
            return Err(Error::Unauthorized(Credential::Session));
        },
    };
    match list_tokens(db, &user) {
        Ok(api_tokens) => Ok(ApiTokenList { api_tokens }),
        Err(e) => Err(e),
    }
}

/// Issues a token with a fresh random secret to the signed-in account.
pub fn new(
    store: &SessionStore,
    db: &mut Database,
    cookie: Option<&str>,
    payload: &NewTokenPayload,
    now: i64,
) -> (r: Result<EncodeApiToken, Error>)
    requires
        old(db)@.wf(),
    ensures
        final(db)@.wf(),
        match session_user(store@, old(db)@, opt_str_view(cookie), now) {
            None => r matches Err(e) && e@ is Unauthorized && final(db)@ == old(db)@,
            Some(u) => match r {
                Ok(t) => {
                    &&& t.plaintext@.len() == crate::token::SECRET_LEN
                    &&& old(db)@.issue_token(
                        u.id,
                        payload.name@,
                        crate::token::digest_of(t.plaintext@),
                        now,
                    ) == (final(db)@, Ok::<ApiTokenView, ErrorView>(t.token@))
                },
                Err(e) => final(db)@ == old(db)@ && (e@ is NotFound || e@ is Conflict
                    || e@ is Internal),
            },
        },
        session_user(store@, old(db)@, opt_str_view(cookie), now) matches Some(u) ==> exists|
            s: Seq<char>,
        | #[trigger]
            crate::db::issued_with(old(db)@, final(db)@, r, u.id, payload.name@, now, s),
{
    let user = match authenticated_user(store, db, cookie, now) {
        Some(u) => u,
        None => {
            return Err(Error::Unauthorized(Credential::Session));
        },
    };
    let r = insert_token(db, &user, payload.name.as_str(), now);
    proof {
        let s = choose|s: Seq<char>| #[trigger]
            crate::db::issued_with(old(db)@, db@, r, user.id, payload.name@, now, s);
        let u = session_user(store@, old(db)@, opt_str_view(cookie), now)->Some_0;
        assert(u.id == user.id);
        assert(crate::db::issued_with(old(db)@, db@, r, u.id, payload.name@, now, s));
    }
    r
}

/// Revokes a token of the signed-in account.
pub fn revoke(store: &SessionStore, db: &mut Database, cookie: Option<&str>, id: i32, now: i64) -> (r:
    Result<(), Error>)
    requires
        old(db)@.wf(),
    ensures
        final(db)@.wf(),
        match session_user(store@, old(db)@, opt_str_view(cookie), now) {
            None => r matches Err(e) && e@ is Unauthorized && final(db)@ == old(db)@,
            Some(u) => (final(db)@, crate::db::unit_result_view(r)) == old(db)@.revoke(u.id, id),
        },
{
    let user = match authenticated_user(store, db, cookie, now) {
        Some(u) => u,
        None => {
            return Err(Error::Unauthorized(Credential::Session));
        },
    };
    revoke_token(db, &user, id)
}


/// A state is good for one check: once the state of a live session was
/// checked, with whatever result, no later check of that session succeeds
/// until a new sign-in is begun.
pub proof fn lemma_state_is_checked_once(
    sessions: Seq<SessionView>,
    handle: Seq<char>,
    first: Seq<char>,
    second: Seq<char>,
    now: i64,
    later: i64,
)
    requires
        sessions_wf(sessions),
        live_session(sessions, handle, now) is Some,
    ensures
        state_check(state_check(sessions, handle, first, now).0, handle, second, later).1 is Err,
{
    crate::seqs::lemma_first_match_means(sessions, session_is(handle), 0);
    let i = live_session(sessions, handle, now)->Some_0;
    let after = state_check(sessions, handle, first, now).0;
    crate::seqs::lemma_first_match_means(after, session_is(handle), 0);
    if sessions[i].oauth_state == Some(first) {
        assert(after[i].oauth_state is None);
        assert(session_is(handle)(after[i]));
        let k = first_match(after, session_is(handle))->Some_0;
        if k != i {
            assert(after[k] == sessions[k]);
            assert(sessions[k].handle == sessions[i].handle);
        }
    } else {
        if first_match(after, session_is(handle)) is Some {
            let k = first_match(after, session_is(handle))->Some_0;
            let x = if k < i {
                k
            } else {
                k + 1
            };
            assert(after[k] == sessions[x]);
            assert(sessions[x].handle == sessions[i].handle);
        }
    }
}

/// No sign-in without a check that passed: a session whose sign-in was
/// begun and whose state was not checked is refused with `StateMismatch`,
/// and neither a session nor an account changes; and once a check has
/// failed there is no session left to sign in.
pub proof fn lemma_sign_in_needs_a_check(
    sessions: Seq<SessionView>,
    db: DbView,
    handle: Seq<char>,
    state: Seq<char>,
    returned: Seq<char>,
    gh_id: i32,
    gh_login: Seq<char>,
    access_token: Seq<char>,
    now: i64,
)
    requires
        sessions_wf(sessions),
    ensures
        ({
            let begun = sessions_put(sessions, begun_session(handle, state));
            &&& authorize_outcome(begun, db, handle, gh_id, gh_login, access_token, now) == (
                begun,
                db,
                Err::<UserView, ErrorView>(ErrorView::StateMismatch),
            )
            &&& returned != state ==> authorize_outcome(
                state_check(begun, handle, returned, now).0,
                db,
                handle,
                gh_id,
                gh_login,
                access_token,
                now,
            ).2 == Err::<UserView, ErrorView>(ErrorView::Unauthorized(Credential::Session))
        }),
{
    let s = begun_session(handle, state);
    let begun = sessions_put(sessions, s);
    lemma_sessions_put(sessions, s);
    let i = first_match(begun, session_is(handle))->Some_0;
    crate::seqs::lemma_first_match_means(begun, session_is(handle), 0);
    if returned != state {
        let after = state_check(begun, handle, returned, now).0;
        assert(after == begun.remove(i));
        crate::seqs::lemma_first_match_means(after, session_is(handle), 0);
        if first_match(after, session_is(handle)) is Some {
            let k = first_match(after, session_is(handle))->Some_0;
            let x = if k < i {
                k
            } else {
                k + 1
            };
            assert(after[k] == begun[x]);
            assert(begun[x].handle == begun[i].handle);
        }
    }
}

} // verus!
